//! File-selection rules of the tree walker: hidden-directory pruning,
//! exclude-glob pruning, and the accept-glob / default-extension filter.
//! Directory enumeration itself is I/O and stays outside the library; these
//! functions decide, for a name handed in, whether it is kept.

use vstd::prelude::*;
use vstd::string::*;
use crate::strutil::{str_eq, views_of};

verus! {

/// What `glob::Pattern::matches` returns for a pattern source and a path:
/// a function of the two strings alone.
pub uninterp spec fn glob_matches(pattern: Seq<char>, path: Seq<char>) -> bool;

/// Relies on `glob::Pattern::{new, matches}`: shell-glob matching with `**`
/// spanning path components.  A pattern that does not compile matches
/// nothing, which is how the walker treats unparsable globs.
#[verifier::external_body]
pub fn glob_match(pattern: &str, path: &str) -> (r: bool)
    ensures
        r == glob_matches(pattern@, path@),
{
    match glob::Pattern::new(pattern) {
        Ok(p) => p.matches(path),
        Err(_) => false,
    }
}

/// Some pattern of the list matches the path.
pub open spec fn any_glob_matches(pats: Seq<Seq<char>>, path: Seq<char>) -> bool {
    exists|i: int| 0 <= i < pats.len() && glob_matches(#[trigger] pats[i], path)
}

/// Executable mirror of [`any_glob_matches`].
#[verifier::loop_isolation(false)]
pub fn any_match(patterns: &Vec<String>, path: &str) -> (r: bool)
    ensures
        r == any_glob_matches(views_of(patterns@), path@),
{
    let n = patterns.len();
    let mut i: usize = 0;
    while i < n
        invariant
            i <= n,
            forall|j: int|
                0 <= j < i ==> !glob_matches(#[trigger] views_of(patterns@)[j], path@),
        decreases n - i,
    {
        if glob_match(patterns[i].as_str(), path) {
            proof {
                assert(views_of(patterns@)[i as int] == patterns@[i as int]@);
            }
            return true;
        }
        proof {
            assert(views_of(patterns@)[i as int] == patterns@[i as int]@);
        }
        i += 1;
    }
    false
}

/// A directory is pruned when its base name starts with a dot, or when its
/// relative path with `/x` appended matches an exclude glob.
pub open spec fn dir_pruned_spec(name: Seq<char>, probe: Seq<char>, excludes: Seq<Seq<char>>) -> bool {
    (name.len() > 0 && name[0] == '.') || any_glob_matches(excludes, probe)
}

/// Decide directory pruning; `rel` is the directory's path relative to the
/// walk root.
pub fn dir_is_pruned(name: &str, rel: &str, excludes: &Vec<String>) -> (r: bool)
    ensures
        r == dir_pruned_spec(name@, rel@ + "/x"@, views_of(excludes@)),
{
    if name.unicode_len() > 0 && name.get_char(0) == '.' {
        return true;
    }
    let mut probe = rel.to_owned();
    probe.append("/x");
    any_match(excludes, probe.as_str())
}

/// A file is kept iff no exclude glob matches its relative path, and either
/// some accept glob matches it (when accept globs are given) or its
/// extension stands in the default-extension list (when none are).
pub open spec fn file_selected_spec(
    rel: Seq<char>,
    ext: Seq<char>,
    accept: Seq<Seq<char>>,
    exclude: Seq<Seq<char>>,
    default_exts: Seq<Seq<char>>,
) -> bool {
    &&& !any_glob_matches(exclude, rel)
    &&& if accept.len() > 0 {
        any_glob_matches(accept, rel)
    } else {
        exists|i: int| 0 <= i < default_exts.len() && #[trigger] default_exts[i] == ext
    }
}

/// Executable mirror of [`file_selected_spec`].
#[verifier::loop_isolation(false)]
pub fn file_is_selected(
    rel: &str,
    ext: &str,
    accept: &Vec<String>,
    exclude: &Vec<String>,
    default_exts: &Vec<String>,
) -> (r: bool)
    ensures
        r == file_selected_spec(
            rel@,
            ext@,
            views_of(accept@),
            views_of(exclude@),
            views_of(default_exts@),
        ),
{
    if any_match(exclude, rel) {
        return false;
    }
    if accept.len() > 0 {
        any_match(accept, rel)
    } else {
        let n = default_exts.len();
        let mut i: usize = 0;
        while i < n
            invariant
                i <= n,
                forall|j: int| 0 <= j < i ==> #[trigger] views_of(default_exts@)[j] != ext@,
            decreases n - i,
        {
            proof {
                assert(views_of(default_exts@)[i as int] == default_exts@[i as int]@);
            }
            if str_eq(default_exts[i].as_str(), ext) {
                return true;
            }
            i += 1;
        }
        false
    }
}

} // verus!
