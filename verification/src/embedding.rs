//! The decisions around embedding: model-variant selection, the framing of
//! encoder token ids with special tokens under a length budget, truncation
//! to a model's maximum sequence length, and the query instruction prefix.
//! Tokenization, model load and the tensor forward pass live outside the
//! library with the model backend.

use vstd::prelude::*;
use vstd::string::*;
use crate::strutil::str_eq;

verus! {

/// The instruction prepended to a natural-language query before embedding.
/// Code snippets are embedded without it.
pub fn query_prefix() -> (r: &'static str)
    ensures
        r@ == "Represent this query for searching relevant code: "@,
{
    "Represent this query for searching relevant code: "
}

/// A query with the model's instruction prefix prepended.
pub fn prefixed_query(q: &str) -> (r: String)
    ensures
        r@ == "Represent this query for searching relevant code: "@ + q@,
{
    let mut s = query_prefix().to_owned();
    s.append(q);
    s
}

/// The selectable encoder variants.
#[derive(Debug, Clone, Copy, PartialEq, Eq, Structural)]
pub enum UniXcoderVariant {
    Base,
    Nine,
}

impl UniXcoderVariant {
    /// The variant named by a configuration string; anything unknown falls
    /// back to the base variant.
    pub fn from_str(s: &str) -> (r: Self)
        ensures
            r == (if s@ == "nine"@ || s@ == "unixcoder-base-nine"@ {
                UniXcoderVariant::Nine
            } else {
                UniXcoderVariant::Base
            }),
    {
        if str_eq(s, "nine") || str_eq(s, "unixcoder-base-nine") {
            UniXcoderVariant::Nine
        } else {
            UniXcoderVariant::Base
        }
    }

    /// The model repository of the variant.
    pub fn repo_id(&self) -> (r: &'static str)
        ensures
            r@ == (match *self {
                UniXcoderVariant::Base => "microsoft/unixcoder-base"@,
                UniXcoderVariant::Nine => "microsoft/unixcoder-base-nine"@,
            }),
    {
        match self {
            UniXcoderVariant::Base => "microsoft/unixcoder-base",
            UniXcoderVariant::Nine => "microsoft/unixcoder-base-nine",
        }
    }
}

/// Token ids cut to at most `max` entries.
pub open spec fn clipped(ids: Seq<u32>, max: int) -> Seq<u32> {
    if ids.len() <= max {
        ids
    } else {
        ids.subrange(0, max)
    }
}

/// Truncate token ids to a model's maximum sequence length.
pub fn clip_ids(ids: Vec<u32>, max: usize) -> (r: Vec<u32>)
    ensures
        r@ == clipped(ids@, max as int),
{
    let mut v = ids;
    if v.len() > max {
        v.truncate(max);
    }
    v
}

/// Frame raw encoder token ids for an encoder-only forward pass: with an
/// encoder-mode token the sequence is `[bos, mode, sep, ids…, sep]` and the
/// ids are cut to `max_len - 4`; without one it is `[bos, ids…, sep]` with
/// the ids cut to `max_len - 2`.  Token 0 opens and token 2 separates, as
/// in the model's vocabulary.
pub fn frame_encoder_ids(ids: Vec<u32>, encoder_mode_id: Option<u32>, max_len: usize) -> (r: Vec<
    u32,
>)
    requires
        max_len >= 5,
    ensures
        r@ == (match encoder_mode_id {
            Some(e) => seq![0u32, e, 2u32] + clipped(ids@, max_len - 4) + seq![2u32],
            None => seq![0u32] + clipped(ids@, max_len - 2) + seq![2u32],
        }),
        r@.len() <= max_len,
        r@.len() >= 2,
        r@[0] == 0u32,
        r@[r@.len() - 1] == 2u32,
{
    match encoder_mode_id {
        Some(e) => {
            let body = clip_ids(ids, max_len - 4);
            let mut r: Vec<u32> = Vec::new();
            r.push(0);
            r.push(e);
            r.push(2);
            let mut b = body;
            r.append(&mut b);
            r.push(2);
            proof {
                assert(r@ =~= seq![0u32, e, 2u32] + clipped(ids@, max_len - 4) + seq![2u32]);
            }
            r
        },
        None => {
            let body = clip_ids(ids, max_len - 2);
            let mut r: Vec<u32> = Vec::new();
            r.push(0);
            let mut b = body;
            r.append(&mut b);
            r.push(2);
            proof {
                assert(r@ =~= seq![0u32] + clipped(ids@, max_len - 2) + seq![2u32]);
            }
            r
        },
    }
}

} // verus!
