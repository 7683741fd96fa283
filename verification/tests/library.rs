// Unit tests of fusion, hashing, cleaning, selection and configuration.

use maharajah::clean::{dedent_docstring, strip_comment_markers, strip_python_docstring, strip_xml_tags};
use maharajah::config::{db_path, AppConfig};
use maharajah::embedding::{frame_encoder_ids, prefixed_query, UniXcoderVariant};
use maharajah::indexer::{compute_hash, escape_single_quotes, dedup_paths, file_refresh_action, make_chunk_id, FileAction};
use maharajah::math::{add, factorial, max_val, Stack};
use maharajah::retriever::{default_limit, rrf_merge};
use maharajah::strutil::{split_lines, trim};
use maharajah::walker::{dir_is_pruned, file_is_selected, glob_match};
use maharajah::watch::{event_triggers_refresh, FsEventKind, DEBOUNCE_WINDOW_MS};

fn strs(v: &[&str]) -> Vec<String> {
    v.iter().map(|s| s.to_string()).collect()
}

#[test]
fn fused_search_order() {
    // Document A ranks 1st on content and 3rd on summary; document B ranks
    // 2nd on content and 1st on summary.  With K = 60, A's fused score is
    // 1/61 + 1/63 and B's is 1/62 + 1/61, so B comes first.
    let content = strs(&["A", "B"]);
    let summary = strs(&["B", "C", "A"]);
    let fused = rrf_merge(&content, &summary, 10);
    assert_eq!(fused.len(), 3);
    assert_eq!(fused[0].id, "B");
    assert_eq!(fused[1].id, "A");
    assert_eq!(fused[2].id, "C");
    // Exact fractions: A = 1/61 + 1/63 = 124/3843, B = 1/62 + 1/61 = 123/3782.
    assert_eq!((fused[1].score_num, fused[1].score_den), (124, 3843));
    assert_eq!((fused[0].score_num, fused[0].score_den), (123, 3782));
    // C appears only in the summary list at rank 2: 1/62.
    assert_eq!((fused[2].score_num, fused[2].score_den), (1, 62));
}

#[test]
fn fused_rank_one_in_both_lists() {
    // A row first in both lists scores 2/(K+1): 122/3721 equals 2/61.
    let content = strs(&["X"]);
    let summary = strs(&["X"]);
    let fused = rrf_merge(&content, &summary, 5);
    assert_eq!(fused.len(), 1);
    assert_eq!((fused[0].score_num, fused[0].score_den), (122, 61 * 61));
    assert_eq!(fused[0].score_num * 61, 2 * fused[0].score_den);
}

#[test]
fn fusion_truncates_to_limit() {
    let content = strs(&["a", "b", "c", "d"]);
    let summary = strs(&[]);
    let fused = rrf_merge(&content, &summary, 2);
    assert_eq!(fused.len(), 2);
    assert_eq!(fused[0].id, "a");
    assert_eq!(fused[1].id, "b");
}

#[test]
fn default_limit_is_ten() {
    assert_eq!(default_limit(), 10);
}

#[test]
fn sha256_hash_of_known_bytes() {
    assert_eq!(
        compute_hash(b""),
        "e3b0c44298fc1c149afbf4c8996fb92427ae41e4649b934ca495991b7852b855"
    );
    assert_eq!(
        compute_hash(b"abc"),
        "ba7816bf8f01cfea414140de5dae2223b00361a396177a9cb410ff61f20015ad"
    );
}

#[test]
fn refresh_decisions() {
    let stored = "aa".to_string();
    assert_eq!(file_refresh_action(false, Some(&stored), "aa"), FileAction::Skip);
    assert_eq!(file_refresh_action(false, Some(&stored), "bb"), FileAction::Replace);
    assert_eq!(file_refresh_action(false, None, "aa"), FileAction::Insert);
    assert_eq!(file_refresh_action(true, Some(&stored), "aa"), FileAction::Insert);
}

#[test]
fn chunk_ids_and_escaping() {
    assert_eq!(make_chunk_id("src/main.rs", 42), "src/main.rs:42");
    assert_eq!(make_chunk_id("a.py", 0), "a.py:0");
    assert_eq!(escape_single_quotes("it's a 'test'"), "it''s a ''test''");
    assert_eq!(escape_single_quotes("plain"), "plain");
}

#[test]
fn path_dedup() {
    let d = dedup_paths(&strs(&["a.rs", "b.rs", "a.rs", "c.rs", "b.rs"]));
    assert_eq!(d, strs(&["a.rs", "b.rs", "c.rs"]));
}

#[test]
fn comment_marker_stripping() {
    assert_eq!(strip_comment_markers("/// Adds things.", "rust"), "Adds things.");
    assert_eq!(strip_comment_markers("// note", "go"), "note");
    assert_eq!(strip_comment_markers("/** A point.\n * On a plane.\n */", "java"), "A point.\nOn a plane.");
    assert_eq!(strip_comment_markers("-- | Haddock line", "haskell"), "Haddock line");
    assert_eq!(strip_comment_markers("# yard doc", "ruby"), "yard doc");
    assert_eq!(
        strip_comment_markers("/// <summary>\n/// A heap.\n/// </summary>", "csharp"),
        "A heap."
    );
}

#[test]
fn xml_tag_stripping() {
    let s = strip_xml_tags("<summary>A heap.</summary>\n<param name=\"x\">the item</param>");
    assert!(!s.contains('<') && !s.contains('>'));
    assert_eq!(s, "A heap.\nthe item");
}

#[test]
fn python_docstring_cleaning() {
    assert_eq!(
        strip_python_docstring("\"\"\"Parse args.\n    Returns them.\n    \"\"\""),
        "Parse args.\nReturns them."
    );
    assert_eq!(strip_python_docstring("'one line'"), "one line");
    assert_eq!(dedent_docstring("top\n    mid\n      deep"), "top\nmid\n  deep");
}

#[test]
fn string_utilities() {
    let lines = split_lines("a\nb\n\nc\n");
    assert_eq!(lines, strs(&["a", "b", "", "c"]));
    assert_eq!(split_lines(""), Vec::<String>::new());
    assert_eq!(trim("  padded \t"), "padded");
}

#[test]
fn walker_selection() {
    assert!(glob_match("**/target/**", "foo/target/debug/x.rs"));
    assert!(!glob_match("**/target/**", "src/main.rs"));
    assert!(dir_is_pruned(".git", ".git", &strs(&[])));
    assert!(dir_is_pruned("target", "target", &strs(&["target/**"])));
    assert!(!dir_is_pruned("src", "src", &strs(&["target/**"])));

    let none: Vec<String> = vec![];
    let exts = strs(&["rs", "py"]);
    assert!(file_is_selected("src/a.rs", "rs", &none, &none, &exts));
    assert!(!file_is_selected("src/a.c", "c", &none, &none, &exts));
    assert!(!file_is_selected("target/a.rs", "rs", &none, &strs(&["target/**"]), &exts));
    assert!(file_is_selected("doc/x.md", "md", &strs(&["doc/*.md"]), &none, &exts));
    assert!(!file_is_selected("doc/x.txt", "txt", &strs(&["doc/*.md"]), &none, &exts));
}

#[test]
fn configuration_defaults() {
    let cfg = AppConfig::default();
    assert_eq!(cfg.db.table_name, "chunks");
    assert_eq!(cfg.db.embedding_dim, 768);
    assert_eq!(cfg.index.max_chunk_lines, 40);
    assert!(cfg.index.default_extensions.iter().any(|e| e == "rs"));
    assert!(cfg.index.default_excludes.iter().any(|e| e == "**/target/**"));
    assert_eq!(cfg.ollama.base_url, "http://localhost:11434");
    assert_eq!(db_path("/repo"), "/repo/.maharajah/db");
}

#[test]
fn embedding_decisions() {
    assert_eq!(UniXcoderVariant::from_str("nine"), UniXcoderVariant::Nine);
    assert_eq!(UniXcoderVariant::from_str("unixcoder-base-nine"), UniXcoderVariant::Nine);
    assert_eq!(UniXcoderVariant::from_str("anything"), UniXcoderVariant::Base);
    assert_eq!(UniXcoderVariant::Base.repo_id(), "microsoft/unixcoder-base");
    assert_eq!(UniXcoderVariant::Nine.repo_id(), "microsoft/unixcoder-base-nine");

    let framed = frame_encoder_ids(vec![7, 8, 9], Some(5), 512);
    assert_eq!(framed, vec![0, 5, 2, 7, 8, 9, 2]);
    let framed2 = frame_encoder_ids(vec![7, 8, 9], None, 512);
    assert_eq!(framed2, vec![0, 7, 8, 9, 2]);
    let long: Vec<u32> = (0..600).collect();
    let framed3 = frame_encoder_ids(long, Some(5), 512);
    assert_eq!(framed3.len(), 512);
    assert_eq!(framed3[0], 0);
    assert_eq!(*framed3.last().unwrap(), 2);

    assert_eq!(
        prefixed_query("find the parser"),
        "Represent this query for searching relevant code: find the parser"
    );
}

#[test]
fn watcher_decisions() {
    assert!(event_triggers_refresh(FsEventKind::Create));
    assert!(event_triggers_refresh(FsEventKind::Modify));
    assert!(event_triggers_refresh(FsEventKind::Remove));
    assert!(!event_triggers_refresh(FsEventKind::Other));
    assert_eq!(DEBOUNCE_WINDOW_MS, 500);
}

#[test]
fn math_sample() {
    assert_eq!(add(2, 3), 5);
    assert_eq!(factorial(0), 1);
    assert_eq!(factorial(5), 120);
    assert_eq!(max_val(3, 9), 9);
    assert_eq!(max_val("b", "a"), "b");

    let mut s: Stack<i32> = Stack::new();
    assert!(s.is_empty());
    s.push(1);
    s.push(2);
    assert!(!s.is_empty());
    assert_eq!(s.pop(), Some(2));
    assert_eq!(s.pop(), Some(1));
    assert_eq!(s.pop(), None);
}
