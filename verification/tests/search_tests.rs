use qcmd::engines::compile_regex;
use qcmd::search::{finish_search, render_matches, search_content, sort_matches, SearchMatch};

fn m(file: &str, line: usize, column: usize, text: &str) -> SearchMatch {
    SearchMatch { file: file.to_string(), line, column, text: text.to_string() }
}

fn key(v: &[SearchMatch]) -> Vec<(String, usize, usize, String)> {
    v.iter().map(|x| (x.file.clone(), x.line, x.column, x.text.clone())).collect()
}

#[test]
fn finds_matching_lines_with_columns() {
    let re = compile_regex("fn \\w+").unwrap();
    let content = "use x;\nfn main() {}\n  fn helper() {}\n";
    let found = search_content(&re, "./a.rs", content, 0).unwrap();
    assert_eq!(key(&found), key(&[m("./a.rs", 2, 1, "fn main() {}"), m("./a.rs", 3, 3, "  fn helper() {}")]));
}

#[test]
fn column_counts_bytes() {
    let re = compile_regex("x").unwrap();
    let found = search_content(&re, "f", "éx", 0).unwrap();
    assert_eq!(found[0].column, 3);
}

#[test]
fn adds_context_lines() {
    let re = compile_regex("hit").unwrap();
    let content = "a\nb\nhit\nc\nd";
    let found = search_content(&re, "f", content, 1).unwrap();
    assert_eq!(key(&found), key(&[m("f", 3, 1, "hit"), m("f", 2, 0, "b"), m("f", 4, 0, "c")]));
    let found = search_content(&re, "f", "hit\nz", 5).unwrap();
    assert_eq!(key(&found), key(&[m("f", 1, 1, "hit"), m("f", 2, 0, "z")]));
}

#[test]
fn skips_binary_files() {
    let re = compile_regex("a").unwrap();
    assert!(search_content(&re, "f", "a\0b", 0).unwrap().is_empty());
}

#[test]
fn overflowing_context_is_refused() {
    let re = compile_regex("a").unwrap();
    assert!(search_content(&re, "f", "a", usize::MAX).is_none());
    assert!(search_content(&re, "f", "b", usize::MAX).unwrap().is_empty());
}

#[test]
fn sorts_by_file_then_line_stably() {
    let v = vec![m("b", 2, 1, "x"), m("a", 5, 0, "y"), m("b", 1, 0, "z"), m("a", 5, 2, "w")];
    let sorted = sort_matches(&v);
    assert_eq!(key(&sorted), key(&[m("a", 5, 0, "y"), m("a", 5, 2, "w"), m("b", 1, 0, "z"), m("b", 2, 1, "x")]));
    let mut expected = v.iter().map(|x| (x.file.clone(), x.line, x.column, x.text.clone())).collect::<Vec<_>>();
    expected.sort_by(|a, b| a.0.cmp(&b.0).then(a.1.cmp(&b.1)));
    assert_eq!(key(&sorted), expected);
}

#[test]
fn renders_matches() {
    let v = vec![m("f", 2, 0, "ctx"), m("f", 3, 4, "hit")];
    assert_eq!(render_matches(&v), "f:2: ctx\nf:3:4: hit\n");
}

#[test]
fn finishes_a_search() {
    let v = vec![m("b", 1, 1, "x"), m("a", 1, 1, "y")];
    let r = finish_search(&v, false);
    assert_eq!(r.count, 2);
    assert!(!r.truncated);
    assert_eq!(r.text, "a:1:1: y\nb:1:1: x");
    let empty = finish_search(&Vec::new(), false);
    assert_eq!(empty.text, "");
    assert_eq!(empty.count, 0);
}

#[test]
fn long_search_is_truncated() {
    let v: Vec<SearchMatch> = (1..=300).map(|i| m("f", i, 1, "x")).collect();
    let r = finish_search(&v, false);
    assert!(r.truncated);
    assert!(r.text.ends_with("f:200:1: x\n... (200/300) lines shown, use --no-trunc for full output"));
    let r = finish_search(&v, true);
    assert!(!r.truncated);
}
