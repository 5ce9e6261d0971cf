use qcmd::engines::compile_glob;
use qcmd::find::{build_type_matcher, find_text, select_paths, sort_paths, type_selection};

fn strings(v: &[&str]) -> Vec<String> {
    v.iter().map(|s| s.to_string()).collect()
}

#[test]
fn splits_type_lists() {
    assert_eq!(type_selection("rs, py,,ts "), strings(&["rs", "py", "ts"]));
    assert_eq!(type_selection(""), Vec::<String>::new());
    assert_eq!(type_selection(" , "), Vec::<String>::new());
}

#[test]
fn builds_type_matchers() {
    assert!(matches!(build_type_matcher(""), Ok(None)));
    assert!(matches!(build_type_matcher("rust"), Ok(Some(_))));
    let e = build_type_matcher("nosuchtype").err().unwrap();
    assert!(e.starts_with("type error: "), "{e}");
}

#[test]
fn globs_select_and_sort_paths() {
    let set = compile_glob("**/*.rs").unwrap();
    let paths = strings(&["./src/z.rs", "./README.md", "./src/a.rs", "./b.rs"]);
    assert_eq!(select_paths(&set, &paths), strings(&["./b.rs", "./src/a.rs", "./src/z.rs"]));
}

#[test]
fn rejects_bad_globs() {
    let e = compile_glob("a[").err().unwrap();
    assert!(e.starts_with("invalid glob: "), "{e}");
}

#[test]
fn sorts_paths_bytewise() {
    let v = strings(&["b", "B", "a", "é", "ab"]);
    let mut expected = v.clone();
    expected.sort();
    assert_eq!(sort_paths(&v), expected);
}

#[test]
fn prints_found_paths() {
    assert_eq!(find_text(&strings(&["a", "b"])), "a\nb");
    assert_eq!(find_text(&Vec::new()), "");
}

#[test]
fn type_filter_selects_the_named_types() {
    for list in [" py , ,ts ", "py,ts"] {
        let t = build_type_matcher(list).unwrap().unwrap();
        assert!(t.matched("a.py", false).is_whitelist(), "{list}");
        assert!(t.matched("a.ts", false).is_whitelist(), "{list}");
        assert!(t.matched("a.rs", false).is_ignore(), "{list}");
    }
    let all = build_type_matcher("all").unwrap().unwrap();
    assert!(all.matched("a.rs", false).is_whitelist());
    assert!(build_type_matcher("py,nosuchtype").is_err());
}

#[test]
fn law_type_list_spacing_does_not_count() {
    assert_eq!(type_selection(" py , ,ts "), type_selection("py,ts"));
    assert_eq!(type_selection("py,ts"), strings(&["py", "ts"]));
    assert_eq!(type_selection("  "), Vec::<String>::new());
}
