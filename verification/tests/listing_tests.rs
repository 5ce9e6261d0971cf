use qcmd::listing::{
    keep_in_tree, last_path_segment, ls_entries, render_ls_long, render_ls_short, render_tree, tree_entries,
    LsEntry, TreeEntry,
};

fn t(path: &str, is_dir: bool, depth: usize) -> TreeEntry {
    TreeEntry { path: path.to_string(), is_dir, depth }
}

fn l(name: &str, is_dir: bool, size: Option<u64>, modified: Option<&str>) -> LsEntry {
    LsEntry {
        name: name.to_string(),
        is_dir,
        size,
        modified: modified.map(|m| m.to_string()),
        raw_name: name.as_bytes().to_vec(),
    }
}

#[test]
fn prunes_tool_directories() {
    assert!(!keep_in_tree(".git"));
    assert!(!keep_in_tree("node_modules"));
    assert!(!keep_in_tree("target"));
    assert!(keep_in_tree("src"));
    assert!(keep_in_tree(".gitignore"));
}

#[test]
fn last_segments() {
    assert_eq!(last_path_segment("src/a/b.rs"), "b.rs");
    assert_eq!(last_path_segment("b.rs"), "b.rs");
    assert_eq!(last_path_segment("dir/"), "");
}

#[test]
fn renders_a_tree() {
    let raw = vec![t("", true, 0), t("src", true, 1), t("src/main.rs", false, 2), t("README.md", false, 1)];
    let shown = tree_entries(&raw, false);
    assert_eq!(shown.len(), 4);
    assert_eq!(render_tree("/p", &shown), "/p/\n  src/\n    main.rs\n  README.md");
    let dirs = tree_entries(&raw, true);
    assert_eq!(dirs.len(), 2);
    assert_eq!(render_tree("/p", &dirs), "/p/\n  src/");
    assert_eq!(render_tree("/p", &Vec::new()), "");
}

#[test]
fn lists_sorted_visible_entries() {
    let raw = vec![l("b.txt", false, Some(12), Some("2024-01-01 10:00:00")), l(".hidden", false, None, None), l("a", true, Some(4096), None)];
    let shown = ls_entries(&raw, false);
    assert_eq!(shown.iter().map(|e| e.name.clone()).collect::<Vec<_>>(), vec!["a", "b.txt"]);
    let all = ls_entries(&raw, true);
    assert_eq!(all.iter().map(|e| e.name.clone()).collect::<Vec<_>>(), vec![".hidden", "a", "b.txt"]);
    assert_eq!(render_ls_short(&shown), "a/  b.txt");
    assert_eq!(
        render_ls_long(&all),
        "       - - .hidden\n    4096 - a/\n      12 2024-01-01 10:00:00 b.txt"
    );
}

#[test]
fn long_listing_pads_sizes() {
    let e = vec![l("big", false, Some(123456789), Some("t"))];
    assert_eq!(render_ls_long(&e), format!("{:>8} t big", 123456789));
}

#[test]
fn orders_by_the_bytes_of_names() {
    // A name that is not UTF-8 (byte 0x80) is shown as U+FFFD, whose
    // encoding (EF BF BD) sorts after "é" (C3 A9); by its own bytes it
    // sorts before.
    let odd = LsEntry { name: "\u{FFFD}".to_string(), is_dir: false, size: None, modified: None, raw_name: vec![0x80] };
    let raw = vec![l("é", false, None, None), odd];
    let shown = ls_entries(&raw, false);
    assert_eq!(shown.iter().map(|e| e.raw_name.clone()).collect::<Vec<_>>(), vec![vec![0x80u8], "é".as_bytes().to_vec()]);
    assert_eq!(render_ls_short(&shown), "\u{FFFD}  é");
}
