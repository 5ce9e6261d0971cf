use qcmd::replace::{
    backup_missing_message, backup_path, diff_from_output, needs_diff, plan_replace,
    replace_actions, replace_all_chars, replace_outcome, required_texts, restored_message, undo_actions,
    FileAction,
};
use qcmd::chars::{from_chars, to_chars};

#[test]
fn replaces_first_plain_occurrence() {
    let p = plan_replace("f.txt", "foo bar foo", "foo", "baz", false, false).unwrap();
    assert_eq!(p.new_content, "baz bar foo");
    assert_eq!(p.count, 1);
    assert_eq!(p.backup_path, "f.txt.q.bak");
    assert_eq!(p.backup_content, "foo bar foo");
}

#[test]
fn replaces_all_plain_occurrences() {
    let p = plan_replace("f", "aaaa", "aa", "b", true, false).unwrap();
    assert_eq!(p.new_content, "aaaa".replace("aa", "b"));
    assert_eq!(p.count, 2);
    let p = plan_replace("f", "ab", "", "x", true, false).unwrap();
    assert_eq!(p.new_content, "ab".replace("", "x"));
    assert_eq!(p.count, 3);
    let p = plan_replace("f", "héllo wörld", "ö", "o", true, false).unwrap();
    assert_eq!(p.new_content, "héllo world");
}

#[test]
fn empty_pattern_first_inserts_at_start() {
    let p = plan_replace("f", "ab", "", "x", false, false).unwrap();
    assert_eq!(p.new_content, "xab");
    assert_eq!(p.count, 1);
}

#[test]
fn reports_missing_text() {
    assert_eq!(
        plan_replace("f.txt", "abc", "zz", "y", false, false).err().unwrap(),
        "'zz' not found in f.txt"
    );
    assert_eq!(
        plan_replace("f.txt", "abc", "zz", "y", true, false).err().unwrap(),
        "'zz' not found in f.txt"
    );
    assert_eq!(
        plan_replace("f.txt", "abc", "z+", "y", true, true).err().unwrap(),
        "'z+' not found in f.txt"
    );
}

#[test]
fn replaces_with_regex() {
    let p = plan_replace("f", "a1 b22 c333", r"[a-z](\d+)", "<$1>", true, true).unwrap();
    assert_eq!(p.new_content, "<1> <22> <333>");
    assert_eq!(p.count, 3);
    let p = plan_replace("f", "a1 b22 c333", r"[a-z](\d+)", "<$1>", false, true).unwrap();
    assert_eq!(p.new_content, "<1> b22 c333");
    assert_eq!(p.count, 1);
}

#[test]
fn rejects_bad_regex() {
    let e = plan_replace("f", "abc", "(", "x", false, true).err().unwrap();
    assert!(e.starts_with("invalid regex: "), "{e}");
}

#[test]
fn law_replacing_by_itself_changes_nothing() {
    for (s, p) in [("abcabc", "bc"), ("aaaa", "aa"), ("xyz", "q"), ("", "a")] {
        let out = replace_all_chars(&to_chars(s), &to_chars(p), &to_chars(p));
        assert_eq!(from_chars(&out), s);
    }
}

#[test]
fn law_backup_holds_the_old_content() {
    let content = "line one\nline two\n";
    let p = plan_replace("notes.md", content, "one", "1", false, false).unwrap();
    assert_eq!(p.backup_content, content);
    assert_eq!(p.backup_path, backup_path("notes.md"));
    assert_eq!(restored_message("notes.md"), "notes.md: restored from notes.md.q.bak");
    assert_eq!(backup_missing_message("notes.md"), "backup not found: notes.md.q.bak");
}

#[test]
fn outcome_of_dry_run_and_write() {
    let o = replace_outcome("f", 2, true, Some("--- f\n+++ f\n".to_string()));
    assert!(!o.write);
    assert_eq!(o.text, "[dry-run] f: 2 replacement(s)\n--- f\n+++ f\n");
    assert_eq!(o.json_diff, Some("--- f\n+++ f\n".to_string()));
    let o = replace_outcome("f", 1, true, None);
    assert_eq!(o.text, "[dry-run] f: 1 replacement(s)\n(diff unavailable)");
    assert_eq!(o.json_diff, Some("(diff unavailable)".to_string()));
    let o = replace_outcome("f", 3, false, None);
    assert!(o.write);
    assert_eq!(o.text, "f: 3 replacement(s) (backup: f.q.bak)");
    assert_eq!(o.json_diff, None);
}

#[test]
fn diff_only_where_needed() {
    assert!(needs_diff(true, true));
    assert!(needs_diff(false, false));
    assert!(!needs_diff(false, true));
    assert_eq!(diff_from_output(String::new()), None);
    assert_eq!(diff_from_output("d".to_string()), Some("d".to_string()));
}

#[test]
fn old_and_new_are_required() {
    assert_eq!(
        required_texts(None, Some("n".into())).err().unwrap(),
        "old is required (use --undo without old/new)"
    );
    assert_eq!(
        required_texts(Some("o".into()), None).err().unwrap(),
        "new is required (use --undo without old/new)"
    );
    assert_eq!(required_texts(Some("o".into()), Some("n".into())).unwrap(), ("o".to_string(), "n".to_string()));
}

fn apply(files: &mut std::collections::HashMap<String, String>, actions: &[FileAction]) {
    for a in actions {
        match &a.content {
            Some(c) => {
                files.insert(a.path.clone(), c.clone());
            }
            None => {
                files.remove(&a.path);
            }
        }
    }
}

#[test]
fn law_undo_restores_the_content_before_the_last_replacement() {
    let mut files = std::collections::HashMap::new();
    files.insert("f.txt".to_string(), "a b a".to_string());
    files.insert("other".to_string(), "x".to_string());
    let before = files.clone();
    for (old, new) in [("a", "c"), ("b", "d")] {
        let content = files["f.txt"].clone();
        let plan = plan_replace("f.txt", &content, old, new, true, false).unwrap();
        let acts = replace_actions("f.txt", &plan);
        assert_eq!(acts[1].on_error.as_deref(), Some("write f.txt: "));
        assert_eq!(acts[0].on_error, None);
        apply(&mut files, &acts);
    }
    assert_eq!(files["f.txt"], "c d c");
    assert_eq!(files["f.txt.q.bak"], "c b c");
    let undo = undo_actions("f.txt", files.get("f.txt.q.bak").cloned()).unwrap();
    assert_eq!(undo[0].on_error.as_deref(), Some("restore f.txt: "));
    apply(&mut files, &undo);
    assert_eq!(files["f.txt"], "c b c");
    assert!(!files.contains_key("f.txt.q.bak"));
    assert_eq!(files["other"], before["other"]);
    let again = undo_actions("f.txt", files.get("f.txt.q.bak").cloned());
    assert_eq!(again.err().unwrap(), "backup not found: f.txt.q.bak");
}
