use qcmd::git::{git_error_label, git_plan, git_report, GitAction};
use qcmd::reports::{diff_report, http_report, info_report, mkdir_message, transfer_message, write_report};

#[test]
fn reports_file_info() {
    let r = info_report("a.txt", false, 10, Some("x\ny\n".to_string()), Some("2024-05-01 12:00:00".to_string()));
    assert_eq!(r.size, Some(10));
    assert_eq!(r.lines, Some(2));
    assert_eq!(
        r.text,
        "path:     a.txt\ntype:     file\nsize:     10 bytes\nlines:    2\nmodified: 2024-05-01 12:00:00"
    );
    let d = info_report("dir", true, 4096, None, None);
    assert_eq!(d.size, None);
    assert_eq!(d.lines, None);
    assert_eq!(d.text, "path:     dir\ntype:     directory");
}

#[test]
fn write_counts_bytes() {
    assert_eq!(write_report("f", "héllo"), (6, "f: 6 bytes written".to_string()));
    assert_eq!(write_report("f", ""), (0, "f: 0 bytes written".to_string()));
}

#[test]
fn simple_messages() {
    assert_eq!(mkdir_message("a/b"), "created a/b/");
    assert_eq!(transfer_message("a", "b"), "a → b");
}

#[test]
fn diff_reports() {
    let r = diff_report("", "");
    assert_eq!(r.text, "files are identical");
    assert_eq!(r.diff, "");
    let r = diff_report("--- a\n+++ b\n", "");
    assert_eq!(r.text, "--- a\n+++ b");
    assert_eq!(r.diff, "--- a\n+++ b");
    let r = diff_report("", "diff: x: No such file\n");
    assert_eq!(r.text, "diff: x: No such file");
}

#[test]
fn http_reports() {
    let r = http_report("<html>\n</html>\n\n");
    assert_eq!(r.body, "<html>\n</html>\n\n");
    assert!(!r.truncated);
    assert_eq!(r.text, "<html>\n</html>");
}

#[test]
fn git_plans() {
    let p = git_plan(&GitAction::Log { count: 5 });
    assert_eq!(p.args, vec!["log", "--oneline", "-5"]);
    assert_eq!(p.command, "log");
    assert!(p.prepare.is_empty());
    let p = git_plan(&GitAction::Commit { msg: "m".into() });
    assert_eq!(p.prepare, vec!["add", "-A"]);
    assert_eq!(p.args, vec!["commit", "-m", "m"]);
    assert_eq!(git_error_label(&p), "git commit");
    let p = git_plan(&GitAction::Show { rev: "HEAD".into() });
    assert_eq!(p.args, vec!["show", "--stat", "--oneline", "HEAD"]);
    assert_eq!(git_plan(&GitAction::Status).args, vec!["status", "--short"]);
    assert_eq!(git_plan(&GitAction::Staged).command, "staged");
    assert_eq!(git_plan(&GitAction::Checkout { branch: "dev".into() }).args, vec!["checkout", "dev"]);
}

#[test]
fn git_reports() {
    let p = git_plan(&GitAction::Status);
    let r = git_report(&p, "", "");
    assert_eq!(r.text, "(empty -- `git status`)");
    assert_eq!(r.output, "");
    let r = git_report(&p, " M a.rs\n", "");
    assert_eq!(r.text, " M a.rs");
    assert_eq!(r.output, "M a.rs");
    let b = git_plan(&GitAction::Branch);
    let r = git_report(&b, "", "fatal: not a git repository\n");
    assert_eq!(r.text, "");
    let c = git_plan(&GitAction::Checkout { branch: "x".into() });
    let r = git_report(&c, "", "Switched to branch 'x'\n");
    assert_eq!(r.text, "Switched to branch 'x'");
}
