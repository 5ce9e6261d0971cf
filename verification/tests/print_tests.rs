use qcmd::print::{parse_range, print_report, print_request};

#[test]
fn parses_ranges() {
    assert_eq!(parse_range("src/main.rs:50-60"), ("src/main.rs".to_string(), Some(50), Some(11)));
    assert_eq!(parse_range("src/main.rs:50:+5"), ("src/main.rs".to_string(), Some(50), Some(5)));
    assert_eq!(parse_range("src/main.rs:50"), ("src/main.rs".to_string(), Some(50), None));
    assert_eq!(parse_range("src/main.rs"), ("src/main.rs".to_string(), None, None));
    assert_eq!(parse_range("f:20-10"), ("f".to_string(), Some(20), Some(0)));
    assert_eq!(parse_range("f:x-3"), ("f".to_string(), Some(1), Some(3)));
    assert_eq!(parse_range("f:5-y"), ("f".to_string(), Some(5), Some(0)));
    assert_eq!(parse_range("f:abc"), ("f".to_string(), Some(1), None));
    assert_eq!(parse_range("f:3:+"), ("f".to_string(), Some(3), Some(0)));
    assert_eq!(parse_range("a:b:c"), ("a".to_string(), Some(1), None));
}

#[test]
fn options_win_over_the_argument() {
    let r = print_request("f:3-4", Some(1), None);
    assert_eq!(r.file, "f");
    assert_eq!(r.offset, Some(1));
    assert_eq!(r.limit, Some(2));
}

#[test]
fn prints_a_window() {
    let content = "l1\nl2\nl3\nl4\n";
    let req = print_request("f:2-3", None, None);
    let r = print_report(&req, content, false);
    assert_eq!(r.file, "f");
    assert_eq!(r.lines, 4);
    assert_eq!(r.content, "l2\nl3");
    assert!(!r.truncated);
    assert_eq!(r.text, "--- f (f:2-3 / 4 lines) ---\nl2\nl3");
}

#[test]
fn prints_whole_file_and_clamps_limit() {
    let req = print_request("f", None, Some(10));
    let r = print_report(&req, "a\nb", false);
    assert_eq!(r.text, "--- f (f:1-2 / 2 lines) ---\na\nb");
    let req = print_request("f:0", None, None);
    let r = print_report(&req, "a", false);
    assert_eq!(r.text, "--- f (f:1-1 / 1 lines) ---\na");
}

#[test]
fn empty_window_prints_nothing() {
    let req = print_request("f:3", None, None);
    let r = print_report(&req, "a\nb", false);
    assert_eq!(r.text, "");
    assert_eq!(r.content, "");
    assert_eq!(r.lines, 2);
}

#[test]
fn long_window_is_truncated() {
    let content: String = (1..=250).map(|i| format!("{i}\n")).collect();
    let req = print_request("f", None, None);
    let r = print_report(&req, &content, false);
    assert!(r.truncated);
    assert!(r.text.starts_with("--- f (f:1-250 / 250 lines) ---\n1\n2\n"));
    assert!(r.text.ends_with("200\n... (200/250) lines shown, use --no-trunc for full output\n(... truncated, use --no-trunc for full output)"));
    let r = print_report(&req, &content, true);
    assert!(!r.truncated);
    assert!(r.text.ends_with("249\n250"));
}

#[test]
fn law_range_names_lines_a_to_b() {
    let content = "1\n2\n3\n4\n5\n6";
    for a in 1..=6usize {
        for b in a..=6usize {
            let req = print_request(&format!("file.txt:{a}-{b}"), None, None);
            assert_eq!(req.file, "file.txt");
            let r = print_report(&req, content, true);
            let expected: Vec<String> = (a..=b).map(|i| i.to_string()).collect();
            assert_eq!(r.content, expected.join("\n"));
        }
    }
}

#[test]
fn reads_the_dotted_range_form() {
    assert_eq!(parse_range("f.txt:10..20"), ("f.txt".to_string(), Some(10), Some(11)));
    assert_eq!(parse_range("f.txt:20..10"), ("f.txt".to_string(), Some(20), Some(0)));
    assert_eq!(parse_range("f.txt:..3"), ("f.txt".to_string(), Some(1), Some(3)));
}

#[test]
fn law_print_merged_options_win() {
    let content = "a\nb\nc\nd\n";
    let with_range = print_report(&print_request("f.txt:2-3", Some(1), None), content, false);
    assert_eq!(with_range.text, "--- f.txt (f.txt:1-2 / 4 lines) ---\na\nb");
    let bare = print_report(&print_request("f.txt", Some(1), Some(2)), content, false);
    assert_eq!(with_range.text, bare.text);
    assert_eq!(with_range.content, bare.content);
}
