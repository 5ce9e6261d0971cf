use qcmd::text::{
    count_lines, decimal, find_chars, join_strings, parse_usize, split_lines, trim, trim_end,
};
use qcmd::trunc::{apply_trunc, DEFAULT_MAX_LINES};
use qcmd::chars::{from_chars, to_chars};

fn strings(v: &[&str]) -> Vec<String> {
    v.iter().map(|s| s.to_string()).collect()
}

#[test]
fn lines_follow_str_lines() {
    let text = "a\r\nb\n\nc\r";
    let expected: Vec<String> = text.lines().map(|l| l.to_string()).collect();
    assert_eq!(split_lines(text), expected);
    assert_eq!(split_lines(text), strings(&["a", "b", "", "c\r"]));
    assert_eq!(split_lines(""), Vec::<String>::new());
    assert_eq!(split_lines("\n"), strings(&[""]));
    assert_eq!(split_lines("x\n"), strings(&["x"]));
}

#[test]
fn counts_lines() {
    assert_eq!(count_lines(""), 0);
    assert_eq!(count_lines("one"), 1);
    assert_eq!(count_lines("one\ntwo\n"), 2);
    assert_eq!(count_lines("one\n\n"), 2);
}

#[test]
fn joins_with_separator() {
    assert_eq!(join_strings(&strings(&["a", "b", "c"]), ", "), "a, b, c");
    assert_eq!(join_strings(&strings(&["solo"]), "\n"), "solo");
    assert_eq!(join_strings(&Vec::new(), "\n"), "");
}

#[test]
fn prints_decimals() {
    assert_eq!(decimal(0), "0");
    assert_eq!(decimal(7), "7");
    assert_eq!(decimal(1234), "1234");
    assert_eq!(decimal(u64::MAX), u64::MAX.to_string());
}

#[test]
fn parses_usize_like_std() {
    for s in ["0", "42", "+12", "007", "", "+", "-1", "1a", " 1", "18446744073709551615", "18446744073709551616"] {
        assert_eq!(parse_usize(s), s.parse::<usize>().ok(), "input {s:?}");
    }
    assert_eq!(parse_usize("+12"), Some(12));
    assert_eq!(parse_usize("+"), None);
}

#[test]
fn decimal_reads_back() {
    for n in [0u64, 1, 9, 10, 99, 100, 65535, 1 << 40] {
        assert_eq!(parse_usize(&decimal(n)), Some(n as usize));
    }
}

#[test]
fn trims_unicode_white_space() {
    assert_eq!(trim_end("  a b \t\n\u{3000}"), "  a b");
    assert_eq!(trim("\u{a0} x \u{2028}"), "x");
    assert_eq!(trim("   "), "");
    let s = "\t a \r\n";
    assert_eq!(trim(s), s.trim());
    assert_eq!(trim_end(s), s.trim_end());
}

#[test]
fn finds_substrings() {
    let s = to_chars("ab:+cd:+");
    assert_eq!(find_chars(&s, &to_chars(":+")), Some(2));
    assert_eq!(find_chars(&s, &to_chars("x")), None);
    assert_eq!(find_chars(&s, &to_chars("")), Some(0));
    assert_eq!(from_chars(&s), "ab:+cd:+");
}

#[test]
fn truncation_keeps_first_lines() {
    let (out, cut) = apply_trunc("a\nb\nc", 2, false);
    assert!(cut);
    assert_eq!(out, "a\nb\n... (2/3) lines shown, use --no-trunc for full output");
    assert_eq!(apply_trunc("a\nb\nc", 2, true), ("a\nb\nc".to_string(), false));
    assert_eq!(apply_trunc("a\nb\nc", 0, false), ("a\nb\nc".to_string(), false));
    assert_eq!(apply_trunc("a\nb\n", 2, false), ("a\nb\n".to_string(), false));
    let long: String = (0..250).map(|i| format!("{i}\n")).collect();
    let (out, cut) = apply_trunc(&long, DEFAULT_MAX_LINES, false);
    assert!(cut);
    assert!(out.ends_with("199\n... (200/250) lines shown, use --no-trunc for full output"));
}
