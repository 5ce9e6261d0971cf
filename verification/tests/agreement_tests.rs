//! The library's text functions agree with the std functions they stand for
//! on many generated inputs.

use qcmd::chars::{from_chars, to_chars};
use qcmd::engines::compile_regex;
use qcmd::print::parse_range;
use qcmd::replace::{plan_replace, replace_all_chars};
use qcmd::search::search_content;
use qcmd::text::{count_lines, parse_usize, split_lines, trim, trim_end};
use qcmd::trunc::apply_trunc;

struct Gen(u64);

impl Gen {
    fn next(&mut self) -> u64 {
        self.0 = self.0.wrapping_mul(6364136223846793005).wrapping_add(1442695040888963407);
        self.0 >> 33
    }

    fn text(&mut self, alphabet: &[char], max_len: u64) -> String {
        let n = self.next() % (max_len + 1);
        (0..n).map(|_| alphabet[(self.next() % alphabet.len() as u64) as usize]).collect()
    }
}

const ALPHABET: &[char] = &['a', 'b', '\n', '\r', ' ', ':', '-', '+', '1', '2', '0', 'é', '\t'];

#[test]
fn white_space_is_char_is_whitespace() {
    for c in (0u32..=0x10FFFF).filter_map(char::from_u32) {
        let s = format!("x{c}");
        assert_eq!(trim_end(&s), s.trim_end(), "char {:?}", c);
    }
}

#[test]
fn lines_agree_with_std() {
    let mut g = Gen(1);
    for _ in 0..2000 {
        let t = g.text(ALPHABET, 12);
        let expected: Vec<String> = t.lines().map(|l| l.to_string()).collect();
        assert_eq!(split_lines(&t), expected, "{t:?}");
        assert_eq!(count_lines(&t), t.lines().count());
        assert_eq!(trim(&t), t.trim());
    }
}

#[test]
fn numbers_agree_with_std() {
    let mut g = Gen(2);
    for _ in 0..2000 {
        let t = g.text(&['0', '1', '9', '+', '-', 'a'], 6);
        assert_eq!(parse_usize(&t), t.parse::<usize>().ok(), "{t:?}");
    }
}

#[test]
fn plain_replacement_agrees_with_std() {
    let mut g = Gen(3);
    for _ in 0..2000 {
        let s = g.text(&['a', 'b', 'é'], 10);
        let p = g.text(&['a', 'b', 'é'], 3);
        let r = g.text(&['x', 'é'], 2);
        let out = from_chars(&replace_all_chars(&to_chars(&s), &to_chars(&p), &to_chars(&r)));
        assert_eq!(out, s.replace(&p, &r), "{s:?} {p:?} {r:?}");
        let all = plan_replace("f", &s, &p, &r, true, false);
        let count = s.matches(p.as_str()).count();
        if count == 0 {
            assert_eq!(all.err().unwrap(), format!("'{p}' not found in f"));
        } else {
            let plan = all.unwrap();
            assert_eq!(plan.count, count);
            assert_eq!(plan.new_content, s.replace(&p, &r));
        }
        match s.find(p.as_str()) {
            Some(pos) => {
                let mut expected = s.clone();
                expected.replace_range(pos..pos + p.len(), &r);
                let plan = plan_replace("f", &s, &p, &r, false, false).unwrap();
                assert_eq!(plan.new_content, expected);
                assert_eq!(plan.count, 1);
            }
            None => assert!(plan_replace("f", &s, &p, &r, false, false).is_err()),
        }
    }
}

fn std_truncate(text: &str, max_lines: usize, no_trunc: bool) -> (String, bool) {
    if no_trunc || max_lines == 0 {
        return (text.to_string(), false);
    }
    let lines: Vec<&str> = text.lines().collect();
    if lines.len() <= max_lines {
        return (text.to_string(), false);
    }
    let kept = lines[..max_lines].join("\n");
    (format!("{kept}\n... ({}/{}) lines shown, use --no-trunc for full output", max_lines, lines.len()), true)
}

#[test]
fn truncation_agrees_with_a_std_model() {
    let mut g = Gen(4);
    for _ in 0..2000 {
        let t = g.text(ALPHABET, 14);
        let max = (g.next() % 4) as usize;
        let no = g.next() % 5 == 0;
        assert_eq!(apply_trunc(&t, max, no), std_truncate(&t, max, no), "{t:?} {max}");
    }
}

fn std_range(arg: &str) -> (String, Option<usize>, Option<usize>) {
    if let Some(idx) = arg.find(':') {
        let path = &arg[..idx];
        let range = &arg[idx + 1..];
        if let Some(plus) = range.find(":+") {
            let start: usize = range[..plus].parse().unwrap_or(1);
            let count: usize = range[plus + 2..].parse().unwrap_or(0);
            return (path.to_string(), Some(start), Some(count));
        }
        if let Some(dash) = range.find('-') {
            let start: usize = range[..dash].parse().unwrap_or(1);
            let end: usize = range[dash + 1..].parse().unwrap_or(0);
            let limit = if end >= start { end - start + 1 } else { 0 };
            return (path.to_string(), Some(start), Some(limit));
        }
        if let Some(dots) = range.find("..") {
            let start: usize = range[..dots].parse().unwrap_or(1);
            let end: usize = range[dots + 2..].parse().unwrap_or(0);
            let limit = if end >= start { end - start + 1 } else { 0 };
            return (path.to_string(), Some(start), Some(limit));
        }
        return (path.to_string(), Some(range.parse().unwrap_or(1)), None);
    }
    (arg.to_string(), None, None)
}

#[test]
fn ranges_agree_with_a_std_model() {
    let mut g = Gen(5);
    for _ in 0..3000 {
        let t = g.text(&['f', ':', '-', '+', '.', '1', '2', '0', 'x'], 8);
        assert_eq!(parse_range(&t), std_range(&t), "{t:?}");
    }
}

fn std_search(pattern: &str, file: &str, content: &str, context: usize) -> Vec<(String, usize, usize, String)> {
    let re = regex::Regex::new(pattern).unwrap();
    let mut out = Vec::new();
    if content.contains('\0') {
        return out;
    }
    let lines: Vec<&str> = content.lines().collect();
    for (i, line) in lines.iter().enumerate() {
        if let Some(m) = re.find(line) {
            out.push((file.to_string(), i + 1, m.start() + 1, line.to_string()));
            if context > 0 {
                let start = if i >= context { i - context } else { 0 };
                let end = (i + context + 1).min(lines.len());
                for c in start..end {
                    if c != i {
                        out.push((file.to_string(), c + 1, 0, lines[c].to_string()));
                    }
                }
            }
        }
    }
    out
}

#[test]
fn search_agrees_with_a_std_model() {
    let mut g = Gen(6);
    let re = compile_regex("ab+").unwrap();
    for _ in 0..1000 {
        let t = g.text(&['a', 'b', '\n', 'é', 'c'], 16);
        let context = (g.next() % 3) as usize;
        let got: Vec<_> = search_content(&re, "f", &t, context)
            .unwrap()
            .into_iter()
            .map(|m| (m.file, m.line, m.column, m.text))
            .collect();
        assert_eq!(got, std_search("ab+", "f", &t, context), "{t:?}");
    }
}
