use vstd::prelude::*;
use crate::chars::{from_chars, to_chars};
use crate::text::{decimal, decimal_of, find_chars, find_of, join, join_strings, lines_of, parse_usize_chars, parse_usize_of, split_lines};
use crate::trunc::{apply_trunc, cuts, truncated_of, DEFAULT_MAX_LINES};

verus! {

/// The number in `s`, or `default` where `s` is no number.
pub open spec fn number_or(s: Seq<char>, default: usize) -> usize {
    match parse_usize_of(s) {
        Some(v) => v,
        None => default,
    }
}

/// The pieces of a range argument `path:spec`: the text before the first
/// `':'`, and the text after it.
pub open spec fn range_parts(arg: Seq<char>) -> Option<(Seq<char>, Seq<char>)> {
    match find_of(arg, seq![':']) {
        Some(idx) => Some((arg.take(idx), arg.skip(idx + 1))),
        None => None,
    }
}

/// The bounds of a `start-end` or `start..end` range: the text before and
/// the text after the first `-`, or else the first `..`.
pub open spec fn range_bounds(range: Seq<char>) -> Option<(Seq<char>, Seq<char>)> {
    match find_of(range, seq!['-']) {
        Some(d) => Some((range.take(d), range.skip(d + 1))),
        None => match find_of(range, seq!['.', '.']) {
            Some(d) => Some((range.take(d), range.skip(d + 2))),
            None => None,
        },
    }
}

/// The form of the range after a path: `start:+count`, `start-end` (or
/// `start..end`), or a lone `start`.
pub enum RangeForm {
    Count { start: usize, count: usize },
    Span { start: usize, end: usize },
    From { start: usize },
}

/// How the text after the path's `':'` is read. A part that is no number
/// counts as 1 for a start and 0 for an end or a count.
pub open spec fn range_form_of(range: Seq<char>) -> RangeForm {
    match find_of(range, seq![':', '+']) {
        Some(p) => RangeForm::Count { start: number_or(range.take(p), 1), count: number_or(range.skip(p + 2), 0) },
        None => match range_bounds(range) {
            Some((a, b)) => RangeForm::Span { start: number_or(a, 1), end: number_or(b, 0) },
            None => RangeForm::From { start: number_or(range, 1) },
        },
    }
}

/// Whether a span from 0 to the greatest `usize` would make
/// `end - start + 1` overflow.
pub open spec fn range_overflows(arg: Seq<char>) -> bool {
    match range_parts(arg) {
        Some((_, range)) => range_form_of(range) matches RangeForm::Span { start, end } && start == 0 && end
            == usize::MAX,
        None => false,
    }
}

/// How `path:start-end` (also `path:start..end`), `path:start:+count`,
/// `path:start` and a plain `path` are read: the path, the first line
/// (1-based) and the number of lines; an end before the start gives 0
/// lines.
pub open spec fn parse_range_of(arg: Seq<char>) -> (Seq<char>, Option<usize>, Option<usize>) {
    match range_parts(arg) {
        None => (arg, None, None),
        Some((path, range)) => match range_form_of(range) {
            RangeForm::Count { start, count } => (path, Some(start), Some(count)),
            RangeForm::Span { start, end } => (
                path,
                Some(start),
                Some(if end >= start { (end - start + 1) as usize } else { 0 }),
            ),
            RangeForm::From { start } => (path, Some(start), None),
        },
    }
}

fn number_or_exec(cs: &[char], default: usize) -> (r: usize)
    ensures
        r == number_or(cs@, default),
{
    match parse_usize_chars(cs) {
        Some(v) => v,
        None => default,
    }
}

fn range_form(range: &[char]) -> (r: RangeForm)
    ensures
        r == range_form_of(range@),
{
    let n = range.len();
    assert(range@.len() == n);
    let plus = [':', '+'];
    assert(plus@ == seq![':', '+']);
    if let Some(p) = find_chars(range, &plus) {
        proof {
            crate::text::lemma_find_from(range@, seq![':', '+'], 0);
            assert(crate::text::occurs_at(range@, seq![':', '+'], p as int));
        }
        assert(range@.subrange(0, p as int) == range@.take(p as int));
        assert(range@.subrange(p + 2, range@.len() as int) == range@.skip(p + 2));
        let start = number_or_exec(&range[0..p], 1);
        let count = number_or_exec(&range[p + 2..range.len()], 0);
        return RangeForm::Count { start, count };
    }
    let dash = ['-'];
    assert(dash@ == seq!['-']);
    if let Some(d) = find_chars(range, &dash) {
        proof {
            crate::text::lemma_find_from(range@, seq!['-'], 0);
            assert(crate::text::occurs_at(range@, seq!['-'], d as int));
        }
        assert(range@.subrange(0, d as int) == range@.take(d as int));
        assert(range@.subrange(d + 1, range@.len() as int) == range@.skip(d + 1));
        let start = number_or_exec(&range[0..d], 1);
        let end = number_or_exec(&range[d + 1..range.len()], 0);
        return RangeForm::Span { start, end };
    }
    let dots = ['.', '.'];
    assert(dots@ == seq!['.', '.']);
    if let Some(d) = find_chars(range, &dots) {
        proof {
            crate::text::lemma_find_from(range@, seq!['.', '.'], 0);
            assert(crate::text::occurs_at(range@, seq!['.', '.'], d as int));
        }
        assert(range@.subrange(0, d as int) == range@.take(d as int));
        assert(range@.subrange(d + 2, range@.len() as int) == range@.skip(d + 2));
        let start = number_or_exec(&range[0..d], 1);
        let end = number_or_exec(&range[d + 2..range.len()], 0);
        return RangeForm::Span { start, end };
    }
    RangeForm::From { start: number_or_exec(range, 1) }
}

fn read_arg(file_arg: &str) -> (r: Option<(String, RangeForm)>)
    ensures
        match range_parts(file_arg@) {
            None => r is None,
            Some((path, range)) => r matches Some((p, f)) && p@ == path && f == range_form_of(range),
        },
{
    let cs = to_chars(file_arg);
    let n = cs.len();
    assert(cs@.len() == n);
    let colon = [':'];
    assert(colon@ == seq![':']);
    let idx = match find_chars(cs.as_slice(), &colon) {
        Some(idx) => idx,
        None => return None,
    };
    proof {
        crate::text::lemma_find_from(cs@, seq![':'], 0);
        assert(crate::text::occurs_at(cs@, seq![':'], idx as int));
    }
    let path = from_chars(&cs.as_slice()[0..idx]);
    let range = &cs.as_slice()[idx + 1..cs.len()];
    assert(path@ == cs@.take(idx as int));
    assert(range@ == cs@.skip(idx + 1));
    Some((path, range_form(range)))
}

/// Splits a file argument into path, first line and line count
/// (`file:10-20`, `file:10..20`, `file:10:+5`, `file:10`, or just `file`).
pub fn parse_range(file_arg: &str) -> (r: (String, Option<usize>, Option<usize>))
    requires
        !range_overflows(file_arg@),
    ensures
        (r.0@, r.1, r.2) == parse_range_of(file_arg@),
{
    match read_arg(file_arg) {
        None => (file_arg.to_owned(), None, None),
        Some((path, form)) => match form {
            RangeForm::Count { start, count } => (path, Some(start), Some(count)),
            RangeForm::Span { start, end } => {
                let limit = if end >= start { end - start + 1 } else { 0 };
                (path, Some(start), Some(limit))
            },
            RangeForm::From { start } => (path, Some(start), None),
        },
    }
}

/// What to print: the file, the first line and the number of lines, where
/// the options given on the command line win over those in the argument.
pub struct PrintRequest {
    pub file: String,
    pub offset: Option<usize>,
    pub limit: Option<usize>,
}

/// What is printed for a file argument with the `--offset` and `--limit`
/// options: the path, and each option where it is given, else what the
/// argument's range says.
pub open spec fn request_of(file_arg: Seq<char>, offset: Option<usize>, limit: Option<usize>) -> (Seq<char>, Option<usize>, Option<usize>) {
    let (path, po, pl) = parse_range_of(file_arg);
    (path, if offset is Some { offset } else { po }, if limit is Some { limit } else { pl })
}

/// Reads a print argument together with the `--offset` and `--limit`
/// options; an option given wins over the range in the argument.
pub fn print_request(file_arg: &str, offset: Option<usize>, limit: Option<usize>) -> (r: PrintRequest)
    requires
        !range_overflows(file_arg@),
    ensures
        (r.file@, r.offset, r.limit) == request_of(file_arg@, offset, limit),
{
    let (file, parsed_offset, parsed_limit) = parse_range(file_arg);
    PrintRequest {
        file,
        offset: if offset.is_some() { offset } else { parsed_offset },
        limit: if limit.is_some() { limit } else { parsed_limit },
    }
}

/// The first line index (0-based) of the window.
pub open spec fn window_start(offset: Option<usize>) -> int {
    match offset {
        Some(o) => if o == 0 { 0 } else { o - 1 },
        None => 0,
    }
}

/// The index after the last line of the window in a text of `total` lines.
pub open spec fn window_end(offset: Option<usize>, limit: Option<usize>, total: nat) -> int {
    match limit {
        Some(l) => if window_start(offset) + l < total { window_start(offset) + l } else { total as int },
        None => total as int,
    }
}

/// Whether the window can be taken: its end does not overflow and does not
/// lie before its start (a start past the last line is refused).
pub open spec fn window_ok(offset: Option<usize>, limit: Option<usize>, total: nat) -> bool {
    &&& (limit matches Some(l) ==> window_start(offset) + l <= usize::MAX)
    &&& window_start(offset) <= window_end(offset, limit, total)
}

/// The selected lines of `content`, joined by `'\n'`.
pub open spec fn window_text(offset: Option<usize>, limit: Option<usize>, content: Seq<char>) -> Seq<char> {
    let ls = lines_of(content);
    join(ls.subrange(window_start(offset), window_end(offset, limit, ls.len())), "\n"@)
}

/// The note printed after a truncated window.
pub open spec fn print_trunc_note() -> Seq<char> {
    "\n(... truncated, use --no-trunc for full output)"@
}

/// The plain-text output of `print`: nothing for an empty window, else a
/// header naming the file, the window and the total, then the window
/// (truncated to the default number of lines unless `no_trunc`).
pub open spec fn print_text_of(
    file: Seq<char>,
    offset: Option<usize>,
    limit: Option<usize>,
    content: Seq<char>,
    no_trunc: bool,
) -> Seq<char> {
    let total = lines_of(content).len();
    let out = window_text(offset, limit, content);
    if out.len() == 0 {
        Seq::<char>::empty()
    } else {
        let shown = truncated_of(out, DEFAULT_MAX_LINES as nat, no_trunc);
        let cut = cuts(lines_of(out).len(), DEFAULT_MAX_LINES as nat, no_trunc);
        "--- "@ + file + " ("@ + file + ":"@ + decimal_of((window_start(offset) + 1) as nat) + "-"@
            + decimal_of(window_end(offset, limit, total) as nat) + " / "@ + decimal_of(total) + " lines) ---\n"@
            + shown + (if cut { print_trunc_note() } else { Seq::<char>::empty() })
    }
}

/// What `print` shows of a file: the file name, its number of lines, the
/// selected window after truncation and whether it was cut (the JSON
/// report), and the plain-text output.
pub struct PrintReport {
    pub file: String,
    pub lines: usize,
    pub content: String,
    pub truncated: bool,
    pub text: String,
}

/// Selects the requested lines of `content` and renders them.
pub fn print_report(req: &PrintRequest, content: &str, no_trunc: bool) -> (r: PrintReport)
    requires
        window_ok(req.offset, req.limit, lines_of(content@).len()),
    ensures
        r.file@ == req.file@,
        r.lines == lines_of(content@).len(),
        r.content@ == truncated_of(window_text(req.offset, req.limit, content@), DEFAULT_MAX_LINES as nat, no_trunc),
        r.truncated == cuts(
            lines_of(window_text(req.offset, req.limit, content@)).len(),
            DEFAULT_MAX_LINES as nat,
            no_trunc,
        ),
        r.text@ == print_text_of(req.file@, req.offset, req.limit, content@, no_trunc),
{
    let mut lines = split_lines(content);
    let total = lines.len();
    let ghost ls = lines@.map_values(|l: String| l@);
    proof {
        assert(ls.len() == lines@.len());
    }
    let start: usize = match req.offset {
        Some(o) => if o == 0 { 0 } else { o - 1 },
        None => 0,
    };
    let end: usize = match req.limit {
        Some(l) => if start + l < total { start + l } else { total },
        None => total,
    };
    let tail = lines.split_off(start);
    let mut window = tail;
    window.truncate(end - start);
    proof {
        assert(window@.map_values(|l: String| l@) == ls.subrange(start as int, end as int));
    }
    let out = join_strings(&window, "\n");
    let (shown, cut) = apply_trunc(out.as_str(), DEFAULT_MAX_LINES, no_trunc);
    let text = if out.as_str().is_empty() {
        String::new()
    } else {
        let mut t = String::new();
        t.append("--- ");
        t.append(req.file.as_str());
        t.append(" (");
        t.append(req.file.as_str());
        t.append(":");
        t.append(decimal((start + 1) as u64).as_str());
        t.append("-");
        t.append(decimal(end as u64).as_str());
        t.append(" / ");
        t.append(decimal(total as u64).as_str());
        t.append(" lines) ---\n");
        t.append(shown.as_str());
        if cut {
            t.append("\n(... truncated, use --no-trunc for full output)");
        }
        t
    };
    PrintReport { file: req.file.clone(), lines: total, content: shown, truncated: cut, text }
}

/// Whether `parse_range` would overflow on `file_arg` (a span with start
/// 0 and the greatest `usize` as end), where computing the number of lines
/// does not fit in a `usize`.
pub fn range_overflows_check(file_arg: &str) -> (b: bool)
    ensures
        b == range_overflows(file_arg@),
{
    match read_arg(file_arg) {
        Some((_, RangeForm::Span { start, end })) => start == 0 && end == usize::MAX,
        _ => false,
    }
}

/// Whether the window of `offset` and `limit` can be taken from a text of
/// `total` lines (`print_report` needs it).
pub fn window_fits(offset: Option<usize>, limit: Option<usize>, total: usize) -> (b: bool)
    ensures
        b == window_ok(offset, limit, total as nat),
{
    let start: usize = match offset {
        Some(o) => if o == 0 { 0 } else { o - 1 },
        None => 0,
    };
    match limit {
        Some(l) => {
            if l > usize::MAX - start {
                false
            } else {
                let end = if start + l < total { start + l } else { total };
                start <= end
            }
        },
        None => start <= total,
    }
}

} // verus!
