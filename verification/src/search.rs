use vstd::prelude::*;
use crate::chars::{bytes_lt, str_lt, to_chars};
use crate::engines::{regex_find_start, regex_first_match, RegexPattern};
use crate::sorting::{insertion_sort, order_of, sort_by, Ordered};
use crate::text::{decimal, decimal_of, lines_of, split_lines, trim_end, trim_end_of};
use crate::trunc::{apply_trunc, cuts, truncated_of, DEFAULT_MAX_LINES};
use vstd::utf8::encode_utf8;

verus! {

/// One line of search output: a matching line (with the 1-based column of
/// the match, in bytes) or a context line around one (column 0).
pub struct SearchMatch {
    pub file: String,
    pub line: usize,
    pub column: usize,
    pub text: String,
}

/// A search line as plain values: file, line, column, text.
pub type MatchView = (Seq<char>, usize, usize, Seq<char>);

impl View for SearchMatch {
    type V = MatchView;

    open spec fn view(&self) -> MatchView {
        (self.file@, self.line, self.column, self.text@)
    }
}

/// The first line index of the context around line `idx`.
pub open spec fn context_start(idx: int, context: nat) -> int {
    if idx >= context { idx - context } else { 0 }
}

/// The index after the last line of the context around line `idx`.
pub open spec fn context_end(idx: int, context: nat, n: nat) -> int {
    if idx + context + 1 < n { idx + context + 1 } else { n as int }
}

/// The context lines `c..end` around line `idx`, without line `idx` itself.
pub open spec fn context_hits(file: Seq<char>, ls: Seq<Seq<char>>, idx: int, c: int, end: int) -> Seq<MatchView>
    decreases end - c,
{
    if c >= end {
        Seq::<MatchView>::empty()
    } else if c == idx {
        context_hits(file, ls, idx, c + 1, end)
    } else {
        seq![(file, (c + 1) as usize, 0usize, ls[c])] + context_hits(file, ls, idx, c + 1, end)
    }
}

/// The output for line `idx`: nothing if the pattern does not match it,
/// else the line with the column of the first match, then (with `context`)
/// the lines around it in order.
pub open spec fn line_hits(pattern: Seq<char>, file: Seq<char>, ls: Seq<Seq<char>>, idx: int, context: nat) -> Seq<MatchView> {
    match regex_first_match(pattern, ls[idx]) {
        None => Seq::<MatchView>::empty(),
        Some(s) => seq![(file, (idx + 1) as usize, (s + 1) as usize, ls[idx])] + (if context > 0 {
            context_hits(file, ls, idx, context_start(idx, context), context_end(idx, context, ls.len()))
        } else {
            Seq::<MatchView>::empty()
        }),
    }
}

/// The output for the first `n` lines.
pub open spec fn hits_upto(pattern: Seq<char>, file: Seq<char>, ls: Seq<Seq<char>>, n: int, context: nat) -> Seq<MatchView>
    decreases n,
{
    if n <= 0 {
        Seq::<MatchView>::empty()
    } else {
        hits_upto(pattern, file, ls, n - 1, context) + line_hits(pattern, file, ls, n - 1, context)
    }
}

/// Whether a file is skipped as binary: its text holds a NUL character.
pub open spec fn is_binary(content: Seq<char>) -> bool {
    content.contains('\0')
}

/// The search output for one file: nothing for a binary file, else the
/// output of each of its lines in order.
pub open spec fn content_hits(pattern: Seq<char>, file: Seq<char>, content: Seq<char>, context: nat) -> Seq<MatchView> {
    if is_binary(content) {
        Seq::<MatchView>::empty()
    } else {
        hits_upto(pattern, file, lines_of(content), lines_of(content).len() as int, context)
    }
}

/// Whether the column or the context end of line `idx` would not fit in a
/// `usize` (where the computation overflows).
pub open spec fn line_overflows(pattern: Seq<char>, ls: Seq<Seq<char>>, idx: int, context: nat) -> bool {
    match regex_first_match(pattern, ls[idx]) {
        Some(s) => s == usize::MAX || (context > 0 && idx + context + 1 > usize::MAX),
        None => false,
    }
}

/// Whether searching `content` overflows at some line.
pub open spec fn search_overflows(pattern: Seq<char>, content: Seq<char>, context: nat) -> bool {
    !is_binary(content) && exists|idx: int|
        0 <= idx < lines_of(content).len() && #[trigger] line_overflows(pattern, lines_of(content), idx, context)
}

fn has_nul(cs: &[char]) -> (b: bool)
    ensures
        b == cs@.contains('\0'),
{
    let mut i: usize = 0;
    while i < cs.len()
        invariant
            i <= cs@.len(),
            forall|k: int| 0 <= k < i ==> cs@[k] != '\0',
        decreases cs@.len() - i,
    {
        if cs[i] == '\0' {
            assert(cs@[i as int] == '\0');
            return true;
        }
        i = i + 1;
    }
    false
}

proof fn lemma_context_step(file: Seq<char>, ls: Seq<Seq<char>>, idx: int, start: int, c: int, end: int)
    requires
        start <= c < end,
    ensures
        context_hits(file, ls, idx, start, c + 1) == context_hits(file, ls, idx, start, c) + (if c == idx {
            Seq::<MatchView>::empty()
        } else {
            seq![(file, (c + 1) as usize, 0usize, ls[c])]
        }),
    decreases c - start,
{
    if start < c {
        lemma_context_step(file, ls, idx, start + 1, c, end);
        if start == idx {
        } else {
            assert(seq![(file, (start + 1) as usize, 0usize, ls[start])] + context_hits(file, ls, idx, start + 1, c + 1)
                == seq![(file, (start + 1) as usize, 0usize, ls[start])] + context_hits(file, ls, idx, start + 1, c) + (if c == idx {
                    Seq::<MatchView>::empty()
                } else {
                    seq![(file, (c + 1) as usize, 0usize, ls[c])]
                }));
        }
    } else {
        assert(context_hits(file, ls, idx, c, c) == Seq::<MatchView>::empty());
        assert(context_hits(file, ls, idx, c + 1, c + 1) == Seq::<MatchView>::empty());
    }
}

/// The search output for one file: each line of `content` that `pattern`
/// matches, with the column of its first match, followed by `context`
/// lines around it; nothing for a binary file. `None` where a column or a
/// context end would overflow.
pub fn search_content(pattern: &RegexPattern, file: &str, content: &str, context: usize) -> (r: Option<Vec<SearchMatch>>)
    ensures
        r is None <==> search_overflows(pattern.source(), content@, context as nat),
        r matches Some(v) ==> v@.map_values(|m: SearchMatch| m@) == content_hits(pattern.source(), file@, content@, context as nat),
{
    let cs = to_chars(content);
    let mut out: Vec<SearchMatch> = Vec::new();
    if has_nul(cs.as_slice()) {
        proof {
            assert(out@.map_values(|m: SearchMatch| m@) == Seq::<MatchView>::empty());
        }
        return Some(out);
    }
    let lines = split_lines(content);
    let ghost ls = lines_of(content@);
    let n = lines.len();
    proof {
        assert(lines@.map_values(|l: String| l@).len() == lines@.len());
    }
    let mut idx: usize = 0;
    while idx < n
        invariant
            n == lines@.len(),
            n == ls.len(),
            ls == lines_of(content@),
            !is_binary(content@),
            lines@.map_values(|l: String| l@) == ls,
            idx <= n,
            forall|k: int| 0 <= k < idx ==> !#[trigger] line_overflows(pattern.source(), ls, k, context as nat),
            out@.map_values(|m: SearchMatch| m@) == hits_upto(pattern.source(), file@, ls, idx as int, context as nat),
        decreases n - idx,
    {
        let line = &lines[idx];
        assert(line@ == ls[idx as int]);
        let ghost before = out@.map_values(|m: SearchMatch| m@);
        match regex_find_start(pattern, line.as_str()) {
            None => {
                assert(line_hits(pattern.source(), file@, ls, idx as int, context as nat) == Seq::<MatchView>::empty());
            },
            Some(s) => {
                if s == usize::MAX {
                    assert(line_overflows(pattern.source(), ls, idx as int, context as nat));
                    return None;
                }
                if context > 0 && context > usize::MAX - 1 - idx {
                    assert(line_overflows(pattern.source(), ls, idx as int, context as nat));
                    return None;
                }
                out.push(SearchMatch { file: file.to_owned(), line: idx + 1, column: s + 1, text: line.clone() });
                let ghost first = out@.map_values(|m: SearchMatch| m@);
                proof {
                    assert(first == before.push((file@, (idx + 1) as usize, (s + 1) as usize, ls[idx as int])));
                }
                if context > 0 {
                    let start: usize = if idx >= context { idx - context } else { 0 };
                    let end: usize = if idx + context + 1 < n { idx + context + 1 } else { n };
                    let mut c: usize = start;
                    proof {
                        assert(context_hits(file@, ls, idx as int, start as int, start as int) == Seq::<MatchView>::empty());
                    }
                    while c < end
                        invariant
                            start <= c <= end,
                            end <= n,
                            n == lines@.len(),
                            lines@.map_values(|l: String| l@) == ls,
                            out@.map_values(|m: SearchMatch| m@) == first + context_hits(file@, ls, idx as int, start as int, c as int),
                        decreases end - c,
                    {
                        proof {
                            lemma_context_step(file@, ls, idx as int, start as int, c as int, end as int);
                        }
                        if c != idx {
                            let ghost pre = out@.map_values(|m: SearchMatch| m@);
                            out.push(SearchMatch { file: file.to_owned(), line: c + 1, column: 0, text: lines[c].clone() });
                            proof {
                                assert(lines@[c as int]@ == ls[c as int]);
                                assert(out@.map_values(|m: SearchMatch| m@) == pre.push((file@, (c + 1) as usize, 0usize, ls[c as int])));
                            }
                        }
                        c = c + 1;
                    }
                }
            },
        }
        proof {
            assert(hits_upto(pattern.source(), file@, ls, idx + 1, context as nat)
                == hits_upto(pattern.source(), file@, ls, idx as int, context as nat) + line_hits(pattern.source(), file@, ls, idx as int, context as nat));
        }
        idx = idx + 1;
    }
    Some(out)
}

/// The order of search output: by file (bytewise) and then by line.
pub open spec fn match_lt(a: MatchView, b: MatchView) -> bool {
    bytes_lt(encode_utf8(a.0), encode_utf8(b.0)) || (a.0 == b.0 && a.1 < b.1)
}

/// `match_lt` as a value.
pub open spec fn match_order() -> spec_fn(MatchView, MatchView) -> bool {
    order_of::<SearchMatch>()
}

impl Ordered for SearchMatch {
    open spec fn lt_view(a: MatchView, b: MatchView) -> bool {
        match_lt(a, b)
    }

    fn less(&self, other: &Self) -> (r: bool) {
        str_lt(self.file.as_str(), other.file.as_str()) || (self.file == other.file && self.line < other.line)
    }

    fn duplicate(&self) -> (r: Self) {
        SearchMatch { file: self.file.clone(), line: self.line, column: self.column, text: self.text.clone() }
    }
}

/// Sorts search output by file and then line, keeping the order of lines
/// that compare equal (as the stable `sort_by` does).
pub fn sort_matches(v: &Vec<SearchMatch>) -> (r: Vec<SearchMatch>)
    ensures
        r@.map_values(|m: SearchMatch| m@) == sort_by(v@.map_values(|m: SearchMatch| m@), match_order()),
{
    insertion_sort(v)
}

/// The text line printed for one search line: `file:line: text` for
/// context, `file:line:column: text` for a match.
pub open spec fn match_line(m: MatchView) -> Seq<char> {
    if m.2 == 0 {
        m.0 + ":"@ + decimal_of(m.1 as nat) + ": "@ + m.3 + "\n"@
    } else {
        m.0 + ":"@ + decimal_of(m.1 as nat) + ":"@ + decimal_of(m.2 as nat) + ": "@ + m.3 + "\n"@
    }
}

/// The printed lines of all search output, in order.
pub open spec fn render_of(ms: Seq<MatchView>) -> Seq<char>
    decreases ms.len(),
{
    if ms.len() == 0 {
        Seq::<char>::empty()
    } else {
        render_of(ms.drop_last()) + match_line(ms.last())
    }
}

/// Prints search output, one line per entry.
pub fn render_matches(ms: &Vec<SearchMatch>) -> (r: String)
    ensures
        r@ == render_of(ms@.map_values(|m: SearchMatch| m@)),
{
    let ghost vs = ms@.map_values(|m: SearchMatch| m@);
    let mut out = String::new();
    let mut i: usize = 0;
    while i < ms.len()
        invariant
            i <= ms@.len(),
            vs == ms@.map_values(|m: SearchMatch| m@),
            out@ == render_of(vs.take(i as int)),
        decreases ms@.len() - i,
    {
        let m = &ms[i];
        proof {
            assert(vs.take(i + 1).drop_last() == vs.take(i as int));
            assert(vs.take(i + 1).last() == m@);
        }
        out.append(m.file.as_str());
        out.append(":");
        out.append(decimal(m.line as u64).as_str());
        if m.column != 0 {
            out.append(":");
            out.append(decimal(m.column as u64).as_str());
        }
        out.append(": ");
        out.append(m.text.as_str());
        out.append("\n");
        i = i + 1;
    }
    proof {
        assert(vs.take(ms@.len() as int) == vs);
    }
    out
}

/// The result of a search: the sorted output, its number of lines, whether
/// the printed output is cut (for the JSON report), and the plain text.
pub struct SearchReport {
    pub matches: Vec<SearchMatch>,
    pub count: usize,
    pub truncated: bool,
    pub text: String,
}

/// Sorts the collected search output and renders it; the plain text is
/// the printed lines without trailing white space, cut to the default
/// number of lines unless `no_trunc`.
pub fn finish_search(found: &Vec<SearchMatch>, no_trunc: bool) -> (r: SearchReport)
    ensures
        r.matches@.map_values(|m: SearchMatch| m@) == sort_by(found@.map_values(|m: SearchMatch| m@), match_order()),
        r.count == found@.len(),
        r.truncated == cuts(
            lines_of(render_of(sort_by(found@.map_values(|m: SearchMatch| m@), match_order()))).len(),
            DEFAULT_MAX_LINES as nat,
            no_trunc,
        ),
        ({
            let out = render_of(sort_by(found@.map_values(|m: SearchMatch| m@), match_order()));
            r.text@ == if out.len() == 0 {
                Seq::<char>::empty()
            } else {
                truncated_of(trim_end_of(out), DEFAULT_MAX_LINES as nat, no_trunc)
            }
        }),
{
    let sorted = sort_matches(found);
    let out = render_matches(&sorted);
    let (_, truncated) = apply_trunc(out.as_str(), DEFAULT_MAX_LINES, no_trunc);
    let text = if out.as_str().is_empty() {
        String::new()
    } else {
        let trimmed = trim_end(out.as_str());
        apply_trunc(trimmed.as_str(), DEFAULT_MAX_LINES, no_trunc).0
    };
    SearchReport { matches: sorted, count: found.len(), truncated, text }
}

} // verus!
