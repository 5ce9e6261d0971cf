use vstd::prelude::*;
use crate::text::{decimal, decimal_of, join, join_strings, lines_of, split_lines};

verus! {

/// How many lines of output are shown unless truncation is switched off.
pub const DEFAULT_MAX_LINES: usize = 200;

/// The note appended to a truncated text: `shown` of `total` lines.
pub open spec fn trunc_note(shown: nat, total: nat) -> Seq<char> {
    "\n... ("@ + decimal_of(shown) + "/"@ + decimal_of(total)
        + ") lines shown, use --no-trunc for full output"@
}

/// Whether a text of `total` lines is cut down to `max_lines` lines.
pub open spec fn cuts(total: nat, max_lines: nat, no_trunc: bool) -> bool {
    !no_trunc && max_lines > 0 && total > max_lines
}

/// The text shown for `text` at most `max_lines` lines long: the text itself,
/// or its first `max_lines` lines joined by `'\n'` followed by the note.
pub open spec fn truncated_of(text: Seq<char>, max_lines: nat, no_trunc: bool) -> Seq<char> {
    let ls = lines_of(text);
    if cuts(ls.len(), max_lines, no_trunc) {
        join(ls.take(max_lines as int), "\n"@) + trunc_note(max_lines, ls.len())
    } else {
        text
    }
}

/// Cuts `text` down to its first `max_lines` lines unless `no_trunc` is set
/// or `max_lines` is 0; the flag says whether it was cut.
pub fn apply_trunc(text: &str, max_lines: usize, no_trunc: bool) -> (r: (String, bool))
    ensures
        r.0@ == truncated_of(text@, max_lines as nat, no_trunc),
        r.1 == cuts(lines_of(text@).len(), max_lines as nat, no_trunc),
{
    if no_trunc || max_lines == 0 {
        return (text.to_owned(), false);
    }
    let mut lines = split_lines(text);
    let total = lines.len();
    proof {
        assert(lines@.map_values(|l: String| l@).len() == lines@.len());
    }
    if total <= max_lines {
        return (text.to_owned(), false);
    }
    let ghost all = lines@.map_values(|l: String| l@);
    lines.truncate(max_lines);
    proof {
        assert(lines@.map_values(|l: String| l@) == all.take(max_lines as int));
    }
    let mut out = join_strings(&lines, "\n");
    out.append("\n... (");
    out.append(decimal(max_lines as u64).as_str());
    out.append("/");
    out.append(decimal(total as u64).as_str());
    out.append(") lines shown, use --no-trunc for full output");
    (out, true)
}

} // verus!
