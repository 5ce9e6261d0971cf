use vstd::prelude::*;
use crate::chars::{to_chars, from_chars};

verus! {

/// `s` without one trailing carriage return, if it has one.
pub open spec fn strip_cr(s: Seq<char>) -> Seq<char> {
    if s.len() > 0 && s.last() == '\r' {
        s.drop_last()
    } else {
        s
    }
}

/// The pieces of `s` between occurrences of `c` (as `str::split` gives them):
/// always at least one piece, and one more than the number of `c` in `s`.
pub open spec fn split_char(s: Seq<char>, c: char) -> Seq<Seq<char>>
    decreases s.len(),
{
    if s.len() == 0 {
        seq![Seq::<char>::empty()]
    } else {
        let prev = split_char(s.drop_last(), c);
        if s.last() == c {
            prev.push(Seq::<char>::empty())
        } else {
            prev.update(prev.len() - 1, prev.last().push(s.last()))
        }
    }
}

/// The lines of `s` as `str::lines` yields them: split at `'\n'`, a line
/// ended by `'\n'` loses one trailing `'\r'`, and an empty piece after the
/// last `'\n'` is no line.
pub open spec fn lines_of(s: Seq<char>) -> Seq<Seq<char>> {
    let pieces = split_char(s, '\n');
    let ended = pieces.drop_last().map_values(|p: Seq<char>| strip_cr(p));
    if pieces.last().len() == 0 {
        ended
    } else {
        ended.push(pieces.last())
    }
}

/// The pieces joined with `sep` between consecutive ones (`[T]::join`).
pub open spec fn join(ps: Seq<Seq<char>>, sep: Seq<char>) -> Seq<char>
    decreases ps.len(),
{
    if ps.len() == 0 {
        Seq::<char>::empty()
    } else if ps.len() == 1 {
        ps[0]
    } else {
        join(ps.drop_last(), sep) + sep + ps.last()
    }
}

/// Whether `c` is Unicode white space (`char::is_whitespace`).
pub open spec fn is_space(c: char) -> bool {
    ||| '\t' <= c <= '\r'
    ||| c == ' '
    ||| c == '\u{85}'
    ||| c == '\u{a0}'
    ||| c == '\u{1680}'
    ||| '\u{2000}' <= c <= '\u{200a}'
    ||| c == '\u{2028}'
    ||| c == '\u{2029}'
    ||| c == '\u{202f}'
    ||| c == '\u{205f}'
    ||| c == '\u{3000}'
}

/// `s` without trailing white space (`str::trim_end`).
pub open spec fn trim_end_of(s: Seq<char>) -> Seq<char>
    decreases s.len(),
{
    if s.len() > 0 && is_space(s.last()) {
        trim_end_of(s.drop_last())
    } else {
        s
    }
}

/// `s` without leading white space (`str::trim_start`).
pub open spec fn trim_start_of(s: Seq<char>) -> Seq<char>
    decreases s.len(),
{
    if s.len() > 0 && is_space(s[0]) {
        trim_start_of(s.drop_first())
    } else {
        s
    }
}

/// `s` without leading and trailing white space (`str::trim`).
pub open spec fn trim_of(s: Seq<char>) -> Seq<char> {
    trim_start_of(trim_end_of(s))
}

/// The decimal digit character for `d < 10`.
pub open spec fn digit_char(d: nat) -> char {
    ((d + 48) as u8) as char
}

/// The decimal representation of `n`, without sign or leading zeros.
pub open spec fn decimal_of(n: nat) -> Seq<char>
    decreases n,
{
    if n < 10 {
        seq![digit_char(n)]
    } else {
        decimal_of(n / 10).push(digit_char(n % 10))
    }
}

/// Whether `c` is one of `'0'..='9'`.
pub open spec fn is_digit(c: char) -> bool {
    '0' <= c <= '9'
}

/// The number that a sequence of ASCII digits denotes.
pub open spec fn digits_value(ds: Seq<char>) -> nat
    decreases ds.len(),
{
    if ds.len() == 0 {
        0
    } else {
        digits_value(ds.drop_last()) * 10 + ((ds.last() as nat) - 48) as nat
    }
}

/// `s` without one leading `'+'`.
pub open spec fn unsigned_digits(s: Seq<char>) -> Seq<char> {
    if s.len() > 0 && s[0] == '+' {
        s.drop_first()
    } else {
        s
    }
}

/// Whether every character of `ds` is an ASCII digit.
pub open spec fn all_digits(ds: Seq<char>) -> bool {
    forall|i: int| 0 <= i < ds.len() ==> is_digit(#[trigger] ds[i])
}

/// What `s.parse::<usize>()` gives: an optional `'+'`, then one or more ASCII
/// digits whose value fits in `usize`; anything else is an error (`None`).
pub open spec fn parse_usize_of(s: Seq<char>) -> Option<usize> {
    let ds = unsigned_digits(s);
    if ds.len() > 0 && all_digits(ds) && digits_value(ds) <= usize::MAX {
        Some(digits_value(ds) as usize)
    } else {
        None
    }
}

proof fn lemma_split_step(s: Seq<char>, i: int, c: char)
    requires
        0 <= i < s.len(),
    ensures
        split_char(s.take(i + 1), c) == (if s[i] == c {
            split_char(s.take(i), c).push(Seq::<char>::empty())
        } else {
            let prev = split_char(s.take(i), c);
            prev.update(prev.len() - 1, prev.last().push(s[i]))
        }),
{
    assert(s.take(i + 1).drop_last() == s.take(i));
}

pub proof fn lemma_split_nonempty(s: Seq<char>, c: char)
    ensures
        split_char(s, c).len() >= 1,
    decreases s.len(),
{
    if s.len() > 0 {
        lemma_split_nonempty(s.drop_last(), c);
    }
}

/// The lines of `s` (`str::lines`), each as its own `String`.
pub fn split_lines(s: &str) -> (r: Vec<String>)
    ensures
        r@.map_values(|l: String| l@) == lines_of(s@),
{
    let cs = to_chars(s);
    let mut done: Vec<String> = Vec::new();
    let mut cur: Vec<char> = Vec::new();
    let mut i: usize = 0;
    proof {
        assert(cs@.take(0) == Seq::<char>::empty());
    }
    while i < cs.len()
        invariant
            i <= cs@.len(),
            cs@ == s@,
            done@.map_values(|l: String| l@) == split_char(cs@.take(i as int), '\n').drop_last().map_values(
                |p: Seq<char>| strip_cr(p),
            ),
            cur@ == split_char(cs@.take(i as int), '\n').last(),
        decreases cs@.len() - i,
    {
        let c = cs[i];
        proof {
            lemma_split_step(cs@, i as int, '\n');
            lemma_split_nonempty(cs@.take(i as int), '\n');
        }
        if c == '\n' {
            let n = cur.len();
            let line = if n > 0 && cur[n - 1] == '\r' {
                from_chars(&cur.as_slice()[0..n - 1])
            } else {
                from_chars(cur.as_slice())
            };
            proof {
                if n > 0 && cur@[n - 1] == '\r' {
                    assert(cur@.subrange(0, n - 1) == cur@.drop_last());
                }
            }
            let ghost old_done = done@;
            done.push(line);
            proof {
                let prev = split_char(cs@.take(i as int), '\n');
                let next = split_char(cs@.take(i as int + 1), '\n');
                assert(next.drop_last() == prev);
                assert(prev == prev.drop_last().push(prev.last()));
                assert(done@.map_values(|l: String| l@) == old_done.map_values(|l: String| l@).push(
                    strip_cr(prev.last()),
                ));
                assert(next.drop_last().map_values(|p: Seq<char>| strip_cr(p))
                    == prev.drop_last().map_values(|p: Seq<char>| strip_cr(p)).push(strip_cr(prev.last())));
            }
            cur = Vec::new();
        } else {
            cur.push(c);
            proof {
                let prev = split_char(cs@.take(i as int), '\n');
                let next = split_char(cs@.take(i as int + 1), '\n');
                assert(next.drop_last() == prev.drop_last());
            }
        }
        i = i + 1;
    }
    proof {
        assert(cs@.take(cs@.len() as int) == cs@);
        lemma_split_nonempty(cs@, '\n');
    }
    if cur.len() > 0 {
        let last = from_chars(cur.as_slice());
        let ghost old_done = done@;
        done.push(last);
        proof {
            assert(done@.map_values(|l: String| l@) == old_done.map_values(|l: String| l@).push(last@));
        }
    }
    done
}

/// `parts` joined with `sep` between consecutive ones (`[String]::join`).
pub fn join_strings(parts: &Vec<String>, sep: &str) -> (r: String)
    ensures
        r@ == join(parts@.map_values(|l: String| l@), sep@),
{
    let ghost ps = parts@.map_values(|l: String| l@);
    let mut r = String::new();
    let mut i: usize = 0;
    while i < parts.len()
        invariant
            i <= parts@.len(),
            ps == parts@.map_values(|l: String| l@),
            r@ == join(ps.take(i as int), sep@),
        decreases parts@.len() - i,
    {
        proof {
            assert(ps.take(i as int + 1).drop_last() == ps.take(i as int));
        }
        if i > 0 {
            r.append(sep);
        }
        r.append(parts[i].as_str());
        proof {
            if i == 0 {
                assert(ps.take(1) == seq![ps[0]]);
            }
        }
        i = i + 1;
    }
    proof {
        assert(ps.take(parts@.len() as int) == ps);
    }
    r
}

/// The number of lines of `s` (`s.lines().count()`).
pub fn count_lines(s: &str) -> (n: usize)
    ensures
        n == lines_of(s@).len(),
{
    let ls = split_lines(s);
    proof {
        assert(ls@.map_values(|l: String| l@).len() == ls@.len());
    }
    ls.len()
}

fn digit(d: u64) -> (c: char)
    requires
        d < 10,
    ensures
        c == digit_char(d as nat),
{
    ((d as u8) + 48u8) as char
}

fn decimal_chars(n: u64) -> (r: Vec<char>)
    ensures
        r@ == decimal_of(n as nat),
    decreases n,
{
    if n < 10 {
        let mut v: Vec<char> = Vec::new();
        v.push(digit(n));
        v
    } else {
        let mut v = decimal_chars(n / 10);
        v.push(digit(n % 10));
        v
    }
}

/// The decimal representation of `n` (what `format!("{}", n)` prints).
pub fn decimal(n: u64) -> (r: String)
    ensures
        r@ == decimal_of(n as nat),
{
    let v = decimal_chars(n);
    from_chars(v.as_slice())
}

proof fn lemma_digits_value_monotone(ds: Seq<char>, i: int)
    requires
        0 <= i <= ds.len(),
        forall|k: int| 0 <= k < ds.len() ==> is_digit(#[trigger] ds[k]),
    ensures
        digits_value(ds.take(i)) <= digits_value(ds),
    decreases ds.len() - i,
{
    if i < ds.len() {
        lemma_digits_value_monotone(ds, i + 1);
        assert(ds.take(i + 1).drop_last() == ds.take(i));
    } else {
        assert(ds.take(i) == ds);
    }
}

/// `s.parse::<usize>().ok()`: an optional `'+'` and then decimal digits
/// whose value fits in `usize`.
pub fn parse_usize(s: &str) -> (r: Option<usize>)
    ensures
        r == parse_usize_of(s@),
{
    let cs = to_chars(s);
    parse_usize_chars(cs.as_slice())
}

/// `parse_usize` on a sequence of characters.
pub fn parse_usize_chars(cs: &[char]) -> (r: Option<usize>)
    ensures
        r == parse_usize_of(cs@),
{
    let ghost s = cs@;
    let start: usize = if cs.len() > 0 && cs[0] == '+' { 1 } else { 0 };
    let ghost ds = unsigned_digits(s);
    if start >= cs.len() {
        return None;
    }
    let mut acc: usize = 0;
    let mut i: usize = start;
    while i < cs.len()
        invariant
            cs@ == s,
            start <= i <= cs@.len(),
            start < cs@.len(),
            ds == cs@.subrange(start as int, cs@.len() as int),
            ds == unsigned_digits(s),
            forall|k: int| 0 <= k < i - start ==> is_digit(#[trigger] ds[k]),
            acc as nat == digits_value(ds.take(i - start)),
        decreases cs@.len() - i,
    {
        let c = cs[i];
        assert(ds[i - start] == c);
        if !('0' <= c && c <= '9') {
            proof {
                let k = i - start;
                assert(!is_digit(ds[k]));
                assert(!all_digits(ds));
            }
            return None;
        }
        let d = (c as u32 - 48) as usize;
        assert(ds.take(i - start + 1).drop_last() == ds.take(i - start));
        assert(ds.take(i - start + 1).last() == c);
        assert(((c as nat) - 48) as nat == d);
        assert(digits_value(ds.take(i - start + 1)) == digits_value(ds.take(i - start)) * 10 + d);
        if acc > (usize::MAX - d) / 10 {
            proof {
                assert(forall|k: int| 0 <= k < i - start + 1 ==> is_digit(#[trigger] ds[k]));
                if all_digits(ds) {
                    lemma_digits_value_monotone(ds, i - start + 1);
                }
                assert(digits_value(ds.take(i - start + 1)) == acc * 10 + d) by (nonlinear_arith)
                    requires
                        digits_value(ds.take(i - start + 1)) == digits_value(ds.take(i - start)) * 10 + d,
                        acc as nat == digits_value(ds.take(i - start));
                assert(acc * 10 + d > usize::MAX) by (nonlinear_arith)
                    requires
                        acc > (usize::MAX - d) / 10,
                        d <= 9;
            }
            return None;
        }
        proof {
            assert(acc * 10 + d <= usize::MAX) by (nonlinear_arith)
                requires
                    acc <= (usize::MAX - d) / 10,
                    d <= 9;
        }
        acc = acc * 10 + d;
        i = i + 1;
    }
    proof {
        assert(ds.take(ds.len() as int) == ds);
    }
    Some(acc)
}

/// Whether `c` is white space (`char::is_whitespace`).
pub fn is_space_char(c: char) -> (b: bool)
    ensures
        b == is_space(c),
{
    ('\t' <= c && c <= '\r') || c == ' ' || c == '\u{85}' || c == '\u{a0}' || c == '\u{1680}'
        || ('\u{2000}' <= c && c <= '\u{200a}') || c == '\u{2028}' || c == '\u{2029}'
        || c == '\u{202f}' || c == '\u{205f}' || c == '\u{3000}'
}

/// The length of `cs` without its trailing white space.
fn trimmed_end_len(cs: &[char]) -> (k: usize)
    ensures
        k <= cs@.len(),
        trim_end_of(cs@) == cs@.take(k as int),
{
    let mut k: usize = cs.len();
    assert(cs@.take(k as int) == cs@);
    while k > 0 && is_space_char(cs[k - 1])
        invariant
            k <= cs@.len(),
            trim_end_of(cs@) == trim_end_of(cs@.take(k as int)),
        decreases k,
    {
        assert(cs@.take(k as int).drop_last() == cs@.take(k - 1));
        k = k - 1;
    }
    k
}

/// The index of the first character of `cs` that is not white space
/// (`cs.len()` if there is none).
fn trimmed_start_index(cs: &[char]) -> (j: usize)
    ensures
        j <= cs@.len(),
        trim_start_of(cs@) == cs@.skip(j as int),
{
    let mut j: usize = 0;
    assert(cs@.skip(0) == cs@);
    while j < cs.len() && is_space_char(cs[j])
        invariant
            j <= cs@.len(),
            trim_start_of(cs@) == trim_start_of(cs@.skip(j as int)),
        decreases cs@.len() - j,
    {
        assert(cs@.skip(j as int).drop_first() == cs@.skip(j + 1));
        j = j + 1;
    }
    j
}

/// `s` without trailing white space (`s.trim_end().to_string()`).
pub fn trim_end(s: &str) -> (r: String)
    ensures
        r@ == trim_end_of(s@),
{
    let cs = to_chars(s);
    let k = trimmed_end_len(cs.as_slice());
    assert(cs@.subrange(0, k as int) == cs@.take(k as int));
    from_chars(&cs.as_slice()[0..k])
}

/// `s` without leading and trailing white space (`s.trim().to_string()`).
pub fn trim(s: &str) -> (r: String)
    ensures
        r@ == trim_of(s@),
{
    let cs = to_chars(s);
    trim_chars(cs.as_slice())
}

/// The characters of `cs` without leading and trailing white space.
pub fn trim_chars(cs: &[char]) -> (r: String)
    ensures
        r@ == trim_of(cs@),
{
    let k = trimmed_end_len(cs);
    let head = &cs[0..k];
    assert(head@ == cs@.take(k as int));
    let j = trimmed_start_index(head);
    assert(head@.subrange(j as int, k as int) == head@.skip(j as int));
    from_chars(&head[j..k])
}

/// Whether `p` occurs in `s` starting at index `i`.
pub open spec fn occurs_at(s: Seq<char>, p: Seq<char>, i: int) -> bool {
    0 <= i && i + p.len() <= s.len() && s.subrange(i, i + p.len()) == p
}

/// The first index at or after `i` where `p` occurs in `s`.
pub open spec fn find_from(s: Seq<char>, p: Seq<char>, i: int) -> Option<int>
    decreases s.len() + 1 - i,
{
    if i < 0 || i + p.len() > s.len() {
        None
    } else if occurs_at(s, p, i) {
        Some(i)
    } else {
        find_from(s, p, i + 1)
    }
}

/// The first index where `p` occurs in `s` (`str::find`, counted in
/// characters).
pub open spec fn find_of(s: Seq<char>, p: Seq<char>) -> Option<int> {
    find_from(s, p, 0)
}

/// What `find_from` gives: the first occurrence at or after `i`.
pub proof fn lemma_find_from(s: Seq<char>, p: Seq<char>, i: int)
    requires
        0 <= i,
    ensures
        match find_from(s, p, i) {
            Some(k) => i <= k && occurs_at(s, p, k) && forall|j: int|
                i <= j < k ==> !#[trigger] occurs_at(s, p, j),
            None => forall|j: int| i <= j ==> !#[trigger] occurs_at(s, p, j),
        },
    decreases s.len() + 1 - i,
{
    if i + p.len() > s.len() {
    } else if occurs_at(s, p, i) {
    } else {
        lemma_find_from(s, p, i + 1);
    }
}

/// Whether `p` occurs in `s` at index `i` (`i + p.len() <= s.len()`).
fn occurs_at_exec(s: &[char], p: &[char], i: usize) -> (b: bool)
    requires
        i + p@.len() <= s@.len(),
    ensures
        b == occurs_at(s@, p@, i as int),
{
    let n = s.len();
    let mut k: usize = 0;
    while k < p.len()
        invariant
            n == s@.len(),
            i + p@.len() <= s@.len(),
            k <= p@.len(),
            forall|j: int| 0 <= j < k ==> s@[i + j] == p@[j],
        decreases p@.len() - k,
    {
        if s[i + k] != p[k] {
            assert(s@.subrange(i as int, i + p@.len())[k as int] != p@[k as int]);
            return false;
        }
        k = k + 1;
    }
    assert(s@.subrange(i as int, i + p@.len()) == p@);
    true
}

/// The first index at or after `from` where `p` occurs in `s`.
pub fn find_chars_from(s: &[char], p: &[char], from: usize) -> (r: Option<usize>)
    ensures
        r matches Some(k) ==> find_from(s@, p@, from as int) == Some(k as int),
        r is None ==> find_from(s@, p@, from as int) is None,
{
    if p.len() > s.len() {
        return None;
    }
    let last = s.len() - p.len();
    let mut i = from;
    while i <= last
        invariant
            last + p@.len() == s@.len(),
            from <= i,
            find_from(s@, p@, from as int) == find_from(s@, p@, i as int),
        decreases last + 1 - i,
    {
        if occurs_at_exec(s, p, i) {
            return Some(i);
        }
        if i == last {
            assert(find_from(s@, p@, i as int + 1) is None);
            return None;
        }
        i = i + 1;
    }
    None
}

/// The first index where `p` occurs in `s`, counted in characters.
pub fn find_chars(s: &[char], p: &[char]) -> (r: Option<usize>)
    ensures
        r matches Some(k) ==> find_of(s@, p@) == Some(k as int),
        r is None ==> find_of(s@, p@) is None,
{
    find_chars_from(s, p, 0)
}

/// Where `p` does not occur from `i` up to `k` and does occur at `k`, the
/// search from `i` finds `k`.
pub proof fn lemma_find_from_at(s: Seq<char>, p: Seq<char>, i: int, k: int)
    requires
        0 <= i <= k,
        occurs_at(s, p, k),
        forall|j: int| i <= j < k ==> !#[trigger] occurs_at(s, p, j),
    ensures
        find_from(s, p, i) == Some(k),
    decreases k - i,
{
    if i < k {
        assert(!occurs_at(s, p, i));
        lemma_find_from_at(s, p, i + 1, k);
    }
}

/// Where `p` occurs nowhere from `i` on, the search from `i` finds nothing.
pub proof fn lemma_find_from_none(s: Seq<char>, p: Seq<char>, i: int)
    requires
        0 <= i,
        forall|j: int| i <= j ==> !#[trigger] occurs_at(s, p, j),
    ensures
        find_from(s, p, i) is None,
    decreases s.len() + 1 - i,
{
    if i + p.len() <= s.len() {
        assert(!occurs_at(s, p, i));
        lemma_find_from_none(s, p, i + 1);
    }
}

/// The first occurrence of the character `c` in `x + [c] + y`, where `x`
/// holds no `c`, is right after `x`.
pub proof fn lemma_find_char_after(x: Seq<char>, c: char, y: Seq<char>)
    requires
        !x.contains(c),
    ensures
        find_of(x + seq![c] + y, seq![c]) == Some(x.len() as int),
{
    let s = x + seq![c] + y;
    assert(s.subrange(x.len() as int, x.len() as int + 1) == seq![c]);
    assert forall|j: int| 0 <= j < x.len() implies !#[trigger] occurs_at(s, seq![c], j) by {
        if occurs_at(s, seq![c], j) {
            assert(s.subrange(j, j + 1)[0] == s[j]);
            assert(x[j] == c);
        }
    }
    lemma_find_from_at(s, seq![c], 0, x.len() as int);
}

/// A character that `s` does not hold is not found in it.
pub proof fn lemma_find_char_absent(s: Seq<char>, c: char)
    requires
        !s.contains(c),
    ensures
        find_of(s, seq![c]) is None,
{
    assert forall|j: int| 0 <= j implies !#[trigger] occurs_at(s, seq![c], j) by {
        if occurs_at(s, seq![c], j) {
            assert(s.subrange(j, j + 1)[0] == s[j]);
        }
    }
    lemma_find_from_none(s, seq![c], 0);
}

/// A two-character pattern whose first character `s` does not hold is not
/// found in it.
pub proof fn lemma_find_pair_absent(s: Seq<char>, c: char, d: char)
    requires
        !s.contains(c),
    ensures
        find_of(s, seq![c, d]) is None,
{
    let pat = seq![c, d];
    assert forall|j: int| 0 <= j implies !#[trigger] occurs_at(s, pat, j) by {
        if occurs_at(s, pat, j) {
            assert(s.subrange(j, j + 2)[0] == s[j]);
        }
    }
    lemma_find_from_none(s, pat, 0);
}

/// A digit character stands for its digit.
pub proof fn lemma_digit_char(d: nat)
    requires
        d < 10,
    ensures
        digit_char(d) as nat == d + 48,
        is_digit(digit_char(d)),
{
    let b = (d + 48) as u8;
    assert(b == d + 48);
    assert((b as char) as nat == b as nat);
}

/// Every character of a decimal representation is a digit.
pub proof fn lemma_decimal_digits(n: nat)
    ensures
        decimal_of(n).len() > 0,
        all_digits(decimal_of(n)),
        digits_value(decimal_of(n)) == n,
    decreases n,
{
    lemma_digit_char(n % 10);
    if n < 10 {
        let d = decimal_of(n);
        assert(d.drop_last() == Seq::<char>::empty());
        assert(n % 10 == n);
        assert(d.last() == digit_char(n));
        assert(digits_value(d.drop_last()) == 0);
        assert(digits_value(d) == digits_value(d.drop_last()) * 10 + ((d.last() as nat) - 48) as nat);
        assert(digits_value(d) == n);
    }
    if n >= 10 {
        lemma_decimal_digits(n / 10);
        let d = decimal_of(n);
        assert(d.drop_last() == decimal_of(n / 10));
        assert(d.last() == digit_char(n % 10));
        assert((n / 10) * 10 + n % 10 == n) by (nonlinear_arith);
        assert(digits_value(d) == digits_value(decimal_of(n / 10)) * 10 + n % 10);
        assert forall|i: int| 0 <= i < d.len() implies is_digit(#[trigger] d[i]) by {
            if i < d.len() - 1 {
                assert(d[i] == decimal_of(n / 10)[i]);
            }
        }
    }
}

/// Reading back a decimal representation gives the number.
pub proof fn lemma_parse_decimal(n: usize)
    ensures
        parse_usize_of(decimal_of(n as nat)) == Some(n),
{
    lemma_decimal_digits(n as nat);
    let d = decimal_of(n as nat);
    assert(is_digit(d[0]));
    assert(unsigned_digits(d) == d);
}

} // verus!
