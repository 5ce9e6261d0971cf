use vstd::prelude::*;
use crate::engines::{any_glob_matches, regex_first_match};
use crate::find::{matching_paths, path_order};
use crate::listing::{LsEntry, LsView};
use crate::order::{lemma_bytes_lt_asymmetric, lemma_bytes_lt_total, lemma_bytes_lt_transitive, lemma_match_order_strict_weak, lemma_path_order_strict_weak};
use crate::print::{number_or, parse_range_of, range_parts, request_of, window_text};
use crate::find::{nonempty_trimmed, type_selection_of};
use crate::text::{lemma_split_nonempty, split_char, trim_of};
use crate::replace::{apply_actions, backup_path_of, count_of, replace_actions_of, replace_all_of, replace_from, undo_actions_of, undo_on, FileActionView};
use crate::search::{content_hits, context_hits, hits_upto, is_binary, line_hits, line_overflows, match_order, search_overflows, MatchView};
use crate::sorting::{lemma_sort_by, order_of, sort_by, sorted_by, strict_weak};
use crate::text::{decimal_of, find_from, find_of, is_digit, join, lemma_decimal_digits, lemma_find_char_absent, lemma_find_char_after, lemma_find_from, lemma_find_pair_absent, lemma_parse_decimal, lines_of, occurs_at, parse_usize_of};
use crate::trunc::truncated_of;
use crate::replace::plain_replacement_of;
use crate::listing::{shown_entries, TreeView};
use crate::git::{git_args_of, git_command_of, GitAction};
use crate::reports::info_text_of;
use crate::text::trim_end_of;

verus! {

broadcast use vstd::multiset::group_multiset_axioms;
/// A number printed in decimal reads back as the same number.
pub proof fn law_decimal_reads_back(n: usize)
    ensures
        parse_usize_of(decimal_of(n as nat)) == Some(n),
{
    lemma_parse_decimal(n);
}

proof fn lemma_no_colon_in_decimal(n: nat)
    ensures
        !decimal_of(n).contains(':'),
        !decimal_of(n).contains('-'),
        !decimal_of(n).contains('.'),
{
    lemma_decimal_digits(n);
    let d = decimal_of(n);
    if d.contains('.') {
        let k = choose|k: int| 0 <= k < d.len() && d[k] == '.';
        assert(is_digit(d[k]));
    }
    if d.contains(':') {
        let k = choose|k: int| 0 <= k < d.len() && d[k] == ':';
        assert(is_digit(d[k]));
    }
    if d.contains('-') {
        let k = choose|k: int| 0 <= k < d.len() && d[k] == '-';
        assert(is_digit(d[k]));
    }
}

proof fn lemma_range_after_path(path: Seq<char>, range: Seq<char>)
    requires
        !path.contains(':'),
    ensures
        find_of(path + ":"@ + range, seq![':']) == Some(path.len() as int),
        (path + ":"@ + range).take(path.len() as int) == path,
        (path + ":"@ + range).skip(path.len() as int + 1) == range,
{
    reveal_strlit(":");
    assert(":"@ == seq![':']);
    lemma_find_char_after(path, ':', range);
    assert((path + ":"@ + range).take(path.len() as int) == path);
    assert((path + ":"@ + range).skip(path.len() as int + 1) == range);
}

/// `path:a-b` names the path, line `a` as the first line, and the
/// `b - a + 1` lines from `a` to `b`.
pub proof fn law_range_argument(path: Seq<char>, a: usize, b: usize)
    requires
        !path.contains(':'),
        a <= b,
        b - a + 1 <= usize::MAX,
    ensures
        parse_range_of(path + ":"@ + decimal_of(a as nat) + "-"@ + decimal_of(b as nat))
            == (path, Some(a), Some((b - a + 1) as usize)),
{
    reveal_strlit("-");
    let da = decimal_of(a as nat);
    let db = decimal_of(b as nat);
    let range = da + "-"@ + db;
    let arg = path + ":"@ + da + "-"@ + db;
    assert(arg == path + ":"@ + range);
    lemma_range_after_path(path, range);
    lemma_no_colon_in_decimal(a as nat);
    lemma_no_colon_in_decimal(b as nat);
    assert(!range.contains(':')) by {
        if range.contains(':') {
            let k = choose|k: int| 0 <= k < range.len() && range[k] == ':';
            if k < da.len() {
                assert(da[k] == ':');
            } else if k > da.len() {
                assert(db[k - da.len() - 1] == ':');
            }
        }
    }
    lemma_find_pair_absent(range, ':', '+');
    assert("-"@ == seq!['-']);
    lemma_find_char_after(da, '-', db);
    assert(range.take(da.len() as int) == da);
    assert(range.skip(da.len() as int + 1) == db);
    lemma_parse_decimal(a);
    lemma_parse_decimal(b);
    assert(number_or(da, 1) == a);
    assert(number_or(db, 0) == b);
}

/// `path:a:+c` names the path, line `a` as the first line, and `c` lines.
pub proof fn law_count_argument(path: Seq<char>, a: usize, c: usize)
    requires
        !path.contains(':'),
    ensures
        parse_range_of(path + ":"@ + decimal_of(a as nat) + ":+"@ + decimal_of(c as nat)) == (path, Some(a), Some(c)),
{
    reveal_strlit(":+");
    let da = decimal_of(a as nat);
    let dc = decimal_of(c as nat);
    let range = da + ":+"@ + dc;
    let arg = path + ":"@ + da + ":+"@ + dc;
    assert(arg == path + ":"@ + range);
    lemma_range_after_path(path, range);
    lemma_no_colon_in_decimal(a as nat);
    let pat = seq![':', '+'];
    assert(":+"@ == pat);
    assert(occurs_at(range, pat, da.len() as int)) by {
        assert(range.subrange(da.len() as int, da.len() as int + 2) == pat);
    }
    assert forall|j: int| 0 <= j < da.len() implies !#[trigger] occurs_at(range, pat, j) by {
        if occurs_at(range, pat, j) {
            assert(range.subrange(j, j + 2)[0] == range[j]);
            assert(da[j] == ':');
        }
    }
    crate::text::lemma_find_from_at(range, pat, 0, da.len() as int);
    assert(range.take(da.len() as int) == da);
    assert(range.skip(da.len() as int + 2) == dc);
    lemma_parse_decimal(a);
    lemma_parse_decimal(c);
}

/// `path:a` names the path and line `a` as the first line, to the end.
pub proof fn law_start_argument(path: Seq<char>, a: usize)
    requires
        !path.contains(':'),
    ensures
        parse_range_of(path + ":"@ + decimal_of(a as nat)) == (path, Some(a), None::<usize>),
{
    let da = decimal_of(a as nat);
    lemma_range_after_path(path, da);
    lemma_no_colon_in_decimal(a as nat);
    lemma_find_pair_absent(da, ':', '+');
    lemma_find_char_absent(da, '-');
    lemma_find_pair_absent(da, '.', '.');
    lemma_parse_decimal(a);
}

/// A path without a range names the whole file.
pub proof fn law_plain_argument(path: Seq<char>)
    requires
        !path.contains(':'),
    ensures
        parse_range_of(path) == (path, None::<usize>, None::<usize>),
{
    lemma_find_char_absent(path, ':');
}

/// `path:a..b` names the path, line `a` as the first line, and the
/// `b - a + 1` lines from `a` to `b`, as `path:a-b` does.
pub proof fn law_span_argument(path: Seq<char>, a: usize, b: usize)
    requires
        !path.contains(':'),
        a <= b,
        b - a + 1 <= usize::MAX,
    ensures
        parse_range_of(path + ":"@ + decimal_of(a as nat) + ".."@ + decimal_of(b as nat))
            == (path, Some(a), Some((b - a + 1) as usize)),
{
    reveal_strlit("..");
    let da = decimal_of(a as nat);
    let db = decimal_of(b as nat);
    let range = da + ".."@ + db;
    let arg = path + ":"@ + da + ".."@ + db;
    assert(arg == path + ":"@ + range);
    lemma_range_after_path(path, range);
    lemma_no_colon_in_decimal(a as nat);
    lemma_no_colon_in_decimal(b as nat);
    let pat = seq!['.', '.'];
    assert(".."@ == pat);
    assert(!range.contains(':')) by {
        if range.contains(':') {
            let k = choose|k: int| 0 <= k < range.len() && range[k] == ':';
            if k < da.len() {
                assert(da[k] == ':');
            } else if k >= da.len() + 2 {
                assert(db[k - da.len() - 2] == ':');
            }
        }
    }
    assert(!range.contains('-')) by {
        if range.contains('-') {
            let k = choose|k: int| 0 <= k < range.len() && range[k] == '-';
            if k < da.len() {
                assert(da[k] == '-');
            } else if k >= da.len() + 2 {
                assert(db[k - da.len() - 2] == '-');
            }
        }
    }
    lemma_find_pair_absent(range, ':', '+');
    lemma_find_char_absent(range, '-');
    assert(occurs_at(range, pat, da.len() as int)) by {
        assert(range.subrange(da.len() as int, da.len() as int + 2) == pat);
    }
    assert forall|j: int| 0 <= j < da.len() implies !#[trigger] occurs_at(range, pat, j) by {
        if occurs_at(range, pat, j) {
            assert(range.subrange(j, j + 2)[0] == range[j]);
            assert(da[j] == '.');
        }
    }
    crate::text::lemma_find_from_at(range, pat, 0, da.len() as int);
    assert(range.take(da.len() as int) == da);
    assert(range.skip(da.len() as int + 2) == db);
    lemma_parse_decimal(a);
    lemma_parse_decimal(b);
    assert(number_or(da, 1) == a);
    assert(number_or(db, 0) == b);
}

/// Printing `file:range` with `--offset` and `--limit` prints what the
/// bare path prints with the options merged: an option given wins over
/// the range.
pub proof fn law_print_merged(file_arg: Seq<char>, offset: Option<usize>, limit: Option<usize>)
    ensures
        ({
            let (path, o, l) = request_of(file_arg, offset, limit);
            &&& request_of(path, o, l) == (path, o, l)
            &&& o == (if offset is Some { offset } else { parse_range_of(file_arg).1 })
            &&& l == (if limit is Some { limit } else { parse_range_of(file_arg).2 })
        }),
{
    let path = parse_range_of(file_arg).0;
    assert(!path.contains(':')) by {
        lemma_find_from(file_arg, seq![':'], 0);
        match range_parts(file_arg) {
            Some((p, _)) => {
                if p.contains(':') {
                    let k = choose|k: int| 0 <= k < p.len() && p[k] == ':';
                    assert(file_arg.subrange(k, k + 1) == seq![':']);
                    assert(occurs_at(file_arg, seq![':'], k));
                }
            },
            None => {
                if file_arg.contains(':') {
                    let k = choose|k: int| 0 <= k < file_arg.len() && file_arg[k] == ':';
                    assert(file_arg.subrange(k, k + 1) == seq![':']);
                    assert(occurs_at(file_arg, seq![':'], k));
                }
            },
        }
    }
    law_plain_argument(path);
}

/// Splitting at a separator: the pieces of `x` followed by the pieces of
/// `y`.
proof fn lemma_split_concat(x: Seq<char>, c: char, y: Seq<char>)
    ensures
        split_char(x + seq![c] + y, c) == split_char(x, c) + split_char(y, c),
    decreases y.len(),
{
    let s = x + seq![c] + y;
    if y.len() == 0 {
        assert(s == x + seq![c]);
        assert(s.drop_last() == x);
        assert(split_char(y, c) == seq![Seq::<char>::empty()]);
    } else {
        assert(s.drop_last() == x + seq![c] + y.drop_last());
        assert(s.last() == y.last());
        lemma_split_concat(x, c, y.drop_last());
        lemma_split_nonempty(y.drop_last(), c);
        lemma_split_nonempty(x, c);
        let A = split_char(x, c);
        let B = split_char(y.drop_last(), c);
        if y.last() == c {
            assert((A + B).push(Seq::<char>::empty()) == A + B.push(Seq::<char>::empty()));
        } else {
            assert((A + B).update(A.len() + B.len() - 1, (A + B).last().push(y.last())) == A + B.update(
                B.len() - 1,
                B.last().push(y.last()),
            ));
        }
    }
}

/// Keeping the trimmed, non-empty pieces of two runs of pieces.
proof fn lemma_nonempty_trimmed_concat(a: Seq<Seq<char>>, b: Seq<Seq<char>>)
    ensures
        nonempty_trimmed(a + b) == nonempty_trimmed(a) + nonempty_trimmed(b),
    decreases b.len(),
{
    if b.len() == 0 {
        assert(a + b == a);
    } else {
        assert((a + b).drop_last() == a + b.drop_last());
        assert((a + b).last() == b.last());
        lemma_nonempty_trimmed_concat(a, b.drop_last());
    }
}

/// A text without the separator is one piece.
proof fn lemma_split_single(s: Seq<char>, c: char)
    requires
        !s.contains(c),
    ensures
        split_char(s, c) == seq![s],
    decreases s.len(),
{
    if s.len() > 0 {
        assert(!s.drop_last().contains(c)) by {
            if s.drop_last().contains(c) {
                let k = choose|k: int| 0 <= k < s.drop_last().len() && s.drop_last()[k] == c;
                assert(s[k] == c);
            }
        }
        lemma_split_single(s.drop_last(), c);
        assert(s.last() != c) by {
            assert(s[s.len() - 1] == s.last());
        }
        let prev = seq![s.drop_last()];
        assert(prev.last() == s.drop_last());
        assert(s.drop_last().push(s.last()) =~= s);
        assert(prev.update(prev.len() - 1, prev.last().push(s.last())) =~= seq![s]);
    } else {
        assert(s =~= Seq::<char>::empty());
    }
}

/// In a `--type` list, names are separated by commas, white space around
/// a name does not count and empty names are skipped: `a,b` selects what
/// `a` selects followed by what `b` selects, and a text without a comma
/// selects itself trimmed, or nothing where it is blank.
pub proof fn law_type_list(a: Seq<char>, b: Seq<char>)
    ensures
        type_selection_of(a + seq![','] + b) == type_selection_of(a) + type_selection_of(b),
        !a.contains(',') ==> type_selection_of(a) == (if trim_of(a).len() == 0 {
            Seq::<Seq<char>>::empty()
        } else {
            seq![trim_of(a)]
        }),
{
    lemma_split_concat(a, ',', b);
    lemma_nonempty_trimmed_concat(split_char(a, ','), split_char(b, ','));
    if !a.contains(',') {
        lemma_split_single(a, ',');
        let one = seq![a];
        assert(one.drop_last() =~= Seq::<Seq<char>>::empty());
        assert(one.last() == a);
        assert(nonempty_trimmed(one.drop_last()) == Seq::<Seq<char>>::empty());
        assert(Seq::<Seq<char>>::empty().push(trim_of(a)) =~= seq![trim_of(a)]);
    }
}

/// Printing `path:a-b` shows exactly lines `a` to `b` of the file, joined
/// by newlines, where `1 <= a <= b <= ` the number of lines.
pub proof fn law_print_range(path: Seq<char>, content: Seq<char>, a: usize, b: usize)
    requires
        !path.contains(':'),
        1 <= a <= b <= lines_of(content).len(),
    ensures
        ({
            let (p, offset, limit) = parse_range_of(path + ":"@ + decimal_of(a as nat) + "-"@ + decimal_of(b as nat));
            &&& p == path
            &&& window_text(offset, limit, content) == join(lines_of(content).subrange(a - 1, b as int), "\n"@)
        }),
{
    law_range_argument(path, a, b);
}

/// Without truncation a text is shown as it is.
pub proof fn law_untruncated(text: Seq<char>, max_lines: nat)
    ensures
        truncated_of(text, max_lines, true) == text,
        lines_of(text).len() <= max_lines ==> truncated_of(text, max_lines, false) == text,
        truncated_of(text, 0, false) == text,
{
}

/// Replacing a non-empty text by itself changes nothing.
pub proof fn law_replace_by_itself(s: Seq<char>, p: Seq<char>)
    requires
        p.len() > 0,
    ensures
        replace_all_of(s, p, p) == s,
{
    lemma_replace_from_itself(s, p, 0);
    assert(s.subrange(0, s.len() as int) == s);
}

proof fn lemma_replace_from_itself(s: Seq<char>, p: Seq<char>, i: int)
    requires
        p.len() > 0,
        0 <= i <= s.len(),
    ensures
        replace_from(s, p, p, i) == s.subrange(i, s.len() as int),
    decreases s.len() + 1 - i,
{
    lemma_find_from(s, p, i);
    match find_from(s, p, i) {
        None => {},
        Some(k) => {
            lemma_replace_from_itself(s, p, k + p.len());
            assert(s.subrange(k, k + p.len()) == p);
            assert(s.subrange(i, s.len() as int) == s.subrange(i, k) + s.subrange(k, k + p.len()) + s.subrange(
                k + p.len(),
                s.len() as int,
            ));
        },
    }
}

/// Where a non-empty text does not occur, replacing it changes nothing.
pub proof fn law_replace_absent(s: Seq<char>, p: Seq<char>, r: Seq<char>)
    requires
        p.len() > 0,
        count_of(s, p) == 0,
    ensures
        replace_all_of(s, p, r) == s,
{
    lemma_find_from(s, p, 0);
    assert(s.subrange(0, s.len() as int) == s);
}

/// After a replacement of `file` has written its files, `--undo` gives the
/// file back the content it had before and removes the backup, leaving
/// every other file as it was before the replacement; a second `--undo`
/// finds no backup.
pub proof fn law_undo_restores(files: Map<Seq<char>, Seq<char>>, file: Seq<char>, new_content: Seq<char>)
    requires
        files.dom().contains(file),
    ensures
        (undo_on(apply_actions(files, replace_actions_of(file, files[file], new_content)), file) matches Ok(
            restored,
        ) && restored == files.remove(backup_path_of(file))),
        (undo_on(files.remove(backup_path_of(file)), file) matches Err(m) && m == "backup not found: "@
            + backup_path_of(file)),
{
    reveal_strlit(".q.bak");
    reveal_with_fuel(apply_actions, 3);
    let bak = backup_path_of(file);
    assert(bak.len() == file.len() + 6);
    assert(bak != file);
    let old = files[file];
    let acts = replace_actions_of(file, old, new_content);
    assert(acts.drop_last().drop_last().len() == 0);
    let after = apply_actions(files, acts);
    assert(after == files.insert(bak, old).insert(file, new_content));
    assert(after.dom().contains(bak) && after[bak] == old);
    let undo = undo_actions_of(file, Some(old));
    let ops = seq![(file, Some(old), Some("restore "@ + file + ": "@)), (bak, None::<Seq<char>>, None::<Seq<char>>)];
    assert(undo == Ok::<Seq<FileActionView>, Seq<char>>(ops));
    assert(ops.drop_last().drop_last().len() == 0);
    assert(apply_actions(after, ops) == after.insert(file, old).remove(bak));
    assert(after.insert(file, old).remove(bak) =~= files.remove(bak));
    assert(!files.remove(bak).dom().contains(bak));
}

/// Search output comes out sorted by file and line, with every line of the
/// collected output kept exactly once.
pub proof fn law_search_output_sorted(found: Seq<MatchView>)
    ensures
        sorted_by(sort_by(found, match_order()), match_order()),
        sort_by(found, match_order()).to_multiset() == found.to_multiset(),
{
    lemma_match_order_strict_weak();
    lemma_sort_by(found, match_order());
}

proof fn lemma_matching_paths(globs: Seq<Seq<char>>, ps: Seq<Seq<char>>)
    ensures
        forall|i: int| 0 <= i < matching_paths(globs, ps).len() ==> any_glob_matches(globs, #[trigger] matching_paths(globs, ps)[i])
            && ps.contains(matching_paths(globs, ps)[i]),
    decreases ps.len(),
{
    if ps.len() > 0 {
        lemma_matching_paths(globs, ps.drop_last());
        let prev = matching_paths(globs, ps.drop_last());
        let cur = matching_paths(globs, ps);
        assert forall|i: int| 0 <= i < cur.len() implies any_glob_matches(globs, #[trigger] cur[i]) && ps.contains(cur[i]) by {
            if i < prev.len() {
                assert(cur[i] == prev[i]);
                let k = choose|k: int| 0 <= k < ps.drop_last().len() && ps.drop_last()[k] == prev[i];
                assert(ps[k] == prev[i]);
            } else {
                assert(cur[i] == ps.last());
                assert(ps[ps.len() - 1] == ps.last());
            }
        }
    }
}

/// `find` lists, sorted bytewise, exactly the paths that the glob matches,
/// each as often as it was found.
pub proof fn law_found_paths(globs: Seq<Seq<char>>, ps: Seq<Seq<char>>)
    ensures
        ({
            let r = sort_by(matching_paths(globs, ps), path_order());
            &&& sorted_by(r, path_order())
            &&& r.to_multiset() == matching_paths(globs, ps).to_multiset()
            &&& forall|i: int| 0 <= i < r.len() ==> any_glob_matches(globs, #[trigger] r[i]) && ps.contains(r[i])
        }),
{
    lemma_path_order_strict_weak();
    lemma_sort_by(matching_paths(globs, ps), path_order());
    lemma_matching_paths(globs, ps);
    let m = matching_paths(globs, ps);
    let r = sort_by(m, path_order());
    assert forall|i: int| 0 <= i < r.len() implies any_glob_matches(globs, #[trigger] r[i]) && ps.contains(r[i]) by {
        broadcast use vstd::seq_lib::group_to_multiset_ensures;
        assert(r.contains(r[i]));
        assert(r.to_multiset().count(r[i]) > 0);
        assert(m.to_multiset().count(r[i]) > 0);
        assert(m.contains(r[i]));
        let k = choose|k: int| 0 <= k < m.len() && m[k] == r[i];
    }
}

/// `ls` lists its entries sorted by the bytes of their names, each once.
pub proof fn law_listing_sorted(es: Seq<LsView>)
    ensures
        sorted_by(sort_by(es, order_of::<LsEntry>()), order_of::<LsEntry>()),
        sort_by(es, order_of::<LsEntry>()).to_multiset() == es.to_multiset(),
{
    lemma_ls_order_strict_weak();
    lemma_sort_by(es, order_of::<LsEntry>());
}

proof fn lemma_ls_order_strict_weak()
    ensures
        strict_weak(order_of::<LsEntry>()),
{
    assert forall|a: LsView, b: LsView| #[trigger] order_of::<LsEntry>()(a, b) implies !order_of::<LsEntry>()(b, a) by {
        lemma_bytes_lt_asymmetric(a.4, b.4);
    }
    assert forall|a: LsView, b: LsView, c: LsView|
        !#[trigger] order_of::<LsEntry>()(b, a) && !#[trigger] order_of::<LsEntry>()(c, b) implies !order_of::<LsEntry>()(
        c,
        a,
    ) by {
        lemma_bytes_lt_total(a.4, b.4);
        lemma_bytes_lt_total(b.4, c.4);
        lemma_bytes_lt_asymmetric(a.4, c.4);
        lemma_bytes_lt_transitive(a.4, b.4, c.4);
    }
}

/// Every line of search output for a file names the file and a line of it
/// (1-based) together with that line's text; a match line (column above
/// 0) is one where the pattern matches, at the column's byte offset.
pub proof fn law_search_lines(pattern: Seq<char>, file: Seq<char>, content: Seq<char>, context: nat)
    requires
        lines_of(content).len() < usize::MAX,
        !search_overflows(pattern, content, context),
    ensures
        forall|i: int| 0 <= i < content_hits(pattern, file, content, context).len() ==> {
            let m = #[trigger] content_hits(pattern, file, content, context)[i];
            let ls = lines_of(content);
            &&& m.0 == file
            &&& 1 <= m.1 <= ls.len()
            &&& m.3 == ls[m.1 - 1]
            &&& (m.2 > 0 ==> regex_first_match(pattern, m.3) == Some((m.2 - 1) as usize))
        },
{
    if !is_binary(content) {
        let ls = lines_of(content);
        assert forall|k: int| 0 <= k < ls.len() implies !#[trigger] line_overflows(pattern, ls, k, context) by {
            if line_overflows(pattern, ls, k, context) {
                assert(search_overflows(pattern, content, context));
            }
        }
        lemma_hits_upto(pattern, file, ls, ls.len() as int, context);
    }
}

/// The entries that search output holds for a line.
pub open spec fn good_hit(pattern: Seq<char>, file: Seq<char>, ls: Seq<Seq<char>>, m: MatchView) -> bool {
    &&& m.0 == file
    &&& 1 <= m.1 <= ls.len()
    &&& m.3 == ls[m.1 - 1]
    &&& (m.2 > 0 ==> regex_first_match(pattern, m.3) == Some((m.2 - 1) as usize))
}

proof fn lemma_context_hits(pattern: Seq<char>, file: Seq<char>, ls: Seq<Seq<char>>, idx: int, c: int, end: int)
    requires
        0 <= c,
        end <= ls.len(),
        end < usize::MAX,
    ensures
        forall|i: int| 0 <= i < context_hits(file, ls, idx, c, end).len() ==> good_hit(
            pattern,
            file,
            ls,
            #[trigger] context_hits(file, ls, idx, c, end)[i],
        ),
    decreases end - c,
{
    if c < end {
        lemma_context_hits(pattern, file, ls, idx, c + 1, end);
        let rest = context_hits(file, ls, idx, c + 1, end);
        let cur = context_hits(file, ls, idx, c, end);
        if c != idx {
            assert forall|i: int| 0 <= i < cur.len() implies good_hit(pattern, file, ls, #[trigger] cur[i]) by {
                if i > 0 {
                    assert(cur[i] == rest[i - 1]);
                }
            }
        }
    }
}

proof fn lemma_hits_upto(pattern: Seq<char>, file: Seq<char>, ls: Seq<Seq<char>>, n: int, context: nat)
    requires
        n <= ls.len(),
        ls.len() < usize::MAX,
        forall|k: int| 0 <= k < n ==> !#[trigger] line_overflows(pattern, ls, k, context),
    ensures
        forall|i: int| 0 <= i < hits_upto(pattern, file, ls, n, context).len() ==> good_hit(
            pattern,
            file,
            ls,
            #[trigger] hits_upto(pattern, file, ls, n, context)[i],
        ),
    decreases n,
{
    if n > 0 {
        lemma_hits_upto(pattern, file, ls, n - 1, context);
        assert(!line_overflows(pattern, ls, n - 1, context));
        let prev = hits_upto(pattern, file, ls, n - 1, context);
        let here = line_hits(pattern, file, ls, n - 1, context);
        let all = hits_upto(pattern, file, ls, n, context);
        assert(all == prev + here);
        let idx = n - 1;
        match regex_first_match(pattern, ls[idx]) {
            None => {},
            Some(s) => {
                let first = seq![(file, (idx + 1) as usize, (s + 1) as usize, ls[idx])];
                if context > 0 {
                    lemma_context_hits(pattern, file, ls, idx, crate::search::context_start(idx, context),
                        crate::search::context_end(idx, context, ls.len()));
                }
                let ctx = if context > 0 {
                    context_hits(file, ls, idx, crate::search::context_start(idx, context),
                        crate::search::context_end(idx, context, ls.len()))
                } else {
                    Seq::<MatchView>::empty()
                };
                assert(here == first + ctx);
                assert(good_hit(pattern, file, ls, first[0]));
                assert forall|i: int| 0 <= i < here.len() implies good_hit(pattern, file, ls, #[trigger] here[i]) by {
                    if i > 0 {
                        assert(here[i] == ctx[i - 1]);
                    }
                }
            },
        }
        assert forall|i: int| 0 <= i < all.len() implies good_hit(pattern, file, ls, #[trigger] all[i]) by {
            if i < prev.len() {
                assert(all[i] == prev[i]);
            } else {
                assert(all[i] == here[i - prev.len()]);
            }
        }
    }
}

// ── laws on what each command does ─────────────────────────────────────────

/// Whether `p` stands in `s` at index `k`, character for character.
pub open spec fn stands_at(s: Seq<char>, p: Seq<char>, k: int) -> bool {
    0 <= k && k + p.len() <= s.len() && s.subrange(k, k + p.len()) == p
}

/// Replacing the first occurrence of a plain text: where `old` stands in
/// `content` (exactly, character for character), the result is `content`
/// with its first such occurrence replaced by `new`, and one replacement is
/// counted; where it stands nowhere, there is no result.
pub proof fn law_replace_first(content: Seq<char>, old: Seq<char>, new: Seq<char>)
    ensures
        match plain_replacement_of(content, old, new, false) {
            Some((text, n)) => n == 1 && exists|k: int|
                #[trigger] stands_at(content, old, k) && (forall|j: int| 0 <= j < k ==> !#[trigger] stands_at(content, old, j))
                    && text == content.take(k) + new + content.skip(k + old.len()),
            None => forall|k: int| !#[trigger] stands_at(content, old, k),
        },
{
    lemma_find_from(content, old, 0);
    match find_of(content, old) {
        Some(k) => {
            assert(occurs_at(content, old, k));
            assert(stands_at(content, old, k));
            assert forall|j: int| 0 <= j < k implies !#[trigger] stands_at(content, old, j) by {
                assert(!occurs_at(content, old, j));
            }
        },
        None => {
            assert forall|k: int| !#[trigger] stands_at(content, old, k) by {
                if 0 <= k {
                    assert(!occurs_at(content, old, k));
                }
            }
        },
    }
}

/// Without a limit, the window runs from the first line asked for to the
/// last line of the file; without an offset either, it is the whole file.
pub proof fn law_print_to_end(content: Seq<char>, a: usize)
    requires
        1 <= a <= lines_of(content).len() + 1,
    ensures
        window_text(Some(a), None, content) == join(
            lines_of(content).subrange(a - 1, lines_of(content).len() as int),
            "\n"@,
        ),
        window_text(None, None, content) == join(lines_of(content), "\n"@),
{
    let ls = lines_of(content);
    assert(ls.subrange(0, ls.len() as int) == ls);
}

/// Printing `path:a` shows the lines from `a` to the end of the file.
pub proof fn law_print_from(path: Seq<char>, content: Seq<char>, a: usize)
    requires
        !path.contains(':'),
        1 <= a <= lines_of(content).len(),
    ensures
        ({
            let (p, offset, limit) = parse_range_of(path + ":"@ + decimal_of(a as nat));
            &&& p == path
            &&& window_text(offset, limit, content) == join(
                lines_of(content).subrange(a - 1, lines_of(content).len() as int),
                "\n"@,
            )
        }),
{
    law_start_argument(path, a);
    law_print_to_end(content, a);
}

/// Whether `tree` keeps an entry: every one, or with `dirs_only` the
/// directories.
pub open spec fn tree_keeps(dirs_only: bool) -> spec_fn(TreeView) -> bool {
    |e: TreeView| !dirs_only || e.1
}

/// `tree` shows every entry of the walk, in the order walked, except that
/// with `dirs_only` the entries that are not directories are left out.
pub proof fn law_tree_shows_walked(es: Seq<TreeView>, dirs_only: bool)
    ensures
        shown_entries(es, dirs_only) == es.filter(tree_keeps(dirs_only)),
        !dirs_only ==> shown_entries(es, dirs_only) == es,
    decreases es.len(),
{
    let keep = tree_keeps(dirs_only);
    reveal(Seq::filter);
    if es.len() > 0 {
        law_tree_shows_walked(es.drop_last(), dirs_only);
        assert(es.filter(keep) == if keep(es.last()) {
            es.drop_last().filter(keep).push(es.last())
        } else {
            es.drop_last().filter(keep)
        });
        assert(es.drop_last().push(es.last()) == es);
    } else {
        assert(es.filter(keep) == es);
    }
}

/// The arguments of each git action: `status --short`, `diff`,
/// `log --oneline -N`, `diff --cached` for the staged changes (the diff of
/// the index, where `diff` alone shows the work tree), `show --stat
/// --oneline REV`, `commit -m MSG`, `branch` and `checkout BRANCH`.
pub proof fn law_git_arguments(action: GitAction)
    ensures
        git_args_of(GitAction::Staged) == git_args_of(GitAction::Diff).push("--cached"@),
        git_args_of(GitAction::Diff) == seq!["diff"@],
        git_args_of(action) == match action {
            GitAction::Status => seq!["status"@, "--short"@],
            GitAction::Diff => seq!["diff"@],
            GitAction::Log { count } => seq!["log"@, "--oneline"@, "-"@ + decimal_of(count as nat)],
            GitAction::Staged => seq!["diff"@, "--cached"@],
            GitAction::Show { rev } => seq!["show"@, "--stat"@, "--oneline"@, rev@],
            GitAction::Commit { msg } => seq!["commit"@, "-m"@, msg@],
            GitAction::Branch => seq!["branch"@],
            GitAction::Checkout { branch } => seq!["checkout"@, branch@],
        },
        git_command_of(GitAction::Staged) == "staged"@,
        git_command_of(GitAction::Diff) == "diff"@,
{
    assert(seq!["diff"@].push("--cached"@) == seq!["diff"@, "--cached"@]);
}

/// Where the modification time is known, `info` adds the line
/// `modified: TIME` after everything else it shows, for a directory as for
/// a file; a directory shows its path, its type and that line.
pub proof fn law_info_modified(path: Seq<char>, is_dir: bool, size: Option<u64>, lines: Option<usize>, m: Seq<char>)
    ensures
        exists|u: Seq<char>|
            info_text_of(path, is_dir, size, lines, None) == trim_end_of(u) && #[trigger] info_text_of(
                path,
                is_dir,
                size,
                lines,
                Some(m),
            ) == trim_end_of(u + "modified: "@ + m + "\n"@),
        info_text_of(path, true, None, None, Some(m)) == trim_end_of(
            "path:     "@ + path + "\n"@ + "type:     "@ + "directory"@ + "\n"@ + "modified: "@ + m + "\n"@,
        ),
{
    let u = "path:     "@ + path + "\n"@ + "type:     "@ + (if is_dir { "directory"@ } else { "file"@ }) + "\n"@
        + (match size {
        Some(s) => "size:     "@ + decimal_of(s as nat) + " bytes\n"@,
        None => Seq::<char>::empty(),
    }) + (match lines {
        Some(l) => "lines:    "@ + decimal_of(l as nat) + "\n"@,
        None => Seq::<char>::empty(),
    });
    assert(info_text_of(path, is_dir, size, lines, None) == trim_end_of(u)) by {
        assert(u + Seq::<char>::empty() == u);
    }
    assert(info_text_of(path, is_dir, size, lines, Some(m)) == trim_end_of(u + "modified: "@ + m + "\n"@)) by {
        assert(u + ("modified: "@ + m + "\n"@) == u + "modified: "@ + m + "\n"@);
    }
    let d = "path:     "@ + path + "\n"@ + "type:     "@ + "directory"@ + "\n"@;
    assert(d + Seq::<char>::empty() + Seq::<char>::empty() + ("modified: "@ + m + "\n"@) == d + "modified: "@ + m
        + "\n"@);
}

} // verus!
