use vstd::prelude::*;
use crate::chars::{from_chars, to_chars};
use crate::engines::{compile_regex, invalid_regex_prefix, regex_accepts, regex_count, regex_first_match, regex_is_match, regex_match_count, regex_replace, regex_replace_all, regex_replace_every, regex_replace_first, starts_with};
use crate::text::{decimal, decimal_of, find_chars, find_chars_from, find_from, find_of, lemma_find_from, occurs_at};

verus! {

/// `s` from index `i` on, with every match of the non-empty `p` found left
/// to right (without overlap) replaced by `r`.
pub open spec fn replace_from(s: Seq<char>, p: Seq<char>, r: Seq<char>, i: int) -> Seq<char>
    decreases s.len() + 1 - i,
{
    if p.len() == 0 || i < 0 {
        Seq::<char>::empty()
    } else {
        match find_from(s, p, i) {
            None => s.subrange(i, s.len() as int),
            Some(k) => {
                proof {
                    lemma_find_from(s, p, i);
                }
                s.subrange(i, k) + r + replace_from(s, p, r, k + p.len())
            },
        }
    }
}

/// The number of matches of the non-empty `p` in `s` from index `i` on,
/// found left to right without overlap.
pub open spec fn count_from(s: Seq<char>, p: Seq<char>, i: int) -> nat
    decreases s.len() + 1 - i,
{
    if p.len() == 0 || i < 0 {
        0
    } else {
        match find_from(s, p, i) {
            None => 0,
            Some(k) => {
                proof {
                    lemma_find_from(s, p, i);
                }
                1 + count_from(s, p, k + p.len())
            },
        }
    }
}

/// `r` before every character of `s` and once more at its end (what
/// replacing the empty pattern gives).
pub open spec fn interleave(s: Seq<char>, r: Seq<char>) -> Seq<char>
    decreases s.len(),
{
    if s.len() == 0 {
        r
    } else {
        r + seq![s[0]] + interleave(s.drop_first(), r)
    }
}

/// `str::replace`: every match of `p` in `s` replaced by `r`; the empty
/// pattern matches before every character and at the end.
pub open spec fn replace_all_of(s: Seq<char>, p: Seq<char>, r: Seq<char>) -> Seq<char> {
    if p.len() == 0 {
        interleave(s, r)
    } else {
        replace_from(s, p, r, 0)
    }
}

/// `str::matches(p).count()`: the number of matches that `replace_all_of`
/// replaces.
pub open spec fn count_of(s: Seq<char>, p: Seq<char>) -> nat {
    if p.len() == 0 {
        s.len() + 1
    } else {
        count_from(s, p, 0)
    }
}

/// `s` with its first match of `p` (at index `k`) replaced by `r`.
pub open spec fn replace_at(s: Seq<char>, p: Seq<char>, r: Seq<char>, k: int) -> Seq<char> {
    s.take(k) + r + s.skip(k + p.len())
}

fn push_all(out: &mut Vec<char>, src: &[char])
    ensures
        final(out)@ == old(out)@ + src@,
{
    let mut i: usize = 0;
    while i < src.len()
        invariant
            i <= src@.len(),
            out@ == old(out)@ + src@.take(i as int),
        decreases src@.len() - i,
    {
        assert(src@.take(i + 1) == src@.take(i as int).push(src@[i as int]));
        out.push(src[i]);
        i = i + 1;
    }
    assert(src@.take(src@.len() as int) == src@);
}

proof fn lemma_interleave_step(s: Seq<char>, r: Seq<char>, i: int)
    requires
        0 <= i < s.len(),
    ensures
        interleave(s.skip(i), r) == r + seq![s[i]] + interleave(s.skip(i + 1), r),
{
    assert(s.skip(i).drop_first() == s.skip(i + 1));
}

/// Every match of `p` in `s` replaced by `r` (`str::replace`).
pub fn replace_all_chars(s: &[char], p: &[char], r: &[char]) -> (out: Vec<char>)
    ensures
        out@ == replace_all_of(s@, p@, r@),
{
    let mut out: Vec<char> = Vec::new();
    if p.len() == 0 {
        let mut i: usize = 0;
        assert(s@.skip(0) == s@);
        while i < s.len()
            invariant
                i <= s@.len(),
                out@ + interleave(s@.skip(i as int), r@) == interleave(s@, r@),
            decreases s@.len() - i,
        {
            proof {
                lemma_interleave_step(s@, r@, i as int);
            }
            push_all(&mut out, r);
            out.push(s[i]);
            i = i + 1;
        }
        assert(s@.skip(s@.len() as int) == Seq::<char>::empty());
        push_all(&mut out, r);
        return out;
    }
    let len = s.len();
    let mut i: usize = 0;
    loop
        invariant
            len == s@.len(),
            p@.len() > 0,
            i <= s@.len(),
            out@ + replace_from(s@, p@, r@, i as int) == replace_from(s@, p@, r@, 0),
        decreases s@.len() + 1 - i,
    {
        proof {
            lemma_find_from(s@, p@, i as int);
        }
        match find_chars_from(s, p, i) {
            None => {
                let rest = &s[i..s.len()];
                push_all(&mut out, rest);
                return out;
            },
            Some(k) => {
                assert(occurs_at(s@, p@, k as int));
                push_all(&mut out, &s[i..k]);
                push_all(&mut out, r);
                i = k + p.len();
            },
        }
    }
}

/// The number of matches of `p` in `s` (`str::matches(p).count()`).
pub fn count_chars(s: &[char], p: &[char]) -> (n: usize)
    requires
        s@.len() < usize::MAX,
    ensures
        n == count_of(s@, p@),
{
    if p.len() == 0 {
        return s.len() + 1;
    }
    let len = s.len();
    let mut n: usize = 0;
    let mut i: usize = 0;
    loop
        invariant
            len == s@.len(),
            p@.len() > 0,
            i <= s@.len(),
            n <= i,
            n + count_from(s@, p@, i as int) == count_from(s@, p@, 0),
        decreases s@.len() + 1 - i,
    {
        proof {
            lemma_find_from(s@, p@, i as int);
        }
        match find_chars_from(s, p, i) {
            None => {
                return n;
            },
            Some(k) => {
                assert(occurs_at(s@, p@, k as int));
                n = n + 1;
                i = k + p.len();
            },
        }
    }
}

/// The message for a text that was not found: `'old' not found in file`.
pub open spec fn not_found_message(old: Seq<char>, file: Seq<char>) -> Seq<char> {
    "'"@ + old + "' not found in "@ + file
}

fn not_found(old: &str, file: &str) -> (m: String)
    ensures
        m@ == not_found_message(old@, file@),
{
    let mut m = String::new();
    m.append("'");
    m.append(old);
    m.append("' not found in ");
    m.append(file);
    m
}

/// A plain-text replacement: the new text and the number of replacements,
/// or `None` where `old` does not occur.
pub open spec fn plain_replacement_of(content: Seq<char>, old: Seq<char>, new: Seq<char>, all: bool) -> Option<(Seq<char>, nat)> {
    if all {
        if count_of(content, old) == 0 {
            None
        } else {
            Some((replace_all_of(content, old, new), count_of(content, old)))
        }
    } else {
        match find_of(content, old) {
            Some(k) => Some((replace_at(content, old, new, k), 1)),
            None => None,
        }
    }
}

/// A regex replacement of an accepted pattern: the new text and the number
/// of replacements, or `None` where the pattern does not match.
pub open spec fn regex_replacement_of(pattern: Seq<char>, content: Seq<char>, new: Seq<char>, all: bool) -> Option<(Seq<char>, nat)> {
    let count: nat = if all {
        regex_match_count(pattern, content)
    } else if regex_first_match(pattern, content) is Some {
        1
    } else {
        0
    };
    if count == 0 {
        None
    } else if all {
        Some((regex_replace_every(pattern, content, new), count))
    } else {
        Some((regex_replace_first(pattern, content, new), count))
    }
}

/// The result of a replacement, before anything is written: the new
/// content, the number of replacements, and the backup of the old content
/// (its path and what it holds).
pub struct ReplacePlan {
    pub new_content: String,
    pub count: usize,
    pub backup_path: String,
    pub backup_content: String,
}

/// Where the content before a replacement is kept: `file.q.bak`.
pub open spec fn backup_path_of(file: Seq<char>) -> Seq<char> {
    file + ".q.bak"@
}

/// The backup file of `file` (`file.q.bak`), which a replacement writes and
/// an undo reads back.
pub fn backup_path(file: &str) -> (r: String)
    ensures
        r@ == backup_path_of(file@),
{
    let mut r = file.to_owned();
    r.append(".q.bak");
    r
}

/// Replaces `old` by `new` in `content` (the text of `file`): the first
/// occurrence or, with `all`, every one; with `use_regex`, `old` is a
/// regular expression and `new` may refer to its groups. A text that does
/// not occur gives `'old' not found in file`; a pattern that does not
/// compile gives `invalid regex: ...`.
pub fn plan_replace(
    file: &str,
    content: &str,
    old: &str,
    new: &str,
    all: bool,
    use_regex: bool,
) -> (r: Result<ReplacePlan, String>)
    requires
        content@.len() < usize::MAX,
    ensures
        use_regex && !regex_accepts(old@) ==> (r matches Err(m) && starts_with(m@, invalid_regex_prefix())),
        use_regex && regex_accepts(old@) ==> match regex_replacement_of(old@, content@, new@, all) {
            Some((text, n)) => (r matches Ok(p) && p.new_content@ == text && p.count == n),
            None => (r matches Err(m) && m@ == not_found_message(old@, file@)),
        },
        !use_regex ==> match plain_replacement_of(content@, old@, new@, all) {
            Some((text, n)) => (r matches Ok(p) && p.new_content@ == text && p.count == n),
            None => (r matches Err(m) && m@ == not_found_message(old@, file@)),
        },
        r matches Ok(p) ==> p.backup_path@ == backup_path_of(file@) && p.backup_content@ == content@
            && p.count > 0,
{
    let (new_content, count) = if use_regex {
        let re = match compile_regex(old) {
            Ok(re) => re,
            Err(m) => return Err(m),
        };
        let text = if all {
            regex_replace_all(&re, content, new)
        } else {
            regex_replace(&re, content, new)
        };
        let count = if all {
            regex_count(&re, content)
        } else if regex_is_match(&re, content) {
            1
        } else {
            0
        };
        (text, count)
    } else {
        let cs = to_chars(content);
        let ps = to_chars(old);
        let rs = to_chars(new);
        if all {
            let out = replace_all_chars(cs.as_slice(), ps.as_slice(), rs.as_slice());
            (from_chars(out.as_slice()), count_chars(cs.as_slice(), ps.as_slice()))
        } else {
            match find_chars(cs.as_slice(), ps.as_slice()) {
                Some(k) => {
                    proof {
                        lemma_find_from(cs@, ps@, 0);
                        assert(occurs_at(cs@, ps@, k as int));
                    }
                    let mut out: Vec<char> = Vec::new();
                    push_all(&mut out, &cs.as_slice()[0..k]);
                    push_all(&mut out, rs.as_slice());
                    push_all(&mut out, &cs.as_slice()[k + ps.len()..cs.len()]);
                    assert(cs@.subrange(0, k as int) == cs@.take(k as int));
                    assert(cs@.subrange(k + ps@.len(), cs@.len() as int) == cs@.skip(k + ps@.len()));
                    (from_chars(out.as_slice()), 1)
                },
                None => return Err(not_found(old, file)),
            }
        }
    };
    if count == 0 {
        return Err(not_found(old, file));
    }
    Ok(ReplacePlan {
        new_content,
        count,
        backup_path: backup_path(file),
        backup_content: content.to_owned(),
    })
}

/// Whether the unified diff of a replacement is computed: for a dry run,
/// and for plain-text output.
pub fn needs_diff(dry_run: bool, json: bool) -> (b: bool)
    ensures
        b == (dry_run || !json),
{
    dry_run || !json
}

/// The diff that `diff -u` printed, or `None` where it printed nothing.
pub fn diff_from_output(stdout: String) -> (r: Option<String>)
    ensures
        stdout@.len() == 0 ==> r is None,
        stdout@.len() > 0 ==> r == Some(stdout),
{
    if stdout.as_str().is_empty() {
        None
    } else {
        Some(stdout)
    }
}

/// What is shown in place of a diff that could not be computed.
pub open spec fn diff_unavailable() -> Seq<char> {
    "(diff unavailable)"@
}

/// The diff shown for a dry run.
pub open spec fn shown_diff(diff: Option<String>) -> Seq<char> {
    match diff {
        Some(d) => d@,
        None => diff_unavailable(),
    }
}

/// What a replacement does once planned: whether the backup and the new
/// content are written, the plain-text message, and the diff of the JSON
/// report.
pub struct ReplaceOutcome {
    pub write: bool,
    pub text: String,
    pub json_diff: Option<String>,
}

/// The outcome of a planned replacement of `count` occurrences in `file`:
/// a dry run writes nothing and shows the diff; otherwise the backup and
/// the new content are written and the message names the backup.
pub fn replace_outcome(file: &str, count: usize, dry_run: bool, diff: Option<String>) -> (r: ReplaceOutcome)
    ensures
        r.write == !dry_run,
        dry_run ==> r.text@ == "[dry-run] "@ + file@ + ": "@ + decimal_of(count as nat) + " replacement(s)\n"@
            + shown_diff(diff),
        dry_run ==> (r.json_diff matches Some(d) && d@ == shown_diff(diff)),
        !dry_run ==> r.text@ == file@ + ": "@ + decimal_of(count as nat) + " replacement(s) (backup: "@
            + backup_path_of(file@) + ")"@,
        !dry_run ==> r.json_diff == diff,
{
    if dry_run {
        let mut shown = String::new();
        match &diff {
            Some(d) => shown.append(d.as_str()),
            None => shown.append("(diff unavailable)"),
        }
        let mut t = String::new();
        t.append("[dry-run] ");
        t.append(file);
        t.append(": ");
        t.append(decimal(count as u64).as_str());
        t.append(" replacement(s)\n");
        t.append(shown.as_str());
        ReplaceOutcome { write: false, text: t, json_diff: Some(shown) }
    } else {
        let mut t = String::new();
        t.append(file);
        t.append(": ");
        t.append(decimal(count as u64).as_str());
        t.append(" replacement(s) (backup: ");
        t.append(backup_path(file).as_str());
        t.append(")");
        ReplaceOutcome { write: true, text: t, json_diff: diff }
    }
}

/// The message after an undo: `file: restored from file.q.bak`.
pub fn restored_message(file: &str) -> (m: String)
    ensures
        m@ == file@ + ": restored from "@ + backup_path_of(file@),
{
    let mut m = file.to_owned();
    m.append(": restored from ");
    m.append(backup_path(file).as_str());
    m
}

/// The error for an undo without a backup: `backup not found: file.q.bak`.
pub fn backup_missing_message(file: &str) -> (m: String)
    ensures
        m@ == "backup not found: "@ + backup_path_of(file@),
{
    let mut m = String::new();
    m.append("backup not found: ");
    m.append(backup_path(file).as_str());
    m
}

/// A change to the files: `content` written to `path`, or `path` removed
/// where there is no content. Where it fails, the command fails with
/// `on_error` followed by the system's message; without `on_error` the
/// failure is passed over.
pub struct FileAction {
    pub path: String,
    pub content: Option<String>,
    pub on_error: Option<String>,
}

/// A file action as plain values: path, content, error prefix.
pub type FileActionView = (Seq<char>, Option<Seq<char>>, Option<Seq<char>>);

impl View for FileAction {
    type V = FileActionView;

    open spec fn view(&self) -> FileActionView {
        (self.path@, match self.content {
            Some(c) => Some(c@),
            None => None,
        }, match self.on_error {
            Some(e) => Some(e@),
            None => None,
        })
    }
}

/// The files, as what each path holds, after an action succeeded.
pub open spec fn apply_action(files: Map<Seq<char>, Seq<char>>, a: FileActionView) -> Map<Seq<char>, Seq<char>> {
    match a.1 {
        Some(c) => files.insert(a.0, c),
        None => files.remove(a.0),
    }
}

/// The files after the actions succeeded, one after another.
pub open spec fn apply_actions(files: Map<Seq<char>, Seq<char>>, acts: Seq<FileActionView>) -> Map<Seq<char>, Seq<char>>
    decreases acts.len(),
{
    if acts.len() == 0 {
        files
    } else {
        apply_action(apply_actions(files, acts.drop_last()), acts.last())
    }
}

/// What a replacement writes: first the old content to the backup (a
/// failure there is passed over), then the new content to the file.
pub open spec fn replace_actions_of(file: Seq<char>, old_content: Seq<char>, new_content: Seq<char>) -> Seq<FileActionView> {
    seq![
        (backup_path_of(file), Some(old_content), None::<Seq<char>>),
        (file, Some(new_content), Some("write "@ + file + ": "@)),
    ]
}

/// What an undo does, given what the backup holds (`None` where there is
/// none): writes it back to the file and removes the backup (a failure
/// there is passed over); without a backup, `backup not found: ...`.
pub open spec fn undo_actions_of(file: Seq<char>, backup: Option<Seq<char>>) -> Result<Seq<FileActionView>, Seq<char>> {
    match backup {
        None => Err("backup not found: "@ + backup_path_of(file)),
        Some(c) => Ok(
            seq![
                (file, Some(c), Some("restore "@ + file + ": "@)),
                (backup_path_of(file), None::<Seq<char>>, None::<Seq<char>>),
            ],
        ),
    }
}

/// What `--undo` makes of the files: where the backup exists, its content
/// written back to the file and the backup removed; else the error.
pub open spec fn undo_on(files: Map<Seq<char>, Seq<char>>, file: Seq<char>) -> Result<Map<Seq<char>, Seq<char>>, Seq<char>> {
    let backup = if files.dom().contains(backup_path_of(file)) {
        Some(files[backup_path_of(file)])
    } else {
        None
    };
    match undo_actions_of(file, backup) {
        Ok(acts) => Ok(apply_actions(files, acts)),
        Err(m) => Err(m),
    }
}

fn write_action(path: String, content: String, on_error: Option<String>) -> (a: FileAction)
    ensures
        a@ == (path@, Some(content@), match on_error {
            Some(e) => Some(e@),
            None => None::<Seq<char>>,
        }),
{
    FileAction { path, content: Some(content), on_error }
}

fn error_prefix(verb: &str, file: &str) -> (m: String)
    ensures
        m@ == verb@ + file@ + ": "@,
{
    let mut m = verb.to_owned();
    m.append(file);
    m.append(": ");
    m
}

/// The file actions of a planned replacement of `file`: the backup of the
/// old content, then the new content.
pub fn replace_actions(file: &str, plan: &ReplacePlan) -> (r: Vec<FileAction>)
    ensures
        r@.map_values(|a: FileAction| a@) == replace_actions_of(file@, plan.backup_content@, plan.new_content@),
{
    let a0 = write_action(backup_path(file), plan.backup_content.clone(), None);
    let a1 = write_action(file.to_owned(), plan.new_content.clone(), Some(error_prefix("write ", file)));
    let ghost v0 = a0@;
    let ghost v1 = a1@;
    let mut r: Vec<FileAction> = Vec::new();
    r.push(a0);
    r.push(a1);
    proof {
        let m = r@.map_values(|a: FileAction| a@);
        assert(m.len() == 2);
        assert(m[0] == v0);
        assert(m[1] == v1);
        assert(m =~= replace_actions_of(file@, plan.backup_content@, plan.new_content@));
    }
    r
}

/// The file actions of an undo of `file`, given the content of its backup
/// (`None` where there is no backup): restore the file and remove the
/// backup; without a backup, `backup not found: file.q.bak`.
pub fn undo_actions(file: &str, backup: Option<String>) -> (r: Result<Vec<FileAction>, String>)
    ensures
        match undo_actions_of(file@, match backup {
            Some(c) => Some(c@),
            None => None::<Seq<char>>,
        }) {
            Ok(acts) => r matches Ok(v) && v@.map_values(|a: FileAction| a@) == acts,
            Err(m) => r matches Err(e) && e@ == m,
        },
{
    match backup {
        None => Err(backup_missing_message(file)),
        Some(c) => {
            let ghost cv = c@;
            let a0 = write_action(file.to_owned(), c, Some(error_prefix("restore ", file)));
            let a1 = FileAction { path: backup_path(file), content: None, on_error: None };
            let ghost v0 = a0@;
            let ghost v1 = a1@;
            let mut r: Vec<FileAction> = Vec::new();
            r.push(a0);
            r.push(a1);
            proof {
                let m = r@.map_values(|a: FileAction| a@);
                assert(m.len() == 2);
                assert(m[0] == v0);
                assert(m[1] == v1);
                assert(m =~= seq![
                    (file@, Some(cv), Some("restore "@ + file@ + ": "@)),
                    (backup_path_of(file@), None::<Seq<char>>, None::<Seq<char>>),
                ]);
            }
            Ok(r)
        },
    }
}

/// The message for a replacement without the old text.
pub open spec fn old_required() -> Seq<char> {
    "old is required (use --undo without old/new)"@
}

/// The message for a replacement without the new text.
pub open spec fn new_required() -> Seq<char> {
    "new is required (use --undo without old/new)"@
}

/// The old and the new text of a replacement, both of which are required
/// unless undoing.
pub fn required_texts(old: Option<String>, new: Option<String>) -> (r: Result<(String, String), String>)
    ensures
        old is None ==> (r matches Err(m) && m@ == old_required()),
        old is Some && new is None ==> (r matches Err(m) && m@ == new_required()),
        old is Some && new is Some ==> r == Ok::<(String, String), String>((old->0, new->0)),
{
    match old {
        None => Err("old is required (use --undo without old/new)".to_owned()),
        Some(o) => match new {
            None => Err("new is required (use --undo without old/new)".to_owned()),
            Some(n) => Ok((o, n)),
        },
    }
}

} // verus!
