use vstd::prelude::*;
use crate::chars::{bytes_less, bytes_lt, copy_bytes, from_chars, to_chars};
use crate::sorting::{insertion_sort, order_of, sort_by, views, Ordered};
use crate::text::{decimal, decimal_of, join, join_strings, split_char, trim_end, trim_end_of};

verus! {

// ── tree ─────────────────────────────────────────────────────────────────────

/// Whether a directory entry of this name is walked into and shown by
/// `tree` (`.git`, `node_modules` and `target` are left out).
pub open spec fn kept_in_tree(name: Seq<char>) -> bool {
    name != ".git"@ && name != "node_modules"@ && name != "target"@
}

/// Whether `tree` keeps an entry of this name.
pub fn keep_in_tree(name: &str) -> (b: bool)
    ensures
        b == kept_in_tree(name@),
{
    let n = name.to_owned();
    !(n == ".git".to_owned() || n == "node_modules".to_owned() || n == "target".to_owned())
}

/// An entry found by `tree`: its path relative to the root, whether it is a
/// directory, and its depth below the root (the root itself has depth 0 and
/// an empty path).
pub struct TreeEntry {
    pub path: String,
    pub is_dir: bool,
    pub depth: usize,
}

/// A tree entry as plain values: path, directory flag, depth.
pub type TreeView = (Seq<char>, bool, usize);

impl View for TreeEntry {
    type V = TreeView;

    open spec fn view(&self) -> TreeView {
        (self.path@, self.is_dir, self.depth)
    }
}

/// The entries that are shown: all, or with `dirs_only` the directories.
pub open spec fn shown_entries(es: Seq<TreeView>, dirs_only: bool) -> Seq<TreeView>
    decreases es.len(),
{
    if es.len() == 0 {
        Seq::<TreeView>::empty()
    } else if dirs_only && !es.last().1 {
        shown_entries(es.drop_last(), dirs_only)
    } else {
        shown_entries(es.drop_last(), dirs_only).push(es.last())
    }
}

/// The entries that `tree` shows, in the order found.
pub fn tree_entries(raw: &Vec<TreeEntry>, dirs_only: bool) -> (r: Vec<TreeEntry>)
    ensures
        views(r@) == shown_entries(views(raw@), dirs_only),
{
    let ghost es = views(raw@);
    let mut out: Vec<TreeEntry> = Vec::new();
    let mut i: usize = 0;
    while i < raw.len()
        invariant
            i <= raw@.len(),
            es == views(raw@),
            views(out@) == shown_entries(es.take(i as int), dirs_only),
        decreases raw@.len() - i,
    {
        proof {
            assert(es.take(i + 1).drop_last() == es.take(i as int));
            assert(es.take(i + 1).last() == raw@[i as int]@);
        }
        let e = &raw[i];
        if !(dirs_only && !e.is_dir) {
            let ghost before = views(out@);
            out.push(TreeEntry { path: e.path.clone(), is_dir: e.is_dir, depth: e.depth });
            proof {
                assert(views(out@) == before.push(raw@[i as int]@));
            }
        }
        i = i + 1;
    }
    proof {
        assert(es.take(raw@.len() as int) == es);
    }
    out
}

/// `s` repeated `n` times (`str::repeat`).
pub open spec fn repeat(s: Seq<char>, n: nat) -> Seq<char>
    decreases n,
{
    if n == 0 {
        Seq::<char>::empty()
    } else {
        repeat(s, (n - 1) as nat) + s
    }
}

/// The last `'/'`-separated segment of a path (`rsplit('/').next()`).
pub open spec fn last_segment(path: Seq<char>) -> Seq<char> {
    split_char(path, '/').last()
}

/// One line of `tree`: two spaces per level below the first, two more,
/// the last segment of the path, and `/` for a directory.
pub open spec fn tree_line(e: TreeView) -> Seq<char> {
    let levels: nat = if e.2 == 0 { 0 } else { (e.2 - 1) as nat };
    repeat("  "@, levels) + "  "@ + last_segment(e.0) + (if e.1 { "/"@ } else { Seq::<char>::empty() }) + "\n"@
}

/// The lines of `tree` for all entries but those with an empty path.
pub open spec fn tree_body(es: Seq<TreeView>) -> Seq<char>
    decreases es.len(),
{
    if es.len() == 0 {
        Seq::<char>::empty()
    } else {
        tree_body(es.drop_last()) + (if es.last().0.len() == 0 { Seq::<char>::empty() } else { tree_line(es.last()) })
    }
}

/// The plain output of `tree`: nothing without entries, else the root
/// followed by `/` and one line per entry, without trailing white space.
pub open spec fn tree_text_of(root: Seq<char>, es: Seq<TreeView>) -> Seq<char> {
    if es.len() == 0 {
        Seq::<char>::empty()
    } else {
        trim_end_of(root + "/\n"@ + tree_body(es))
    }
}

/// The last segment of a path.
pub fn last_path_segment(path: &str) -> (r: String)
    ensures
        r@ == last_segment(path@),
{
    let cs = to_chars(path);
    let mut start: usize = 0;
    let mut i: usize = 0;
    proof {
        assert(cs@.take(0) == Seq::<char>::empty());
        assert(cs@.subrange(0, 0) == Seq::<char>::empty());
    }
    while i < cs.len()
        invariant
            cs@ == path@,
            start <= i <= cs@.len(),
            cs@.subrange(start as int, i as int) == split_char(cs@.take(i as int), '/').last(),
        decreases cs@.len() - i,
    {
        proof {
            crate::text::lemma_split_nonempty(cs@.take(i as int), '/');
            assert(cs@.take(i + 1).drop_last() == cs@.take(i as int));
        }
        if cs[i] == '/' {
            start = i + 1;
            proof {
                assert(cs@.subrange(start as int, i + 1) == Seq::<char>::empty());
            }
        } else {
            proof {
                assert(cs@.subrange(start as int, i + 1) == cs@.subrange(start as int, i as int).push(cs@[i as int]));
            }
        }
        i = i + 1;
    }
    proof {
        assert(cs@.take(cs@.len() as int) == cs@);
    }
    from_chars(&cs.as_slice()[start..cs.len()])
}

fn push_repeat(out: &mut String, s: &str, n: usize)
    ensures
        final(out)@ == old(out)@ + repeat(s@, n as nat),
{
    let mut k: usize = 0;
    while k < n
        invariant
            k <= n,
            out@ == old(out)@ + repeat(s@, k as nat),
        decreases n - k,
    {
        out.append(s);
        k = k + 1;
    }
}

/// Renders the entries of `tree` below the root `root`.
pub fn render_tree(root: &str, entries: &Vec<TreeEntry>) -> (r: String)
    ensures
        r@ == tree_text_of(root@, views(entries@)),
{
    if entries.len() == 0 {
        return String::new();
    }
    let ghost es = views(entries@);
    let mut out = root.to_owned();
    out.append("/\n");
    let mut i: usize = 0;
    while i < entries.len()
        invariant
            i <= entries@.len(),
            es == views(entries@),
            out@ == root@ + "/\n"@ + tree_body(es.take(i as int)),
        decreases entries@.len() - i,
    {
        let e = &entries[i];
        proof {
            assert(es.take(i + 1).drop_last() == es.take(i as int));
            assert(es.take(i + 1).last() == e@);
        }
        if !e.path.as_str().is_empty() {
            let levels: usize = if e.depth == 0 { 0 } else { e.depth - 1 };
            push_repeat(&mut out, "  ", levels);
            out.append("  ");
            out.append(last_path_segment(e.path.as_str()).as_str());
            if e.is_dir {
                out.append("/");
            }
            out.append("\n");
        }
        i = i + 1;
    }
    proof {
        assert(es.take(entries@.len() as int) == es);
    }
    trim_end(out.as_str())
}

// ── ls ───────────────────────────────────────────────────────────────────────

/// An entry of a directory listing: its name as shown, whether it is a
/// directory, its size and modification time where they could be read, and
/// the bytes of its name as the file system gives them (by which entries
/// are ordered).
pub struct LsEntry {
    pub name: String,
    pub is_dir: bool,
    pub size: Option<u64>,
    pub modified: Option<String>,
    pub raw_name: Vec<u8>,
}

/// A listing entry as plain values: name, directory, size, modification
/// time, name bytes.
pub type LsView = (Seq<char>, bool, Option<u64>, Option<Seq<char>>, Seq<u8>);

impl View for LsEntry {
    type V = LsView;

    open spec fn view(&self) -> LsView {
        (self.name@, self.is_dir, self.size, match self.modified {
            Some(m) => Some(m@),
            None => None,
        }, self.raw_name@)
    }
}

impl Ordered for LsEntry {
    open spec fn lt_view(a: LsView, b: LsView) -> bool {
        bytes_lt(a.4, b.4)
    }

    fn less(&self, other: &Self) -> (r: bool) {
        bytes_less(self.raw_name.as_slice(), other.raw_name.as_slice())
    }

    fn duplicate(&self) -> (r: Self) {
        LsEntry {
            name: self.name.clone(),
            is_dir: self.is_dir,
            size: self.size,
            modified: match &self.modified {
                Some(m) => Some(m.clone()),
                None => None,
            },
            raw_name: copy_bytes(&self.raw_name),
        }
    }
}

/// Whether `ls` shows an entry: with `all` every one, else those whose name
/// does not start with `.`.
pub open spec fn visible(name: Seq<char>, all: bool) -> bool {
    all || !(name.len() > 0 && name[0] == '.')
}

/// The visible entries among `es`, in order.
pub open spec fn visible_entries(es: Seq<LsView>, all: bool) -> Seq<LsView>
    decreases es.len(),
{
    if es.len() == 0 {
        Seq::<LsView>::empty()
    } else if visible(es.last().0, all) {
        visible_entries(es.drop_last(), all).push(es.last())
    } else {
        visible_entries(es.drop_last(), all)
    }
}

fn starts_with_dot(name: &str) -> (b: bool)
    ensures
        b == (name@.len() > 0 && name@[0] == '.'),
{
    let cs = to_chars(name);
    cs.len() > 0 && cs[0] == '.'
}

/// The entries that `ls` shows: sorted by the bytes of their names, hidden
/// ones left out unless `all`.
pub fn ls_entries(raw: &Vec<LsEntry>, all: bool) -> (r: Vec<LsEntry>)
    ensures
        views(r@) == visible_entries(sort_by(views(raw@), order_of::<LsEntry>()), all),
{
    let sorted = insertion_sort(raw);
    let ghost es = views(sorted@);
    let mut out: Vec<LsEntry> = Vec::new();
    let mut i: usize = 0;
    while i < sorted.len()
        invariant
            i <= sorted@.len(),
            es == views(sorted@),
            views(out@) == visible_entries(es.take(i as int), all),
        decreases sorted@.len() - i,
    {
        proof {
            assert(es.take(i + 1).drop_last() == es.take(i as int));
            assert(es.take(i + 1).last() == sorted@[i as int]@);
        }
        if all || !starts_with_dot(sorted[i].name.as_str()) {
            let ghost before = views(out@);
            out.push(sorted[i].duplicate());
            proof {
                assert(views(out@) == before.push(sorted@[i as int]@));
            }
        }
        i = i + 1;
    }
    proof {
        assert(es.take(sorted@.len() as int) == es);
    }
    out
}

/// `d` right-aligned in a field of `width` characters (`{:>width}`).
pub open spec fn pad_left(d: Seq<char>, width: nat) -> Seq<char> {
    if d.len() < width {
        repeat(" "@, (width - d.len()) as nat) + d
    } else {
        d
    }
}

/// One line of `ls -l`: size (right-aligned in 8, `-` where unknown),
/// modification time (`-` where unknown), name, and `/` for a directory.
pub open spec fn ls_long_line(e: LsView) -> Seq<char> {
    (match e.2 {
        Some(s) => pad_left(decimal_of(s as nat), 8),
        None => "       -"@,
    }) + " "@ + (match e.3 {
        Some(m) => m,
        None => "-"@,
    }) + " "@ + e.0 + (if e.1 { "/"@ } else { Seq::<char>::empty() }) + "\n"@
}

/// The lines of `ls -l` for all entries.
pub open spec fn ls_long_body(es: Seq<LsView>) -> Seq<char>
    decreases es.len(),
{
    if es.len() == 0 {
        Seq::<char>::empty()
    } else {
        ls_long_body(es.drop_last()) + ls_long_line(es.last())
    }
}

fn padded_size(size: Option<u64>) -> (r: String)
    ensures
        r@ == (match size {
            Some(s) => pad_left(decimal_of(s as nat), 8),
            None => "       -"@,
        }),
{
    match size {
        Some(s) => {
            let d = decimal(s);
            let n = d.as_str().unicode_len();
            let mut out = String::new();
            if n < 8 {
                push_repeat(&mut out, " ", 8 - n);
            }
            out.append(d.as_str());
            out
        },
        None => "       -".to_owned(),
    }
}

fn ls_long_line_text(e: &LsEntry) -> (r: String)
    ensures
        r@ == ls_long_line(e@),
{
    let mut out = padded_size(e.size);
    out.append(" ");
    match &e.modified {
        Some(m) => out.append(m.as_str()),
        None => out.append("-"),
    }
    out.append(" ");
    out.append(e.name.as_str());
    if e.is_dir {
        out.append("/");
    }
    out.append("\n");
    out
}

/// The output of `ls -l`, without trailing white space.
pub fn render_ls_long(entries: &Vec<LsEntry>) -> (r: String)
    ensures
        r@ == trim_end_of(ls_long_body(views(entries@))),
{
    let ghost es = views(entries@);
    let mut out = String::new();
    let mut i: usize = 0;
    while i < entries.len()
        invariant
            i <= entries@.len(),
            es == views(entries@),
            out@ == ls_long_body(es.take(i as int)),
        decreases entries@.len() - i,
    {
        proof {
            assert(es.take(i + 1).drop_last() == es.take(i as int));
            assert(es.take(i + 1).last() == entries@[i as int]@);
        }
        let line = ls_long_line_text(&entries[i]);
        out.append(line.as_str());
        i = i + 1;
    }
    proof {
        assert(es.take(entries@.len() as int) == es);
    }
    trim_end(out.as_str())
}

/// How `ls` shows a name: with `/` after a directory.
pub open spec fn ls_short_name(e: LsView) -> Seq<char> {
    e.0 + (if e.1 { "/"@ } else { Seq::<char>::empty() })
}

/// The output of `ls`: the names, separated by two spaces.
pub fn render_ls_short(entries: &Vec<LsEntry>) -> (r: String)
    ensures
        r@ == join(views(entries@).map_values(|e: LsView| ls_short_name(e)), "  "@),
{
    let mut names: Vec<String> = Vec::new();
    let mut i: usize = 0;
    while i < entries.len()
        invariant
            i <= entries@.len(),
            names@.map_values(|n: String| n@) == views(entries@).take(i as int).map_values(|e: LsView| ls_short_name(e)),
        decreases entries@.len() - i,
    {
        let e = &entries[i];
        let mut n = e.name.clone();
        if e.is_dir {
            n.append("/");
        }
        let ghost before = names@.map_values(|n: String| n@);
        names.push(n);
        proof {
            assert(views(entries@).take(i + 1) == views(entries@).take(i as int).push(e@));
            assert(names@.map_values(|n: String| n@) == before.push(ls_short_name(e@)));
        }
        i = i + 1;
    }
    proof {
        assert(views(entries@).take(entries@.len() as int) == views(entries@));
    }
    join_strings(&names, "  ")
}

} // verus!
