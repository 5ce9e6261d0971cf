use vstd::prelude::*;
use crate::chars::{bytes_lt, str_lt, to_chars};
use crate::engines::{all_defined, selected_globs, type_globs, type_selections, typed_globs_build, types_selected, with_default_types, any_glob_matches, glob_set_is_match, ignore_error_text, prefixed, set_globs, starts_with, type_error_prefix, types_builder_add_defaults, types_builder_build, types_builder_new, types_builder_select};
use crate::sorting::{insertion_sort, order_of, sort_by, Ordered};
use crate::text::{join, join_strings, split_char, trim_chars, trim_of};
use vstd::utf8::encode_utf8;

verus! {

/// The trimmed, non-empty pieces among `ps`, in order.
pub open spec fn nonempty_trimmed(ps: Seq<Seq<char>>) -> Seq<Seq<char>>
    decreases ps.len(),
{
    if ps.len() == 0 {
        Seq::<Seq<char>>::empty()
    } else {
        let rest = nonempty_trimmed(ps.drop_last());
        let t = trim_of(ps.last());
        if t.len() == 0 {
            rest
        } else {
            rest.push(t)
        }
    }
}

/// The file type names in a `--type` list: the comma-separated names,
/// trimmed, without empty ones.
pub open spec fn type_selection_of(s: Seq<char>) -> Seq<Seq<char>> {
    nonempty_trimmed(split_char(s, ','))
}

/// The file type names of a `--type` list such as `rs, py,,ts`.
pub fn type_selection(type_names: &str) -> (r: Vec<String>)
    ensures
        r@.map_values(|t: String| t@) == type_selection_of(type_names@),
{
    let cs = to_chars(type_names);
    let mut done: Vec<String> = Vec::new();
    let mut start: usize = 0;
    let mut i: usize = 0;
    proof {
        assert(cs@.take(0) == Seq::<char>::empty());
        assert(cs@.subrange(0, 0) == Seq::<char>::empty());
    }
    while i < cs.len()
        invariant
            cs@ == type_names@,
            start <= i <= cs@.len(),
            done@.map_values(|t: String| t@) == nonempty_trimmed(split_char(cs@.take(i as int), ',').drop_last()),
            cs@.subrange(start as int, i as int) == split_char(cs@.take(i as int), ',').last(),
        decreases cs@.len() - i,
    {
        proof {
            crate::text::lemma_split_nonempty(cs@.take(i as int), ',');
            assert(cs@.take(i + 1).drop_last() == cs@.take(i as int));
        }
        if cs[i] == ',' {
            let piece = trim_chars(&cs.as_slice()[start..i]);
            let ghost before = done@.map_values(|t: String| t@);
            proof {
                let prev = split_char(cs@.take(i as int), ',');
                let next = split_char(cs@.take(i + 1), ',');
                assert(next == prev.push(Seq::<char>::empty()));
                assert(next.drop_last() == prev);
                assert(prev == prev.drop_last().push(prev.last()));
            }
            if piece.as_str().is_empty() {
            } else {
                done.push(piece);
                proof {
                    assert(done@.map_values(|t: String| t@) == before.push(piece@));
                }
            }
            start = i + 1;
            proof {
                assert(cs@.subrange(start as int, i + 1) == Seq::<char>::empty());
            }
        } else {
            proof {
                let prev = split_char(cs@.take(i as int), ',');
                let next = split_char(cs@.take(i + 1), ',');
                assert(next.drop_last() == prev.drop_last());
                assert(cs@.subrange(start as int, i + 1) == cs@.subrange(start as int, i as int).push(cs@[i as int]));
            }
        }
        i = i + 1;
    }
    proof {
        assert(cs@.take(cs@.len() as int) == cs@);
        crate::text::lemma_split_nonempty(cs@, ',');
        let ps = split_char(cs@, ',');
        assert(ps == ps.drop_last().push(ps.last()));
        assert(ps.drop_last().push(ps.last()).drop_last() == ps.drop_last());
    }
    let last = trim_chars(&cs.as_slice()[start..cs.len()]);
    if !last.as_str().is_empty() {
        let ghost before = done@.map_values(|t: String| t@);
        done.push(last);
        proof {
            assert(done@.map_values(|t: String| t@) == before.push(last@));
        }
    }
    done
}

/// Whether some name other than `all` is not among the defined types.
pub open spec fn names_unknown(names: Seq<Seq<char>>, defined: Set<Seq<char>>) -> bool {
    exists|i: int| 0 <= i < names.len() && names[i] != "all"@ && !defined.contains(#[trigger] names[i])
}

/// What selecting `names` one after another selects, where `fills[i]`
/// stands for the names that `all` at position `i` selects.
pub open spec fn expand(names: Seq<Seq<char>>, fills: Seq<Seq<Seq<char>>>) -> Seq<Seq<char>>
    decreases names.len(),
{
    if names.len() == 0 {
        Seq::<Seq<char>>::empty()
    } else if names.last() == "all"@ {
        expand(names.drop_last(), fills) + fills[names.len() - 1]
    } else {
        expand(names.drop_last(), fills).push(names.last())
    }
}

/// Whether each `all` among `names` is filled with every defined name once
/// each, in some order.
pub open spec fn fills_ok(names: Seq<Seq<char>>, fills: Seq<Seq<Seq<char>>>, defined: Set<Seq<char>>) -> bool {
    &&& fills.len() == names.len()
    &&& forall|i: int| 0 <= i < names.len() && names[i] == "all"@ ==> fill_ok(#[trigger] fills[i], defined)
}

/// Whether `f` holds every defined name once each.
pub open spec fn fill_ok(f: Seq<Seq<char>>, defined: Set<Seq<char>>) -> bool {
    f.no_duplicates() && f.to_set() == defined
}

/// Whether `s` is what selecting `names` one after another selects: each
/// name itself, except `all`, which selects every defined name once each,
/// in some order.
pub open spec fn selection_of(names: Seq<Seq<char>>, s: Seq<Seq<char>>, defined: Set<Seq<char>>) -> bool {
    exists|fills: Seq<Seq<Seq<char>>>| fills_ok(names, fills, defined) && #[trigger] expand(names, fills) == s
}

/// The default file type definitions.
pub open spec fn default_types() -> Map<Seq<char>, Seq<Seq<char>>> {
    with_default_types(Map::<Seq<char>, Seq<Seq<char>>>::empty())
}

/// `expand` reads only the fills of the positions of `names`.
proof fn lemma_expand_prefix(names: Seq<Seq<char>>, f1: Seq<Seq<Seq<char>>>, f2: Seq<Seq<Seq<char>>>)
    requires
        forall|j: int| 0 <= j < names.len() ==> f1[j] == f2[j],
    ensures
        expand(names, f1) == expand(names, f2),
    decreases names.len(),
{
    if names.len() > 0 {
        lemma_expand_prefix(names.drop_last(), f1, f2);
        assert(f1[names.len() - 1] == f2[names.len() - 1]);
    }
}

/// What `names` selects leaves some name undefined exactly when a name
/// other than `all` is not defined.
proof fn lemma_selection_defined(names: Seq<Seq<char>>, fills: Seq<Seq<Seq<char>>>, defined: Set<Seq<char>>)
    requires
        fills_ok(names, fills, defined),
    ensures
        all_defined(expand(names, fills), defined) <==> !names_unknown(names, defined),
    decreases names.len(),
{
    if names.len() > 0 {
        let prev = names.drop_last();
        let n = names.last();
        let last = names.len() - 1;
        assert(names[last] == n);
        let pf = fills.take(prev.len() as int);
        assert forall|i: int| 0 <= i < prev.len() && prev[i] == "all"@ implies fill_ok(#[trigger] pf[i], defined) by {
            assert(names[i] == prev[i]);
            assert(pf[i] == fills[i]);
        }
        assert(fills_ok(prev, pf, defined));
        lemma_expand_prefix(prev, fills, fills.take(prev.len() as int));
        lemma_selection_defined(prev, fills.take(prev.len() as int), defined);
        let t = expand(prev, fills);
        let s = expand(names, fills);
        if names_unknown(prev, defined) {
            let i = choose|i: int| 0 <= i < prev.len() && prev[i] != "all"@ && !defined.contains(#[trigger] prev[i]);
            assert(names[i] == prev[i]);
        }
        if names_unknown(names, defined) {
            let i = choose|i: int| 0 <= i < names.len() && names[i] != "all"@ && !defined.contains(#[trigger] names[i]);
            if i < prev.len() {
                assert(prev[i] == names[i]);
            }
        }
        if n == "all"@ {
            let f = fills[last];
            assert(fill_ok(f, defined));
            assert(s == t + f);
            assert forall|i: int| 0 <= i < f.len() implies defined.contains(#[trigger] f[i]) by {
                assert(f.to_set().contains(f[i]));
            }
            if all_defined(t, defined) {
                assert forall|i: int| 0 <= i < s.len() implies defined.contains(#[trigger] s[i]) by {
                    if i < t.len() {
                        assert(s[i] == t[i]);
                    } else {
                        assert(s[i] == f[i - t.len()]);
                    }
                }
            } else {
                let i = choose|i: int| 0 <= i < t.len() && !defined.contains(#[trigger] t[i]);
                assert(s[i] == t[i]);
            }
        } else {
            assert(s == t.push(n));
            if all_defined(t, defined) && defined.contains(n) {
                assert forall|i: int| 0 <= i < s.len() implies defined.contains(#[trigger] s[i]) by {
                    if i < t.len() {
                        assert(s[i] == t[i]);
                    }
                }
            } else if !defined.contains(n) {
                assert(!defined.contains(s[s.len() - 1]));
            } else {
                let i = choose|i: int| 0 <= i < t.len() && !defined.contains(#[trigger] t[i]);
                assert(s[i] == t[i]);
            }
        }
    }
}

/// Without `all`, the names select exactly themselves.
proof fn lemma_selection_plain(names: Seq<Seq<char>>, fills: Seq<Seq<Seq<char>>>)
    requires
        !names.contains("all"@),
    ensures
        expand(names, fills) == names,
    decreases names.len(),
{
    if names.len() > 0 {
        let prev = names.drop_last();
        assert(names[names.len() - 1] == names.last());
        assert forall|i: int| 0 <= i < prev.len() implies prev[i] != "all"@ by {
            assert(prev[i] == names[i]);
        }
        lemma_selection_plain(prev, fills);
        assert(names == prev.push(names.last()));
    }
}

/// The file type filter of a `--type` list: none for an empty list, else
/// the default file types with the named ones selected, in order (`all`
/// selects every one). It is built exactly when every name other than
/// `all` is a default file type and the globs of the selected types build;
/// otherwise the message is `type error: ...`.
pub fn build_type_matcher(type_names: &str) -> (r: Result<Option<ignore::types::Types>, String>)
    ensures
        type_names@.len() == 0 ==> r matches Ok(None),
        type_names@.len() > 0 ==> exists|s: Seq<Seq<char>>|
            #[trigger] selection_of(type_selection_of(type_names@), s, default_types().dom())
            && (r is Ok <==> !names_unknown(type_selection_of(type_names@), default_types().dom())
                && typed_globs_build(selected_globs(s, default_types())))
            && (r matches Ok(Some(t)) ==> types_selected(t) == s)
            && !(r matches Ok(None)),
        type_names@.len() > 0 && !type_selection_of(type_names@).contains("all"@) ==> {
            &&& r is Ok <==> !names_unknown(type_selection_of(type_names@), default_types().dom())
                && typed_globs_build(selected_globs(type_selection_of(type_names@), default_types()))
            &&& r matches Ok(Some(t)) ==> types_selected(t) == type_selection_of(type_names@)
        },
        type_names@.len() > 0 && names_unknown(type_selection_of(type_names@), default_types().dom()) ==> r is Err,
        r matches Err(m) ==> starts_with(m@, type_error_prefix()),
{
    if type_names.is_empty() {
        return Ok(None);
    }
    let mut tb = types_builder_new();
    proof {
        assert(type_globs(tb) =~= Map::<Seq<char>, Seq<Seq<char>>>::empty());
    }
    types_builder_add_defaults(&mut tb);
    let ghost defs = default_types();
    let names = type_selection(type_names);
    let ghost ns = names@.map_values(|t: String| t@);
    let ghost mut fills: Seq<Seq<Seq<char>>> = Seq::empty();
    let mut i: usize = 0;
    while i < names.len()
        invariant
            i <= names@.len(),
            ns == names@.map_values(|t: String| t@),
            type_globs(tb) == defs,
            fills_ok(ns.take(i as int), fills, defs.dom()),
            expand(ns.take(i as int), fills) == type_selections(tb),
        decreases names@.len() - i,
    {
        let ghost before = type_selections(tb);
        types_builder_select(&mut tb, names[i].as_str());
        proof {
            let after = type_selections(tb);
            let cur = ns.take(i + 1);
            let fill = if ns[i as int] == "all"@ {
                after.skip(before.len() as int)
            } else {
                Seq::<Seq<char>>::empty()
            };
            let nf = fills.push(fill);
            assert(ns.len() == names@.len());
            assert(cur.len() == nf.len());
            assert(names@[i as int]@ == ns[i as int]);
            assert(cur.drop_last() == ns.take(i as int));
            assert(cur.last() == ns[i as int]);
            lemma_expand_prefix(ns.take(i as int), fills, nf);
            assert forall|j: int| 0 <= j < cur.len() && cur[j] == "all"@ implies fill_ok(#[trigger] nf[j], defs.dom()) by {
                if j < i {
                    assert(cur[j] == ns.take(i as int)[j]);
                    assert(nf[j] == fills[j]);
                } else {
                    assert(cur[j] == ns[i as int]);
                    assert(nf[j] == fill);
                }
            }
            if ns[i as int] == "all"@ {
                assert(after == before + fill);
            }
            assert(expand(cur, nf) == after);
            fills = nf;
        }
        i = i + 1;
    }
    proof {
        assert(ns.take(ns.len() as int) == ns);
        lemma_selection_defined(ns, fills, defs.dom());
        assert(selection_of(ns, type_selections(tb), defs.dom()));
        if !ns.contains("all"@) {
            lemma_selection_plain(ns, fills);
        }
    }
    match types_builder_build(&tb) {
        Ok(t) => Ok(Some(t)),
        Err(e) => Err(prefixed("type error: ", ignore_error_text(&e))),
    }
}

/// The order of found paths: bytewise, as `String`s sort.
pub open spec fn path_lt(a: Seq<char>, b: Seq<char>) -> bool {
    bytes_lt(encode_utf8(a), encode_utf8(b))
}

/// `path_lt` as a value.
pub open spec fn path_order() -> spec_fn(Seq<char>, Seq<char>) -> bool {
    order_of::<String>()
}

impl Ordered for String {
    open spec fn lt_view(a: Seq<char>, b: Seq<char>) -> bool {
        path_lt(a, b)
    }

    fn less(&self, other: &Self) -> (r: bool) {
        str_lt(self.as_str(), other.as_str())
    }

    fn duplicate(&self) -> (r: Self) {
        self.clone()
    }
}

/// Sorts strings bytewise (as `Vec<String>::sort` does).
pub fn sort_paths(v: &Vec<String>) -> (r: Vec<String>)
    ensures
        r@.map_values(|p: String| p@) == sort_by(v@.map_values(|p: String| p@), path_order()),
{
    insertion_sort(v)
}

/// The paths among `ps` that some of the globs matches, in order.
pub open spec fn matching_paths(globs: Seq<Seq<char>>, ps: Seq<Seq<char>>) -> Seq<Seq<char>>
    decreases ps.len(),
{
    if ps.len() == 0 {
        Seq::<Seq<char>>::empty()
    } else if any_glob_matches(globs, ps.last()) {
        matching_paths(globs, ps.drop_last()).push(ps.last())
    } else {
        matching_paths(globs, ps.drop_last())
    }
}

/// The paths that the glob set matches, sorted bytewise.
pub fn select_paths(set: &globset::GlobSet, paths: &Vec<String>) -> (r: Vec<String>)
    ensures
        r@.map_values(|p: String| p@) == sort_by(
            matching_paths(set_globs(*set), paths@.map_values(|p: String| p@)),
            path_order(),
        ),
{
    let ghost ps = paths@.map_values(|p: String| p@);
    let mut kept: Vec<String> = Vec::new();
    let mut i: usize = 0;
    while i < paths.len()
        invariant
            i <= paths@.len(),
            ps == paths@.map_values(|p: String| p@),
            kept@.map_values(|p: String| p@) == matching_paths(set_globs(*set), ps.take(i as int)),
        decreases paths@.len() - i,
    {
        proof {
            assert(ps.take(i + 1).drop_last() == ps.take(i as int));
            assert(ps.take(i + 1).last() == paths@[i as int]@);
        }
        if glob_set_is_match(set, paths[i].as_str()) {
            let ghost before = kept@.map_values(|p: String| p@);
            kept.push(paths[i].clone());
            proof {
                assert(kept@.map_values(|p: String| p@) == before.push(paths@[i as int]@));
            }
        }
        i = i + 1;
    }
    proof {
        assert(ps.take(paths@.len() as int) == ps);
    }
    sort_paths(&kept)
}

/// Whether the glob set matches `path` (the `--glob` filter of `search`).
pub fn glob_keeps(set: &globset::GlobSet, path: &str) -> (b: bool)
    ensures
        b == any_glob_matches(set_globs(*set), path@),
{
    glob_set_is_match(set, path)
}

/// The plain output of `find`: the paths, one per line.
pub fn find_text(files: &Vec<String>) -> (r: String)
    ensures
        r@ == join(files@.map_values(|p: String| p@), "\n"@),
{
    join_strings(files, "\n")
}

} // verus!
