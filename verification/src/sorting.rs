use vstd::prelude::*;

verus! {

broadcast use vstd::multiset::group_multiset_axioms;
/// `t` with `x` inserted after every element that `x` is not less than,
/// scanning from the end: where `t` is sorted, after all elements that are
/// not greater than `x` (so equal elements keep their order).
pub open spec fn insert_by<T>(t: Seq<T>, x: T, lt: spec_fn(T, T) -> bool) -> Seq<T>
    decreases t.len(),
{
    if t.len() == 0 {
        seq![x]
    } else if !lt(x, t.last()) {
        t.push(x)
    } else {
        insert_by(t.drop_last(), x, lt).push(t.last())
    }
}

/// The stable sort of `s` by `lt`: its elements inserted one after another.
pub open spec fn sort_by<T>(s: Seq<T>, lt: spec_fn(T, T) -> bool) -> Seq<T>
    decreases s.len(),
{
    if s.len() == 0 {
        Seq::<T>::empty()
    } else {
        insert_by(sort_by(s.drop_last(), lt), s.last(), lt)
    }
}

/// Whether `lt` is a strict weak order: asymmetric, and "not less than" is
/// transitive.
pub open spec fn strict_weak<T>(lt: spec_fn(T, T) -> bool) -> bool {
    &&& forall|a: T, b: T| #[trigger] lt(a, b) ==> !lt(b, a)
    &&& forall|a: T, b: T, c: T| !#[trigger] lt(b, a) && !#[trigger] lt(c, b) ==> !lt(c, a)
}

/// Whether no element of `s` is less than one before it.
pub open spec fn sorted_by<T>(s: Seq<T>, lt: spec_fn(T, T) -> bool) -> bool {
    forall|i: int, j: int| 0 <= i < j < s.len() ==> !lt(#[trigger] s[j], #[trigger] s[i])
}

/// Inserting keeps every element: the multiset grows by `x`.
pub proof fn lemma_insert_by_multiset<T>(t: Seq<T>, x: T, lt: spec_fn(T, T) -> bool)
    ensures
        insert_by(t, x, lt).to_multiset() == t.to_multiset().insert(x),
        insert_by(t, x, lt).len() == t.len() + 1,
    decreases t.len(),
{
    broadcast use vstd::seq_lib::group_to_multiset_ensures;
    if t.len() == 0 {
        assert(seq![x] == Seq::<T>::empty().push(x));
    } else if !lt(x, t.last()) {
    } else {
        lemma_insert_by_multiset(t.drop_last(), x, lt);
        assert(t == t.drop_last().push(t.last()));
        assert(t.to_multiset() == t.drop_last().to_multiset().insert(t.last()));
    }
}

/// Inserting into a sorted sequence keeps it sorted.
pub proof fn lemma_insert_by_sorted<T>(t: Seq<T>, x: T, lt: spec_fn(T, T) -> bool)
    requires
        strict_weak(lt),
        sorted_by(t, lt),
    ensures
        sorted_by(insert_by(t, x, lt), lt),
        forall|i: int| 0 <= i < insert_by(t, x, lt).len() ==> (#[trigger] insert_by(t, x, lt)[i] == x
            || t.contains(insert_by(t, x, lt)[i])),
    decreases t.len(),
{
    lemma_insert_by_multiset(t, x, lt);
    let r = insert_by(t, x, lt);
    if t.len() == 0 {
    } else if !lt(x, t.last()) {
        assert forall|i: int, j: int| 0 <= i < j < r.len() implies !lt(#[trigger] r[j], #[trigger] r[i]) by {
            if j == t.len() {
                assert(!lt(t[t.len() - 1], t[i]) || i == t.len() - 1);
            }
        }
        assert forall|i: int| 0 <= i < r.len() implies (#[trigger] r[i] == x || t.contains(r[i])) by {
            if i < t.len() {
                assert(t[i] == r[i]);
            }
        }
    } else {
        let u = t.drop_last();
        assert(sorted_by(u, lt));
        lemma_insert_by_sorted(u, x, lt);
        let ru = insert_by(u, x, lt);
        assert(r == ru.push(t.last()));
        assert forall|i: int| 0 <= i < r.len() implies (#[trigger] r[i] == x || t.contains(r[i])) by {
            if i < ru.len() {
                assert(ru[i] == r[i]);
                if ru[i] != x {
                    assert(u.contains(ru[i]));
                    let k = choose|k: int| 0 <= k < u.len() && u[k] == ru[i];
                    assert(t[k] == ru[i]);
                }
            } else {
                assert(t[t.len() - 1] == r[i]);
            }
        }
        assert forall|i: int, j: int| 0 <= i < j < r.len() implies !lt(#[trigger] r[j], #[trigger] r[i]) by {
            if j == r.len() - 1 {
                assert(r[j] == t.last());
                assert(ru[i] == r[i]);
                if ru[i] == x {
                    // x < last, hence last is not less than x
                } else {
                    assert(u.contains(ru[i]));
                    let k = choose|k: int| 0 <= k < u.len() && u[k] == ru[i];
                    assert(t[k] == ru[i]);
                    assert(!lt(t[t.len() - 1], t[k]));
                }
            } else {
                assert(ru[i] == r[i] && ru[j] == r[j]);
            }
        }
    }
}

/// The stable sort yields a sorted permutation of its input.
pub proof fn lemma_sort_by<T>(s: Seq<T>, lt: spec_fn(T, T) -> bool)
    requires
        strict_weak(lt),
    ensures
        sorted_by(sort_by(s, lt), lt),
        sort_by(s, lt).to_multiset() == s.to_multiset(),
        sort_by(s, lt).len() == s.len(),
    decreases s.len(),
{
    broadcast use vstd::seq_lib::group_to_multiset_ensures;
    if s.len() > 0 {
        lemma_sort_by(s.drop_last(), lt);
        lemma_insert_by_sorted(sort_by(s.drop_last(), lt), s.last(), lt);
        lemma_insert_by_multiset(sort_by(s.drop_last(), lt), s.last(), lt);
        assert(s == s.drop_last().push(s.last()));
        assert(s.to_multiset() == s.drop_last().to_multiset().insert(s.last()));
    }
}

/// How `insert_by` relates to a scan from the end that stops at index `j`:
/// what lies after `j` is greater than `x`.
pub proof fn lemma_insert_scan<T>(t: Seq<T>, x: T, lt: spec_fn(T, T) -> bool, j: int)
    requires
        0 <= j < t.len(),
        lt(x, t[j]),
    ensures
        insert_by(t.take(j + 1), x, lt) == insert_by(t.take(j), x, lt).push(t[j]),
{
    assert(t.take(j + 1).drop_last() == t.take(j));
}

/// Where the scan stops, `x` goes right after the prefix.
pub proof fn lemma_insert_stop<T>(t: Seq<T>, x: T, lt: spec_fn(T, T) -> bool, j: int)
    requires
        0 <= j <= t.len(),
        j == 0 || !lt(x, t[j - 1]),
    ensures
        insert_by(t.take(j), x, lt) == t.take(j).push(x),
{
    if j > 0 {
        assert(t.take(j).last() == t[j - 1]);
    }
}

/// Values that can be sorted: a strict order on their views, decided by
/// `less`, and a way to copy a value.
pub trait Ordered: View + Sized {
    /// The strict order on views.
    spec fn lt_view(a: Self::V, b: Self::V) -> bool;

    /// Whether `self` comes before `other`.
    fn less(&self, other: &Self) -> (r: bool)
        ensures
            r == Self::lt_view(self@, other@),
    ;

    /// A copy of `self`.
    fn duplicate(&self) -> (r: Self)
        ensures
            r@ == self@,
    ;
}

/// The order of an `Ordered` type as a value.
pub open spec fn order_of<T: Ordered>() -> spec_fn(T::V, T::V) -> bool {
    |a: T::V, b: T::V| T::lt_view(a, b)
}

/// The views of the elements of `v`.
pub open spec fn views<T: View>(v: Seq<T>) -> Seq<T::V> {
    v.map_values(|x: T| x@)
}

/// Sorts `v` stably by insertion.
pub fn insertion_sort<T: Ordered>(v: &Vec<T>) -> (r: Vec<T>)
    ensures
        views(r@) == sort_by(views(v@), order_of::<T>()),
{
    let ghost vs = views(v@);
    let mut res: Vec<T> = Vec::new();
    let mut i: usize = 0;
    while i < v.len()
        invariant
            i <= v@.len(),
            vs == views(v@),
            views(res@) == sort_by(vs.take(i as int), order_of::<T>()),
        decreases v@.len() - i,
    {
        let x = v[i].duplicate();
        let ghost rs = views(res@);
        let ghost xv = x@;
        proof {
            assert(vs.take(i + 1).drop_last() == vs.take(i as int));
            assert(vs.take(i + 1).last() == xv);
            assert(rs.take(rs.len() as int) == rs);
            assert(rs.skip(rs.len() as int) == Seq::<T::V>::empty());
        }
        let mut j: usize = res.len();
        while j > 0 && x.less(&res[j - 1])
            invariant
                j <= res@.len(),
                rs == views(res@),
                xv == x@,
                insert_by(rs, xv, order_of::<T>()) == insert_by(rs.take(j as int), xv, order_of::<T>()) + rs.skip(j as int),
            decreases j,
        {
            proof {
                assert(order_of::<T>()(xv, rs[j - 1]));
                lemma_insert_scan(rs, xv, order_of::<T>(), j - 1);
                assert(rs.skip(j - 1) == seq![rs[j - 1]] + rs.skip(j as int));
            }
            j = j - 1;
        }
        proof {
            if j > 0 {
                assert(!order_of::<T>()(xv, rs[j - 1]));
            }
            lemma_insert_stop(rs, xv, order_of::<T>(), j as int);
        }
        res.insert(j, x);
        proof {
            assert(views(res@) == rs.take(j as int).push(xv) + rs.skip(j as int));
        }
        i = i + 1;
    }
    proof {
        assert(vs.take(v@.len() as int) == vs);
    }
    res
}

} // verus!
