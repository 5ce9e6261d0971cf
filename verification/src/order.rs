use vstd::prelude::*;
use crate::chars::bytes_lt;
use crate::find::{path_lt, path_order};
use crate::search::{match_lt, match_order, MatchView};
use crate::sorting::strict_weak;
use vstd::utf8::encode_utf8;

verus! {

/// No byte sequence comes before itself.
pub proof fn lemma_bytes_lt_irreflexive(a: Seq<u8>)
    ensures
        !bytes_lt(a, a),
    decreases a.len(),
{
    if a.len() > 0 {
        lemma_bytes_lt_irreflexive(a.drop_first());
    }
}

/// Of two byte sequences, at most one comes before the other.
pub proof fn lemma_bytes_lt_asymmetric(a: Seq<u8>, b: Seq<u8>)
    ensures
        bytes_lt(a, b) ==> !bytes_lt(b, a),
    decreases a.len(),
{
    if a.len() > 0 && b.len() > 0 && a[0] == b[0] {
        lemma_bytes_lt_asymmetric(a.drop_first(), b.drop_first());
    }
}

/// The byte order is transitive.
pub proof fn lemma_bytes_lt_transitive(a: Seq<u8>, b: Seq<u8>, c: Seq<u8>)
    ensures
        bytes_lt(a, b) && bytes_lt(b, c) ==> bytes_lt(a, c),
    decreases a.len(),
{
    if a.len() > 0 && b.len() > 0 && c.len() > 0 {
        lemma_bytes_lt_transitive(a.drop_first(), b.drop_first(), c.drop_first());
    }
}

/// Of two different byte sequences, one comes before the other.
pub proof fn lemma_bytes_lt_total(a: Seq<u8>, b: Seq<u8>)
    ensures
        a != b ==> bytes_lt(a, b) || bytes_lt(b, a),
    decreases a.len(),
{
    if a.len() > 0 && b.len() > 0 && a[0] == b[0] {
        lemma_bytes_lt_total(a.drop_first(), b.drop_first());
        if a.drop_first() == b.drop_first() {
            assert(a == seq![a[0]] + a.drop_first());
            assert(b == seq![b[0]] + b.drop_first());
        }
    } else if a.len() == 0 && b.len() == 0 {
        assert(a == b);
    }
}

/// Different strings have different UTF-8 encodings.
pub proof fn lemma_encode_injective(a: Seq<char>, b: Seq<char>)
    ensures
        encode_utf8(a) == encode_utf8(b) ==> a == b,
{
    vstd::utf8::encode_utf8_decode_utf8(a);
    vstd::utf8::encode_utf8_decode_utf8(b);
}

proof fn lemma_path_not_less(a: Seq<char>, b: Seq<char>)
    ensures
        !path_lt(b, a) <==> (path_lt(a, b) || a == b),
{
    lemma_bytes_lt_asymmetric(encode_utf8(a), encode_utf8(b));
    lemma_bytes_lt_total(encode_utf8(a), encode_utf8(b));
    lemma_bytes_lt_irreflexive(encode_utf8(a));
    lemma_encode_injective(a, b);
}

/// The bytewise order of paths is a strict weak order.
pub proof fn lemma_path_order_strict_weak()
    ensures
        strict_weak(path_order()),
{
    assert forall|a: Seq<char>, b: Seq<char>| #[trigger] path_order()(a, b) implies !path_order()(b, a) by {
        lemma_bytes_lt_asymmetric(encode_utf8(a), encode_utf8(b));
    }
    assert forall|a: Seq<char>, b: Seq<char>, c: Seq<char>|
        !#[trigger] path_order()(b, a) && !#[trigger] path_order()(c, b) implies !path_order()(c, a) by {
        lemma_path_not_less(a, b);
        lemma_path_not_less(b, c);
        lemma_path_not_less(a, c);
        lemma_bytes_lt_transitive(encode_utf8(a), encode_utf8(b), encode_utf8(c));
    }
}

proof fn lemma_match_not_less(a: MatchView, b: MatchView)
    ensures
        !match_lt(b, a) <==> (path_lt(a.0, b.0) || (a.0 == b.0 && a.1 <= b.1)),
{
    lemma_path_not_less(a.0, b.0);
    lemma_bytes_lt_irreflexive(encode_utf8(a.0));
}

/// The order of search output (file, then line) is a strict weak order.
pub proof fn lemma_match_order_strict_weak()
    ensures
        strict_weak(match_order()),
{
    assert forall|a: MatchView, b: MatchView| #[trigger] match_order()(a, b) implies !match_order()(b, a) by {
        lemma_bytes_lt_asymmetric(encode_utf8(a.0), encode_utf8(b.0));
        lemma_bytes_lt_irreflexive(encode_utf8(a.0));
    }
    assert forall|a: MatchView, b: MatchView, c: MatchView|
        !#[trigger] match_order()(b, a) && !#[trigger] match_order()(c, b) implies !match_order()(c, a) by {
        lemma_match_not_less(a, b);
        lemma_match_not_less(b, c);
        lemma_match_not_less(a, c);
        lemma_bytes_lt_transitive(encode_utf8(a.0), encode_utf8(b.0), encode_utf8(c.0));
        lemma_path_not_less(a.0, c.0);
    }
}

} // verus!
