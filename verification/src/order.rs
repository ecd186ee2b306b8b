//! The alphabetical order of texts: lexicographic on their UTF-8 bytes.
use vstd::prelude::*;
use vstd::string::*;
use vstd::utf8::encode_utf8;
use vstd::utf8::encode_utf8_decode_utf8;
use crate::text::lemma_encode_concat;

verus! {

/// Whether `a` comes before `b`, or equals it, in the lexicographic order of bytes.
pub open spec fn bytes_le(a: Seq<u8>, b: Seq<u8>) -> bool
    decreases a.len(),
{
    ||| a.len() == 0
    ||| b.len() > 0 && (a[0] < b[0] || (a[0] == b[0] && bytes_le(a.drop_first(), b.drop_first())))
}

/// Whether text `a` comes before text `b`, or equals it, in alphabetical order.
pub open spec fn text_le(a: Seq<char>, b: Seq<char>) -> bool {
    bytes_le(encode_utf8(a), encode_utf8(b))
}

/// Whether text `a` comes strictly before text `b` in alphabetical order.
pub open spec fn text_lt(a: Seq<char>, b: Seq<char>) -> bool {
    !text_le(b, a)
}

proof fn lemma_bytes_total(a: Seq<u8>, b: Seq<u8>)
    ensures
        bytes_le(a, b) || bytes_le(b, a),
    decreases a.len(),
{
    if a.len() > 0 && b.len() > 0 && a[0] == b[0] {
        lemma_bytes_total(a.drop_first(), b.drop_first());
    }
}

proof fn lemma_bytes_antisymmetric(a: Seq<u8>, b: Seq<u8>)
    requires
        bytes_le(a, b),
        bytes_le(b, a),
    ensures
        a == b,
    decreases a.len(),
{
    if a.len() > 0 && b.len() > 0 {
        lemma_bytes_antisymmetric(a.drop_first(), b.drop_first());
        assert(a =~= seq![a[0]] + a.drop_first());
        assert(b =~= seq![b[0]] + b.drop_first());
    } else {
        assert(a =~= b);
    }
}

proof fn lemma_bytes_transitive(a: Seq<u8>, b: Seq<u8>, c: Seq<u8>)
    requires
        bytes_le(a, b),
        bytes_le(b, c),
    ensures
        bytes_le(a, c),
    decreases a.len(),
{
    if a.len() > 0 && a[0] == b[0] && b[0] == c[0] {
        lemma_bytes_transitive(a.drop_first(), b.drop_first(), c.drop_first());
    }
}

/// Alphabetical order is total, antisymmetric and transitive.
pub proof fn law_text_order(a: Seq<char>, b: Seq<char>, c: Seq<char>)
    ensures
        text_le(a, b) || text_le(b, a),
        text_le(a, b) && text_le(b, a) ==> a == b,
        text_le(a, b) && text_le(b, c) ==> text_le(a, c),
{
    lemma_bytes_total(encode_utf8(a), encode_utf8(b));
    if text_le(a, b) && text_le(b, a) {
        lemma_bytes_antisymmetric(encode_utf8(a), encode_utf8(b));
        encode_utf8_decode_utf8(a);
        encode_utf8_decode_utf8(b);
    }
    if text_le(a, b) && text_le(b, c) {
        lemma_bytes_transitive(encode_utf8(a), encode_utf8(b), encode_utf8(c));
    }
}

/// Whether the bytes of `a` come first at the place where the two first differ.
pub open spec fn first_difference_at(a: Seq<u8>, b: Seq<u8>, at: int) -> bool {
    0 <= at < a.len() && at < b.len() && a.take(at) == b.take(at) && a[at] < b[at]
}

proof fn lemma_bytes_le_lexicographic(a: Seq<u8>, b: Seq<u8>)
    ensures
        bytes_le(a, b) <==> a.is_prefix_of(b) || exists|at: int| #[trigger]
            first_difference_at(a, b, at),
    decreases a.len(),
{
    if a.len() == 0 {
        assert(a.is_prefix_of(b));
    } else if b.len() == 0 {
    } else if a[0] < b[0] {
        assert(a.take(0) =~= b.take(0));
        assert(first_difference_at(a, b, 0));
    } else if a[0] > b[0] {
        if a.is_prefix_of(b) {
            assert(a[0] == b.subrange(0, a.len() as int)[0]);
        }
        assert forall|at: int| !#[trigger] first_difference_at(a, b, at) by {
            if first_difference_at(a, b, at) && at > 0 {
                assert(a.take(at)[0] == b.take(at)[0]);
            }
        }
    } else {
        let x = a.drop_first();
        let y = b.drop_first();
        lemma_bytes_le_lexicographic(x, y);
        if x.is_prefix_of(y) {
            assert(a =~= b.subrange(0, a.len() as int)) by {
                assert forall|k: int| 0 <= k < a.len() implies a[k] == b[k] by {
                    if k > 0 {
                        assert(x[k - 1] == y.subrange(0, x.len() as int)[k - 1]);
                    }
                }
            }
        }
        if a.is_prefix_of(b) {
            assert(x =~= y.subrange(0, x.len() as int)) by {
                assert forall|k: int| 0 <= k < x.len() implies x[k] == y[k] by {
                    assert(a[k + 1] == b.subrange(0, a.len() as int)[k + 1]);
                }
            }
        }
        assert forall|at: int| #[trigger] first_difference_at(x, y, at) implies first_difference_at(
            a,
            b,
            at + 1,
        ) by {
            assert(a.take(at + 1) =~= seq![a[0]] + x.take(at));
            assert(b.take(at + 1) =~= seq![b[0]] + y.take(at));
        }
        assert forall|at: int| #[trigger] first_difference_at(a, b, at) implies first_difference_at(
            x,
            y,
            at - 1,
        ) by {
            if at > 0 {
                assert(x.take(at - 1) =~= a.take(at).drop_first());
                assert(y.take(at - 1) =~= b.take(at).drop_first());
            }
        }
    }
}

/// A text comes before another, or equals it, exactly where its bytes begin the other's bytes or
/// the two agree up to a place at which its byte is the smaller one.
pub proof fn law_text_order_is_lexicographic(a: Seq<char>, b: Seq<char>)
    ensures
        ({
            let x = encode_utf8(a);
            let y = encode_utf8(b);
            text_le(a, b) <==> {
                ||| x.is_prefix_of(y)
                ||| exists|at: int|
                    0 <= at < x.len() && at < y.len() && x.take(at) == y.take(at)
                        && #[trigger] x[at] < y[at]
            }
        }),
        text_lt(a, b) <==> text_le(a, b) && a != b,
{
    let x = encode_utf8(a);
    let y = encode_utf8(b);
    lemma_bytes_le_lexicographic(x, y);
    law_text_order(a, b, a);
    law_text_order(b, a, b);
    assert forall|at: int| #[trigger] first_difference_at(x, y, at) implies 0 <= at < x.len() && at
        < y.len() && x.take(at) == y.take(at) && x[at] < y[at] by {}
    if exists|at: int|
        0 <= at < x.len() && at < y.len() && x.take(at) == y.take(at) && #[trigger] x[at] < y[at] {
        let at = choose|at: int|
            0 <= at < x.len() && at < y.len() && x.take(at) == y.take(at) && #[trigger] x[at]
                < y[at];
        assert(first_difference_at(x, y, at));
    }
}

proof fn lemma_bytes_le_same_start(start: Seq<u8>, a: Seq<u8>, b: Seq<u8>)
    ensures
        bytes_le(start + a, start + b) == bytes_le(a, b),
    decreases start.len(),
{
    if start.len() == 0 {
        assert(start + a =~= a);
        assert(start + b =~= b);
    } else {
        lemma_bytes_le_same_start(start.drop_first(), a, b);
        assert((start + a).drop_first() =~= start.drop_first() + a);
        assert((start + b).drop_first() =~= start.drop_first() + b);
    }
}

/// A common start makes no difference to the order of two texts.
pub proof fn lemma_text_le_same_start(start: Seq<char>, a: Seq<char>, b: Seq<char>)
    ensures
        text_le(start + a, start + b) == text_le(a, b),
{
    lemma_encode_concat(start, a);
    lemma_encode_concat(start, b);
    lemma_bytes_le_same_start(encode_utf8(start), encode_utf8(a), encode_utf8(b));
}

/// Whether `a` comes before `b`, or equals it, in alphabetical order.
pub fn str_le(a: &str, b: &str) -> (le: bool)
    ensures
        le == text_le(a@, b@),
{
    let x: &[u8] = a.as_bytes();
    let y: &[u8] = b.as_bytes();
    let mut i: usize = 0;
    assert(x@.skip(0) =~= x@);
    assert(y@.skip(0) =~= y@);
    while i < x.len() && i < y.len()
        invariant
            x@ == a.spec_bytes(),
            y@ == b.spec_bytes(),
            i <= x@.len(),
            i <= y@.len(),
            bytes_le(x@, y@) == bytes_le(x@.skip(i as int), y@.skip(i as int)),
        decreases x.len() - i,
    {
        if x[i] < y[i] {
            return true;
        }
        if y[i] < x[i] {
            return false;
        }
        assert(x@.skip(i as int).drop_first() =~= x@.skip(i + 1));
        assert(y@.skip(i as int).drop_first() =~= y@.skip(i + 1));
        i = i + 1;
    }
    i == x.len()
}

} // verus!
