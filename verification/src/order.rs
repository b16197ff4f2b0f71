//! The order of strings, by their bytes, and sorting by it.

use vstd::prelude::*;
use vstd::utf8::encode_utf8;
#[allow(unused_imports)]
use vstd::relations::{sorted_by, total_ordering};
#[allow(unused_imports)]
use crate::text::texts;

verus! {

/// Byte sequences in lexicographic order: a sequence comes before another
/// where it has the smaller byte at the first difference, or is a prefix.
pub open spec fn bytes_le(a: Seq<u8>, b: Seq<u8>) -> bool
    decreases a.len(),
{
    if a.len() == 0 {
        true
    } else if b.len() == 0 {
        false
    } else if a[0] != b[0] {
        a[0] < b[0]
    } else {
        bytes_le(a.drop_first(), b.drop_first())
    }
}

/// Strings in the order of their UTF-8 bytes.
pub open spec fn text_le(a: Seq<char>, b: Seq<char>) -> bool {
    bytes_le(encode_utf8(a), encode_utf8(b))
}

/// The order of strings, as a relation.
pub open spec fn text_order() -> spec_fn(Seq<char>, Seq<char>) -> bool {
    |a: Seq<char>, b: Seq<char>| text_le(a, b)
}

/// The same strings, each as often, in order.
pub open spec fn sorted_texts(all: Seq<Seq<char>>) -> Seq<Seq<char>> {
    all.sort_by(text_order())
}

proof fn lemma_bytes_le_reflexive(a: Seq<u8>)
    ensures
        bytes_le(a, a),
    decreases a.len(),
{
    if a.len() > 0 {
        lemma_bytes_le_reflexive(a.drop_first());
    }
}

proof fn lemma_bytes_le_antisymmetric(a: Seq<u8>, b: Seq<u8>)
    requires
        bytes_le(a, b),
        bytes_le(b, a),
    ensures
        a == b,
    decreases a.len(),
{
    if a.len() > 0 {
        lemma_bytes_le_antisymmetric(a.drop_first(), b.drop_first());
        assert(a =~= seq![a[0]] + a.drop_first());
        assert(b =~= seq![b[0]] + b.drop_first());
    } else {
        assert(a =~= b);
    }
}

proof fn lemma_bytes_le_transitive(a: Seq<u8>, b: Seq<u8>, c: Seq<u8>)
    requires
        bytes_le(a, b),
        bytes_le(b, c),
    ensures
        bytes_le(a, c),
    decreases a.len(),
{
    if a.len() > 0 && a[0] == b[0] && b[0] == c[0] {
        lemma_bytes_le_transitive(a.drop_first(), b.drop_first(), c.drop_first());
    }
}

proof fn lemma_bytes_le_connected(a: Seq<u8>, b: Seq<u8>)
    ensures
        bytes_le(a, b) || bytes_le(b, a),
    decreases a.len(),
{
    if a.len() > 0 && b.len() > 0 {
        lemma_bytes_le_connected(a.drop_first(), b.drop_first());
    }
}

/// Strings are totally ordered by their bytes.
pub proof fn law_text_order_is_total()
    ensures
        total_ordering(text_order()),
{
    let le = text_order();
    assert forall|x: Seq<char>| #[trigger] le(x, x) by {
        lemma_bytes_le_reflexive(encode_utf8(x));
    }
    assert forall|x: Seq<char>, y: Seq<char>| #[trigger] le(x, y) && #[trigger] le(y, x) implies x
        == y by {
        lemma_bytes_le_antisymmetric(encode_utf8(x), encode_utf8(y));
        vstd::utf8::encode_utf8_decode_utf8(x);
        vstd::utf8::encode_utf8_decode_utf8(y);
    }
    assert forall|x: Seq<char>, y: Seq<char>, z: Seq<char>| #[trigger] le(x, y) && #[trigger] le(
        y,
        z,
    ) implies le(x, z) by {
        lemma_bytes_le_transitive(encode_utf8(x), encode_utf8(y), encode_utf8(z));
    }
    assert forall|x: Seq<char>, y: Seq<char>| #[trigger] le(x, y) || #[trigger] le(y, x) by {
        lemma_bytes_le_connected(encode_utf8(x), encode_utf8(y));
    }
}

/// Sorting keeps each string as often as it was there, and puts any two in
/// order.
pub proof fn law_sorted_texts(all: Seq<Seq<char>>)
    ensures
        sorted_texts(all).to_multiset() == all.to_multiset(),
        sorted_by(sorted_texts(all), text_order()),
{
    law_text_order_is_total();
    all.lemma_sort_by_ensures(text_order());
}

/// Whether `a` comes before `b`, or is the same.
pub fn comes_before(a: &str, b: &str) -> (yes: bool)
    ensures
        yes == text_le(a@, b@),
{
    let x: &[u8] = a.as_bytes();
    let y: &[u8] = b.as_bytes();
    let mut i: usize = 0;
    assert(x@.skip(0) == x@ && y@.skip(0) == y@);
    while i < x.len() && i < y.len() && x[i] == y[i]
        invariant
            i <= x.len(),
            i <= y.len(),
            bytes_le(x@, y@) == bytes_le(x@.skip(i as int), y@.skip(i as int)),
        decreases x.len() - i,
    {
        assert(x@.skip(i as int).drop_first() == x@.skip(i + 1));
        assert(y@.skip(i as int).drop_first() == y@.skip(i + 1));
        i = i + 1;
    }
    if i == x.len() {
        true
    } else if i == y.len() {
        false
    } else {
        x[i] < y[i]
    }
}

/// The strings in order.
pub fn sort(all: &Vec<String>) -> (sorted: Vec<String>)
    ensures
        texts(sorted@) == sorted_texts(texts(all@)),
{
    let mut sorted: Vec<String> = Vec::new();
    let ghost le = text_order();
    let ghost given = texts(all@);
    proof {
        law_text_order_is_total();
    }
    let mut i: usize = 0;
    assert(given.take(0) == Seq::<Seq<char>>::empty());
    assert(texts(sorted@) == Seq::<Seq<char>>::empty());
    while i < all.len()
        invariant
            i <= all.len(),
            le == text_order(),
            total_ordering(le),
            given == texts(all@),
            sorted_by(texts(sorted@), le),
            texts(sorted@).to_multiset() == given.take(i as int).to_multiset(),
        decreases all.len() - i,
    {
        let next: String = all[i].clone();
        let mut at: usize = 0;
        while at < sorted.len() && comes_before(sorted[at].as_str(), next.as_str())
            invariant
                at <= sorted.len(),
                le == text_order(),
                forall|k: int| 0 <= k < at ==> le(#[trigger] texts(sorted@)[k], next@),
            decreases sorted.len() - at,
        {
            assert(texts(sorted@)[at as int] == sorted@[at as int]@);
            at = at + 1;
        }
        proof {
            let before = texts(sorted@);
            let after = texts(sorted@.insert(at as int, next));
            assert(after =~= before.insert(at as int, next@));
            if at < sorted.len() {
                assert(before[at as int] == sorted@[at as int]@);
                assert(!le(before[at as int], next@));
                assert(le(next@, before[at as int]));
            }
            assert forall|a: int, b: int| 0 <= a < b < after.len() implies #[trigger] le(
                after[a],
                after[b],
            ) by {
                if b < at {
                    assert(le(before[a], before[b]));
                } else if b == at {
                } else if a < at {
                    assert(le(before[a], before[b - 1]));
                } else if a == at {
                    if b - 1 > at {
                        assert(le(before[at as int], before[b - 1]));
                    }
                } else {
                    assert(le(before[a - 1], before[b - 1]));
                }
            }
            vstd::seq_lib::to_multiset_insert(before, at as int, next@);
            vstd::seq_lib::to_multiset_build(given.take(i as int), next@);
            assert(given.take(i + 1) == given.take(i as int).push(next@));
        }
        sorted.insert(at, next);
        i = i + 1;
    }
    proof {
        assert(given.take(i as int) == given);
        law_sorted_texts(given);
        vstd::seq_lib::lemma_sorted_unique(texts(sorted@), sorted_texts(given), le);
    }
    sorted
}

/// Of two texts the one comes first whose bytes are smaller where they first
/// differ; and a text comes before any that it is the start of.
pub proof fn law_first_difference_decides(a: Seq<char>, b: Seq<char>, k: int)
    ensures
        ({
            let x = encode_utf8(a);
            let y = encode_utf8(b);
            &&& x.is_prefix_of(y) ==> text_le(a, b)
            &&& 0 <= k < x.len() && k < y.len() && x.take(k) == y.take(k) && x[k] < y[k]
                ==> text_le(a, b) && !text_le(b, a)
        }),
{
    let x = encode_utf8(a);
    let y = encode_utf8(b);
    if x.is_prefix_of(y) {
        lemma_prefix_is_before(x, y);
    }
    if 0 <= k < x.len() && k < y.len() && x.take(k) == y.take(k) && x[k] < y[k] {
        lemma_difference_decides(x, y, k);
    }
}

proof fn lemma_prefix_is_before(x: Seq<u8>, y: Seq<u8>)
    requires
        x.is_prefix_of(y),
    ensures
        bytes_le(x, y),
    decreases x.len(),
{
    if x.len() > 0 {
        assert(x[0] == y.subrange(0, x.len() as int)[0]);
        let s = x.drop_first();
        let t = y.drop_first();
        assert forall|i: int| 0 <= i < s.len() implies s[i] == t[i] by {
            assert(x[i + 1] == y.subrange(0, x.len() as int)[i + 1]);
        }
        assert(t.subrange(0, s.len() as int) =~= s);
        lemma_prefix_is_before(s, t);
    }
}

proof fn lemma_difference_decides(x: Seq<u8>, y: Seq<u8>, k: int)
    requires
        0 <= k < x.len(),
        k < y.len(),
        x.take(k) == y.take(k),
        x[k] < y[k],
    ensures
        bytes_le(x, y),
        !bytes_le(y, x),
    decreases k,
{
    if k > 0 {
        assert(x[0] == x.take(k)[0] && y[0] == y.take(k)[0]);
        let s = x.drop_first();
        let t = y.drop_first();
        assert(s.take(k - 1) =~= t.take(k - 1)) by {
            assert forall|i: int| 0 <= i < k - 1 implies s[i] == t[i] by {
                assert(s[i] == x.take(k)[i + 1]);
                assert(t[i] == y.take(k)[i + 1]);
            }
        }
        lemma_difference_decides(s, t, k - 1);
    }
}

} // verus!
