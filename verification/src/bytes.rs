//! Byte strings: their contents, their comparison and their order.

use vstd::prelude::*;

verus! {

/// The contents of a byte vector are its bytes.
pub broadcast proof fn lemma_bytes_contents(bytes: Vec<u8>)
    ensures
        #[trigger] bytes.deep_view() == bytes@,
{
    assert(bytes.deep_view() =~= bytes@);
}

/// `a` comes before `b` in the order of byte strings: they agree up to some place, and there `a`
/// has ended or holds the smaller byte.
pub open spec fn before(a: Seq<u8>, b: Seq<u8>) -> bool {
    exists|i: int| #[trigger] parts_at(a, b, i)
}

/// `a` and `b` agree on their first `i` bytes, and at `i` the byte string `a` has ended while `b`
/// has not, or holds the smaller byte.
pub open spec fn parts_at(a: Seq<u8>, b: Seq<u8>, i: int) -> bool {
    &&& 0 <= i <= a.len()
    &&& i < b.len()
    &&& forall|j: int| 0 <= j < i ==> a[j] == b[j]
    &&& i < a.len() ==> a[i] < b[i]
}

/// No byte string comes before itself.
pub proof fn lemma_before_irreflexive(a: Seq<u8>)
    ensures
        !before(a, a),
{
}

/// Of two byte strings at most one comes before the other.
pub proof fn lemma_before_asymmetric(a: Seq<u8>, b: Seq<u8>)
    requires
        before(a, b),
    ensures
        !before(b, a),
{
    let i = choose|i: int| parts_at(a, b, i);
    if before(b, a) {
        let j = choose|j: int| parts_at(b, a, j);
        assert(i < j || j < i || i == j);
    }
}

/// A byte string before one that is before a third is before the third.
pub proof fn lemma_before_transitive(a: Seq<u8>, b: Seq<u8>, c: Seq<u8>)
    requires
        before(a, b),
        before(b, c),
    ensures
        before(a, c),
{
    let i = choose|i: int| parts_at(a, b, i);
    let j = choose|j: int| parts_at(b, c, j);
    let k = if i < j { i } else { j };
    assert(parts_at(a, c, k));
}

/// Of two different byte strings one comes before the other.
pub proof fn lemma_before_total(a: Seq<u8>, b: Seq<u8>)
    ensures
        a == b || before(a, b) || before(b, a),
    decreases a.len(),
{
    if a.len() == 0 {
        if b.len() == 0 {
            assert(a =~= b);
        } else {
            assert(parts_at(a, b, 0));
        }
    } else if b.len() == 0 {
        assert(parts_at(b, a, 0));
    } else if a[0] < b[0] {
        assert(parts_at(a, b, 0));
    } else if b[0] < a[0] {
        assert(parts_at(b, a, 0));
    } else {
        let (x, y) = (a.skip(1), b.skip(1));
        lemma_before_total(x, y);
        if x == y {
            assert(a =~= seq![a[0]] + x);
            assert(b =~= seq![b[0]] + y);
        } else if before(x, y) {
            let i = choose|i: int| parts_at(x, y, i);
            assert forall|j: int| 0 <= j < i + 1 implies a[j] == b[j] by {
                if j > 0 {
                    assert(x[j - 1] == y[j - 1]);
                }
            }
            assert(i < x.len() ==> x[i] == a[i + 1]);
            assert(y[i] == b[i + 1]);
            assert(parts_at(a, b, i + 1));
        } else {
            let i = choose|i: int| parts_at(y, x, i);
            assert forall|j: int| 0 <= j < i + 1 implies b[j] == a[j] by {
                if j > 0 {
                    assert(x[j - 1] == y[j - 1]);
                }
            }
            assert(i < y.len() ==> y[i] == b[i + 1]);
            assert(x[i] == a[i + 1]);
            assert(parts_at(b, a, i + 1));
        }
    }
}

/// Copies a byte slice into a vector.
pub fn copy_bytes(bytes: &[u8]) -> (copy: Vec<u8>)
    ensures
        copy@ == bytes@,
{
    let mut copy: Vec<u8> = Vec::new();
    copy.extend_from_slice(bytes);
    assert(copy@ =~= bytes@);
    copy
}

/// Whether two byte slices hold the same bytes.
pub fn same_bytes(a: &[u8], b: &[u8]) -> (same: bool)
    ensures
        same == (a@ == b@),
{
    if a.len() != b.len() {
        return false;
    }
    let mut i: usize = 0;
    while i < a.len()
        invariant
            a@.len() == b@.len(),
            i <= a@.len(),
            forall|j: int| 0 <= j < i ==> a@[j] == b@[j],
        decreases a@.len() - i,
    {
        if a[i] != b[i] {
            return false;
        }
        i += 1;
    }
    assert(a@ =~= b@);
    true
}

} // verus!
