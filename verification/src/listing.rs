//! Walks of a Hyperbee: its entries in the order of their keys.

use vstd::prelude::*;

use crate::bee::KeyValue;

verus! {

/// What a Hyperbee, or a sub of one, holds: under each key the block of the entry and its value.
pub type Entries = Map<Seq<u8>, (u64, Option<Seq<u8>>)>;

/// `a` is visited before `b` in a walk.
pub open spec fn visited_before(a: Seq<u8>, b: Seq<u8>, reversed: bool) -> bool {
    if reversed {
        crate::bytes::before(b, a)
    } else {
        crate::bytes::before(a, b)
    }
}

/// `list` holds each of `entries` once, by ascending keys, or descending ones if `reversed`.
pub open spec fn is_listing(
    entries: Entries,
    reversed: bool,
    list: Seq<KeyValue<Seq<u8>>>,
) -> bool {
    &&& forall|i: int, j: int|
        0 <= i < j < list.len() ==> visited_before(
            #[trigger] list[i].key,
            #[trigger] list[j].key,
            reversed,
        )
    &&& forall|i: int|
        0 <= i < list.len() ==> entries.contains_key((#[trigger] list[i]).key)
            && entries[list[i].key] == (list[i].seq, list[i].value)
    &&& forall|key: Seq<u8>| #[trigger]
        entries.contains_key(key) ==> exists|i: int|
            0 <= i < list.len() && (#[trigger] list[i]).key == key
}

/// The entries in the order of a walk.
pub open spec fn listing(entries: Entries, reversed: bool) -> Seq<KeyValue<Seq<u8>>> {
    choose|list: Seq<KeyValue<Seq<u8>>>| is_listing(entries, reversed, list)
}

/// The first entry of two listings is the same.
proof fn lemma_listing_first(
    entries: Entries,
    reversed: bool,
    a: Seq<KeyValue<Seq<u8>>>,
    b: Seq<KeyValue<Seq<u8>>>,
)
    requires
        is_listing(entries, reversed, a),
        is_listing(entries, reversed, b),
        a.len() > 0,
    ensures
        b.len() > 0,
        a[0] == b[0],
{
    assert(entries.contains_key(a[0].key));
    let i = choose|i: int| 0 <= i < b.len() && (#[trigger] b[i]).key == a[0].key;
    assert(entries.contains_key(b[0].key));
    let j = choose|j: int| 0 <= j < a.len() && (#[trigger] a[j]).key == b[0].key;
    if i > 0 {
        assert(visited_before(b[0].key, b[i].key, reversed));
        if j > 0 {
            assert(visited_before(a[0].key, a[j].key, reversed));
            if reversed {
                crate::bytes::lemma_before_asymmetric(a[0].key, b[0].key);
            } else {
                crate::bytes::lemma_before_asymmetric(b[0].key, a[0].key);
            }
        } else {
            crate::bytes::lemma_before_irreflexive(b[0].key);
        }
    }
}

/// What is left of a listing after its first entry lists what is left of the entries.
proof fn lemma_listing_rest(entries: Entries, reversed: bool, list: Seq<KeyValue<Seq<u8>>>)
    requires
        is_listing(entries, reversed, list),
        list.len() > 0,
    ensures
        is_listing(entries.remove(list[0].key), reversed, list.skip(1)),
{
    let rest = list.skip(1);
    let left = entries.remove(list[0].key);
    assert forall|i: int, j: int| 0 <= i < j < rest.len() implies visited_before(
        #[trigger] rest[i].key,
        #[trigger] rest[j].key,
        reversed,
    ) by {
        assert(rest[i] == list[i + 1] && rest[j] == list[j + 1]);
    }
    assert forall|i: int| 0 <= i < rest.len() implies left.contains_key((#[trigger] rest[i]).key)
        && left[rest[i].key] == (rest[i].seq, rest[i].value) by {
        assert(rest[i] == list[i + 1]);
        assert(visited_before(list[0].key, list[i + 1].key, reversed));
        crate::bytes::lemma_before_irreflexive(list[0].key);
    }
    assert forall|key: Seq<u8>| #[trigger] left.contains_key(key) implies exists|i: int|
        0 <= i < rest.len() && (#[trigger] rest[i]).key == key by {
        assert(entries.contains_key(key));
        let i = choose|i: int| 0 <= i < list.len() && (#[trigger] list[i]).key == key;
        assert(rest[i - 1].key == key);
    }
}

/// Entries have one listing at most.
pub proof fn lemma_listing_unique(
    entries: Entries,
    reversed: bool,
    a: Seq<KeyValue<Seq<u8>>>,
    b: Seq<KeyValue<Seq<u8>>>,
)
    requires
        is_listing(entries, reversed, a),
        is_listing(entries, reversed, b),
    ensures
        a == b,
    decreases a.len(),
{
    if a.len() == 0 {
        if b.len() > 0 {
            assert(entries.contains_key(b[0].key));
        }
        assert(a =~= b);
    } else {
        lemma_listing_first(entries, reversed, a, b);
        lemma_listing_rest(entries, reversed, a);
        lemma_listing_rest(entries, reversed, b);
        lemma_listing_unique(entries.remove(a[0].key), reversed, a.skip(1), b.skip(1));
        assert(a =~= seq![a[0]] + a.skip(1));
        assert(b =~= seq![b[0]] + b.skip(1));
    }
}

/// A sequence that lists the entries is the order in which a walk visits them: there is no other.
pub proof fn law_listing_is_unique(
    entries: Entries,
    reversed: bool,
    list: Seq<KeyValue<Seq<u8>>>,
)
    requires
        is_listing(entries, reversed, list),
    ensures
        listing(entries, reversed) == list,
{
    lemma_listing_unique(entries, reversed, listing(entries, reversed), list);
}

/// The place of a key in a listing that lacks it: what comes earlier is visited before it, what
/// comes later is visited after it.
spec fn is_place(list: Seq<KeyValue<Seq<u8>>>, key: Seq<u8>, reversed: bool, at: int) -> bool {
    &&& 0 <= at <= list.len()
    &&& forall|i: int| 0 <= i < at ==> visited_before((#[trigger] list[i]).key, key, reversed)
    &&& forall|i: int|
        at <= i < list.len() ==> visited_before(key, (#[trigger] list[i]).key, reversed)
}

/// A key that a listing lacks has a place in it.
proof fn lemma_place(
    entries: Entries,
    reversed: bool,
    list: Seq<KeyValue<Seq<u8>>>,
    key: Seq<u8>,
    from: int,
) -> (at: int)
    requires
        is_listing(entries, reversed, list),
        !entries.contains_key(key),
        0 <= from <= list.len(),
        forall|i: int| 0 <= i < from ==> visited_before((#[trigger] list[i]).key, key, reversed),
    ensures
        is_place(list, key, reversed, at),
    decreases list.len() - from,
{
    if from == list.len() {
        from
    } else {
        let k = list[from].key;
        assert(k != key);
        crate::bytes::lemma_before_total(k, key);
        if visited_before(k, key, reversed) {
            lemma_place(entries, reversed, list, key, from + 1)
        } else {
            assert forall|i: int| from <= i < list.len() implies visited_before(
                key,
                (#[trigger] list[i]).key,
                reversed,
            ) by {
                if i > from {
                    assert(visited_before(k, list[i].key, reversed));
                    if reversed {
                        crate::bytes::lemma_before_transitive(list[i].key, k, key);
                    } else {
                        crate::bytes::lemma_before_transitive(key, k, list[i].key);
                    }
                }
            }
            from
        }
    }
}

/// Finitely many entries have a listing.
pub proof fn lemma_listing_exists(entries: Entries, reversed: bool)
    requires
        entries.dom().finite(),
    ensures
        is_listing(entries, reversed, listing(entries, reversed)),
    decreases entries.dom().len(),
{
    if entries.dom().len() == 0 {
        assert(entries.dom() =~= Set::empty());
        assert(is_listing(entries, reversed, Seq::empty())) by {
            assert forall|key: Seq<u8>| !(#[trigger] entries.contains_key(key)) by {
                assert(!entries.dom().contains(key));
            }
        }
    } else {
        let key = entries.dom().choose();
        assert(entries.dom().contains(key)) by {
            if forall|k: Seq<u8>| !entries.dom().contains(k) {
                assert(entries.dom() =~= Set::empty());
            }
        }
        let rest = entries.remove(key);
        assert(rest.dom() =~= entries.dom().remove(key));
        lemma_listing_exists(rest, reversed);
        let list = listing(rest, reversed);
        let at = lemma_place(rest, reversed, list, key, 0);
        let new = KeyValue { seq: entries[key].0, key, value: entries[key].1 };
        let whole = list.insert(at, new);
        list.insert_ensures(at, new);
        assert forall|i: int, j: int| 0 <= i < j < whole.len() implies visited_before(
            #[trigger] whole[i].key,
            #[trigger] whole[j].key,
            reversed,
        ) by {
            let i0 = if i < at { i } else { i - 1 };
            let j0 = if j < at { j } else { j - 1 };
            if i != at {
                assert(whole[i] == list[i0]);
            }
            if j != at {
                assert(whole[j] == list[j0]);
            }
        }
        assert forall|i: int| 0 <= i < whole.len() implies entries.contains_key(
            (#[trigger] whole[i]).key,
        ) && entries[whole[i].key] == (whole[i].seq, whole[i].value) by {
            if i != at {
                let i0 = if i < at { i } else { i - 1 };
                assert(whole[i] == list[i0]);
                assert(rest.contains_key(list[i0].key));
            }
        }
        assert forall|k: Seq<u8>| #[trigger] entries.contains_key(k) implies exists|i: int|
            0 <= i < whole.len() && (#[trigger] whole[i]).key == k by {
            if k == key {
                assert(whole[at].key == k);
            } else {
                assert(rest.contains_key(k));
                let i0 = choose|i: int| 0 <= i < list.len() && (#[trigger] list[i]).key == k;
                let i = if i0 < at { i0 } else { i0 + 1 };
                assert(whole[i] == list[i0]);
            }
        }
        assert(is_listing(entries, reversed, whole));
    }
}

} // verus!
