//! What the operations on a feed do together, on a Hyperbee that performs every request.

use vstd::prelude::*;

use crate::bee::{Bee, BeeReply, BeeRequest, KeyValue, Sub};
use crate::feed::{
    FeedEntry, FeedError, FeedStream, FieldValues, GetFeedStream, GetMetadata, GetMetadataValue,
    GetNextHighest, GetVersion, HasKey, MaybeUpdateMetadata, NextEntry, PutMetadata,
    PutNextInOrder, PutOrderedItem, RankedValues, Rest, Streamed, StreamedValue,
};
use crate::step::{Program, Service, Step};

verus! {

/// How an operation on a feed ends, and the Hyperbee afterwards.
pub open spec fn run_feed<E, S: Program<BeeRequest<Seq<u8>>, BeeReply<E, Seq<u8>>>>(
    step: Step<BeeRequest<Seq<u8>>, S, S::Value, S::Failure>,
    bee: Bee,
    limit: nat,
) -> Option<(Result<S::Value, S::Failure>, Bee)> {
    crate::step::run::<BeeRequest<Seq<u8>>, BeeReply<E, Seq<u8>>, S, Bee>(step, bee, limit)
}

/// The order key of a position.
pub open spec fn order_key(n: u64) -> Seq<u8> {
    crate::order::order_string(n as nat)
}

/// The order namespace of the Hyperbee holds the order keys of these positions and nothing else.
pub open spec fn holds_positions(bee: Bee, numbers: Set<u64>) -> bool {
    &&& forall|n: u64| #[trigger] numbers.contains(n) ==> bee.get(Sub::Order, order_key(n)) is Some
    &&& forall|key: Seq<u8>| #[trigger]
        bee.get(Sub::Order, key) is Some ==> exists|n: u64| #[trigger]
            numbers.contains(n) && key == order_key(n)
}

/// The Hyperbee holds items at these positions: the order namespace maps each position to the key
/// of its item and holds nothing else, and each item is there.
pub open spec fn holds_items(bee: Bee, placed: Map<u64, Seq<u8>>) -> bool {
    &&& forall|n: u64| #[trigger]
        placed.contains_key(n) ==> bee.get_value(Sub::Order, order_key(n)) == Some(
            Some(placed[n]),
        ) && bee.get(Sub::Key, placed[n]) is Some
    &&& forall|key: Seq<u8>| #[trigger]
        bee.get(Sub::Order, key) is Some ==> exists|n: u64| #[trigger]
            placed.contains_key(n) && key == order_key(n)
}

/// The positions of items of which the first was inserted first.
pub open spec fn positions(items: Seq<Seq<u8>>) -> Map<u64, Seq<u8>> {
    Map::new(|n: u64| n < items.len(), |n: u64| items[n as int])
}

/// The Hyperbee holds a feed of the items with these keys, the first inserted first.
pub open spec fn holds_feed(bee: Bee, items: Seq<Seq<u8>>) -> bool {
    items.len() <= u64::MAX && holds_items(bee, positions(items))
}

/// The entries of the order namespace as a walk from the greatest key visits them.
pub open spec fn order_walk(bee: Bee) -> Seq<KeyValue<Seq<u8>>> {
    crate::listing::listing(bee.sub_entries(Sub::Order), true)
}

/// There are finitely many positions in a feed.
pub proof fn lemma_positions_finite(items: Seq<Seq<u8>>)
    requires
        items.len() <= u64::MAX,
    ensures
        positions(items).dom().finite(),
        positions(items).dom().len() == items.len(),
    decreases items.len(),
{
    if items.len() == 0 {
        assert(positions(items).dom() =~= Set::empty());
    } else {
        let last = (items.len() - 1) as u64;
        lemma_positions_finite(items.drop_last());
        assert(positions(items).dom() =~= positions(items.drop_last()).dom().insert(last));
    }
}

/// A Hyperbee that holds items at positions holds those positions.
proof fn lemma_items_have_positions(bee: Bee, placed: Map<u64, Seq<u8>>)
    requires
        holds_items(bee, placed),
    ensures
        holds_positions(bee, placed.dom()),
{
    assert forall|n: u64| #[trigger] placed.dom().contains(n) implies bee.get(
        Sub::Order,
        order_key(n),
    ) is Some by {
        assert(placed.contains_key(n));
    }
    assert forall|key: Seq<u8>| #[trigger] bee.get(Sub::Order, key) is Some implies exists|n: u64|
     #[trigger]
        placed.dom().contains(n) && key == order_key(n) by {
        let n = choose|n: u64| #[trigger] placed.contains_key(n) && key == order_key(n);
        assert(placed.dom().contains(n));
    }
}

/// The walk of the order namespace visits each position once, and nothing else.
proof fn lemma_walk_of_positions(bee: Bee, numbers: Set<u64>)
    requires
        holds_positions(bee, numbers),
        numbers.finite(),
    ensures
        bee.sub_entries(Sub::Order).dom().finite(),
        crate::listing::is_listing(bee.sub_entries(Sub::Order), true, order_walk(bee)),
        forall|i: int|
            0 <= i < order_walk(bee).len() ==> {
                let entry = #[trigger] order_walk(bee)[i];
                &&& crate::order::order_number(entry.key) matches Some(n)
                &&& numbers.contains(n)
                &&& entry.key == order_key(n)
                &&& bee.get(Sub::Order, entry.key) == Some((entry.seq, entry.value))
            },
        forall|n: u64| #[trigger]
            numbers.contains(n) ==> exists|i: int|
                0 <= i < order_walk(bee).len() && (#[trigger] order_walk(bee)[i]).key == order_key(
                    n,
                ),
{
    let entries = bee.sub_entries(Sub::Order);
    let key_at = |n: u64| order_key(n);
    let keys = numbers.map(key_at);
    numbers.lemma_map_finite(key_at);
    assert forall|key: Seq<u8>| entries.dom().contains(key) implies keys.contains(key) by {
        assert(bee.get(Sub::Order, key) is Some);
        let n = choose|n: u64| #[trigger] numbers.contains(n) && key == order_key(n);
        assert(numbers.contains(n) && key_at(n) == key);
    }
    vstd::set_lib::lemma_set_subset_finite(keys, entries.dom());
    crate::listing::lemma_listing_exists(entries, true);
    let list = order_walk(bee);
    assert forall|i: int| 0 <= i < list.len() implies {
        let entry = #[trigger] list[i];
        &&& crate::order::order_number(entry.key) matches Some(n)
        &&& numbers.contains(n)
        &&& entry.key == order_key(n)
        &&& bee.get(Sub::Order, entry.key) == Some((entry.seq, entry.value))
    } by {
        assert(entries.contains_key(list[i].key));
        assert(bee.get(Sub::Order, list[i].key) is Some);
        let n = choose|n: u64| #[trigger] numbers.contains(n) && list[i].key == order_key(n);
        crate::order::law_order_key_round_trip(n);
    }
    assert forall|n: u64| #[trigger] numbers.contains(n) implies exists|i: int|
        0 <= i < list.len() && (#[trigger] list[i]).key == order_key(n) by {
        assert(bee.get(Sub::Order, order_key(n)) is Some);
        assert(entries.contains_key(order_key(n)));
    }
}

/// The walk of the order namespace visits each position once with the key of its item, and
/// nothing else.
proof fn lemma_order_walk(bee: Bee, placed: Map<u64, Seq<u8>>)
    requires
        holds_items(bee, placed),
        placed.dom().finite(),
    ensures
        bee.sub_entries(Sub::Order).dom().finite(),
        crate::listing::is_listing(bee.sub_entries(Sub::Order), true, order_walk(bee)),
        forall|i: int|
            0 <= i < order_walk(bee).len() ==> {
                let entry = #[trigger] order_walk(bee)[i];
                &&& crate::order::order_number(entry.key) matches Some(n)
                &&& placed.contains_key(n)
                &&& entry.key == order_key(n)
                &&& entry.value == Some(placed[n])
                &&& bee.get(Sub::Order, entry.key) == Some((entry.seq, entry.value))
            },
        forall|n: u64| #[trigger]
            placed.contains_key(n) ==> exists|i: int|
                0 <= i < order_walk(bee).len() && (#[trigger] order_walk(bee)[i]).key == order_key(
                    n,
                ),
{
    let list = order_walk(bee);
    lemma_items_have_positions(bee, placed);
    lemma_walk_of_positions(bee, placed.dom());
    assert forall|i: int| 0 <= i < list.len() implies {
        let entry = #[trigger] list[i];
        &&& crate::order::order_number(entry.key) matches Some(n)
        &&& placed.contains_key(n)
        &&& entry.key == order_key(n)
        &&& entry.value == Some(placed[n])
        &&& bee.get(Sub::Order, entry.key) == Some((entry.seq, entry.value))
    } by {
        let n = crate::order::order_number(list[i].key).unwrap();
        assert(placed.contains_key(n));
        assert(bee.get_value(Sub::Order, order_key(n)) == Some(Some(placed[n])));
    }
    assert forall|n: u64| #[trigger] placed.contains_key(n) implies exists|i: int|
        0 <= i < list.len() && (#[trigger] list[i]).key == order_key(n) by {
        assert(placed.dom().contains(n));
    }
}

/// The highest position after `key` was read too.
spec fn highest_with(highest: Option<u64>, key: Seq<u8>) -> Option<u64> {
    match (crate::order::order_number(key), highest) {
        (None, _) => highest,
        (Some(n), None) => Some(n),
        (Some(n), Some(m)) => if n == u64::MAX {
            Some(m)
        } else {
            Some(crate::feed::higher(m, n))
        },
    }
}

/// The position after the highest of `highest` and those of `walk`.
spec fn position_after(highest: Option<u64>, walk: Seq<KeyValue<Seq<u8>>>) -> u64
    decreases walk.len(),
{
    if walk.len() == 0 {
        GetNextHighest::after(highest)
    } else {
        position_after(highest_with(highest, walk[0].key), walk.skip(1))
    }
}

/// The key stands for a position that another can follow.
pub open spec fn has_next(key: Seq<u8>) -> bool {
    match crate::order::order_number(key) {
        Some(n) => n < u64::MAX,
        None => false,
    }
}

/// Another position can follow the first that is known.
spec fn begins(highest: Option<u64>, walk: Seq<KeyValue<Seq<u8>>>) -> bool {
    match highest {
        None => walk.len() > 0 ==> has_next(walk[0].key),
        Some(n) => n < u64::MAX,
    }
}

/// The position after the highest is higher than all, and follows one of them.
proof fn lemma_position_after(highest: Option<u64>, walk: Seq<KeyValue<Seq<u8>>>)
    requires
        begins(highest, walk),
    ensures
        ({
            let next = position_after(highest, walk);
            &&& highest is None && walk.len() == 0 ==> next == 0
            &&& highest is Some || walk.len() > 0 ==> next > 0 && (highest == Some((next - 1) as u64)
                || exists|i: int|
                0 <= i < walk.len() && crate::order::order_number((#[trigger] walk[i]).key) == Some(
                    (next - 1) as u64,
                ))
            &&& highest matches Some(m) ==> m < next
            &&& forall|i: int|
                0 <= i < walk.len() && has_next((#[trigger] walk[i]).key)
                    ==> crate::order::order_number(walk[i].key).unwrap() < next
        }),
    decreases walk.len(),
{
    if walk.len() > 0 {
        let on = highest_with(highest, walk[0].key);
        let rest = walk.skip(1);
        let next = position_after(highest, walk);
        lemma_position_after(on, rest);
        assert forall|i: int|
            0 <= i < walk.len() && has_next(
                (#[trigger] walk[i]).key,
            ) implies crate::order::order_number(walk[i].key).unwrap() < next by {
            if i > 0 {
                assert(walk[i] == rest[i - 1]);
            }
        }
        if on != Some((next - 1) as u64) {
            let i = choose|i: int|
                0 <= i < rest.len() && crate::order::order_number((#[trigger] rest[i]).key) == Some(
                    (next - 1) as u64,
                );
            assert(walk[i + 1] == rest[i]);
        } else if on != highest {
            assert(crate::order::order_number(walk[0].key) == Some((next - 1) as u64));
        }
    }
}

/// The Hyperbee at the end of its walk.
pub open spec fn walked_out(bee: Bee) -> Bee {
    Bee { walk: Seq::empty(), ..bee }
}

/// Counting on from `highest` to the end of the walk.
proof fn lemma_count<E>(bee: Bee, highest: Option<u64>)
    requires
        begins(highest, bee.walk),
    ensures
        run_feed::<E, GetNextHighest>(
            Step::Ask(BeeRequest::Next, GetNextHighest::Reading { highest }),
            bee,
            bee.walk.len() + 1,
        ) == Some(
            (
                Ok::<u64, FeedError<E, Seq<u8>>>(position_after(highest, bee.walk)),
                walked_out(bee),
            ),
        ),
    decreases bee.walk.len(),
{
    reveal_with_fuel(crate::step::run, 2);
    if bee.walk.len() == 0 {
        assert(bee.walk =~= Seq::empty());
    } else {
        lemma_count::<E>(bee.visited(), highest_with(highest, bee.walk[0].key));
        assert(walked_out(bee.visited()) == walked_out(bee));
    }
}

/// `next` is one more than the highest of the positions, or `0` if there are none.
pub open spec fn follows(next: u64, numbers: Set<u64>) -> bool {
    &&& numbers =~= Set::empty() ==> next == 0
    &&& !(numbers =~= Set::empty()) ==> next > 0 && numbers.contains((next - 1) as u64)
    &&& forall|n: u64| #[trigger] numbers.contains(n) ==> n < next
}

/// The next position is one more than the highest that is stored, or `0` if none is.
///
/// The highest of all numbers has no next position, so a Hyperbee that holds it is left out.
pub proof fn law_next_highest<E>(bee: Bee, numbers: Set<u64>)
    requires
        holds_positions(bee, numbers),
        numbers.finite(),
        !numbers.contains(u64::MAX),
    ensures
        run_feed::<E, GetNextHighest>(
            GetNextHighest::start::<E>(),
            bee,
            order_walk(bee).len() + 2,
        ) matches Some((Ok(next), after)) && after == walked_out(bee) && follows(next, numbers),
{
    let opened = bee.walked(bee.sub_entries(Sub::Order), true);
    let walk = order_walk(bee);
    lemma_next_position(bee, numbers);
    lemma_count::<E>(opened, None);
    reveal_with_fuel(crate::step::run, 2);
    assert(walked_out(opened) == walked_out(bee));
    assert(run_feed::<E, GetNextHighest>(
        GetNextHighest::start::<E>(),
        bee,
        walk.len() + 2,
    ) == Some((Ok::<u64, FeedError<E, Seq<u8>>>(position_after(None, walk)), walked_out(bee))));
}

/// The position after those of the walk is one more than the highest that is stored.
proof fn lemma_next_position(bee: Bee, numbers: Set<u64>)
    requires
        holds_positions(bee, numbers),
        numbers.finite(),
        !numbers.contains(u64::MAX),
    ensures
        begins(None, order_walk(bee)),
        follows(position_after(None, order_walk(bee)), numbers),
{
    let walk = order_walk(bee);
    let next = position_after(None, walk);
    lemma_walk_of_positions(bee, numbers);
    lemma_position_after(None, walk);
    assert forall|n: u64| #[trigger] numbers.contains(n) implies n < next by {
        let i = choose|i: int| 0 <= i < walk.len() && (#[trigger] walk[i]).key == order_key(n);
        crate::order::law_order_key_round_trip(n);
    }
    if numbers =~= Set::empty() {
        if walk.len() > 0 {
            let n = crate::order::order_number(walk[0].key).unwrap();
            assert(numbers.contains(n));
        }
    } else {
        let some = choose|n: u64| numbers.contains(n);
        assert(numbers.contains(some)) by {
            if forall|n: u64| !numbers.contains(n) {
                assert(numbers =~= Set::empty());
            }
        }
        let at = choose|i: int| 0 <= i < walk.len() && (#[trigger] walk[i]).key == order_key(some);
        let i = choose|i: int|
            0 <= i < walk.len() && crate::order::order_number((#[trigger] walk[i]).key) == Some(
                (next - 1) as u64,
            );
        assert(numbers.contains((next - 1) as u64));
    }
}

/// The next position in a Hyperbee whatever its order namespace holds: `0` if it is empty, the
/// error of the key that is read first if that stands for no position, and else one more than the
/// highest of the positions that another can follow. A broken key that is read later changes
/// nothing.
///
/// Where the key that is read first stands for the highest of all numbers, no position is next, so
/// such a Hyperbee is left out.
pub proof fn law_next_highest_of_any_store<E>(bee: Bee)
    requires
        bee.sub_entries(Sub::Order).dom().finite(),
        order_walk(bee).len() > 0 ==> crate::order::order_number(order_walk(bee)[0].key) != Some(
            u64::MAX,
        ),
    ensures
        crate::listing::is_listing(bee.sub_entries(Sub::Order), true, order_walk(bee)),
        run_feed::<E, GetNextHighest>(
            GetNextHighest::start::<E>(),
            bee,
            order_walk(bee).len() + 2,
        ) matches Some((result, after)) && {
            let walk = order_walk(bee);
            &&& after.entries == bee.entries
            &&& after.version == bee.version
            &&& walk.len() == 0 ==> result == Ok::<u64, FeedError<E, Seq<u8>>>(0)
            &&& walk.len() > 0 && !has_next(walk[0].key) ==> result == Err::<
                u64,
                FeedError<E, Seq<u8>>,
            >(FeedError::InvalidOrderKey(walk[0].key))
            &&& walk.len() > 0 && has_next(walk[0].key) ==> (result matches Ok(next) && next > 0
                && (exists|i: int|
                0 <= i < walk.len() && crate::order::order_number((#[trigger] walk[i]).key) == Some(
                    (next - 1) as u64,
                )) && forall|i: int|
                0 <= i < walk.len() && has_next((#[trigger] walk[i]).key)
                    ==> crate::order::order_number(walk[i].key).unwrap() < next)
        },
{
    let opened = bee.walked(bee.sub_entries(Sub::Order), true);
    let walk = order_walk(bee);
    crate::listing::lemma_listing_exists(bee.sub_entries(Sub::Order), true);
    reveal_with_fuel(crate::step::run, 3);
    if begins(None, walk) {
        lemma_position_after(None, walk);
        lemma_count::<E>(opened, None);
        assert(run_feed::<E, GetNextHighest>(
            GetNextHighest::start::<E>(),
            bee,
            walk.len() + 2,
        ) == Some(
            (Ok::<u64, FeedError<E, Seq<u8>>>(position_after(None, walk)), walked_out(opened)),
        ));
    } else {
        assert(run_feed::<E, GetNextHighest>(
            GetNextHighest::start::<E>(),
            bee,
            walk.len() + 2,
        ) == Some(
            (
                Err::<u64, FeedError<E, Seq<u8>>>(FeedError::InvalidOrderKey(walk[0].key)),
                opened.visited(),
            ),
        ));
    }
}

/// The next position of a feed is the number of its items.
pub proof fn law_next_highest_of_feed<E>(bee: Bee, items: Seq<Seq<u8>>)
    requires
        holds_feed(bee, items),
    ensures
        run_feed::<E, GetNextHighest>(
            GetNextHighest::start::<E>(),
            bee,
            order_walk(bee).len() + 2,
        ) == Some((Ok::<u64, FeedError<E, Seq<u8>>>(items.len() as u64), walked_out(bee))),
{
    lemma_positions_finite(items);
    let placed = positions(items);
    lemma_items_have_positions(bee, placed);
    law_next_highest::<E>(bee, placed.dom());
    if items.len() == 0 {
        assert(placed.dom() =~= Set::empty());
    } else {
        assert(placed.dom().contains((items.len() - 1) as u64));
    }
}

/// An empty Hyperbee holds the feed without items.
pub proof fn law_empty_feed()
    ensures
        holds_feed(Bee::empty(), Seq::empty()),
        Bee::empty().valid(),
{
}

/// What is held under the `order` and `key` namespaces decides which items a Hyperbee holds.
proof fn lemma_same_items(bee: Bee, other: Bee, placed: Map<u64, Seq<u8>>)
    requires
        holds_items(bee, placed),
        forall|key: Seq<u8>| #[trigger] other.get(Sub::Order, key) == bee.get(Sub::Order, key),
        forall|key: Seq<u8>| #[trigger] other.get(Sub::Key, key) == bee.get(Sub::Key, key),
    ensures
        holds_items(other, placed),
{
    assert forall|n: u64| #[trigger] placed.contains_key(n) implies other.get_value(
        Sub::Order,
        order_key(n),
    ) == Some(Some(placed[n])) && other.get(Sub::Key, placed[n]) is Some by {
        assert(other.get(Sub::Order, order_key(n)) == bee.get(Sub::Order, order_key(n)));
        assert(bee.get_value(Sub::Order, order_key(n)) == Some(Some(placed[n])));
        assert(other.get(Sub::Key, placed[n]) == bee.get(Sub::Key, placed[n]));
    }
    assert forall|key: Seq<u8>| #[trigger] other.get(Sub::Order, key) is Some implies exists|n: u64|
     #[trigger]
        placed.contains_key(n) && key == order_key(n) by {
        assert(bee.get(Sub::Order, key) is Some);
    }
}

/// Recording a key at a position, and storing an item under it, puts the item there.
proof fn lemma_item_placed(
    bee: Bee,
    placed: Map<u64, Seq<u8>>,
    n: u64,
    key: Seq<u8>,
    value: Seq<u8>,
)
    requires
        holds_items(bee, placed),
        !placed.contains_key(n),
    ensures
        holds_items(
            bee.put(Sub::Order, order_key(n), key).put(Sub::Key, key, value),
            placed.insert(n, key),
        ),
{
    let recorded = bee.put(Sub::Order, order_key(n), key);
    let after = recorded.put(Sub::Key, key, value);
    let grown = placed.insert(n, key);
    crate::bee::law_put_changes_one_key(bee, Sub::Order, order_key(n), key);
    crate::bee::law_put_changes_one_key(recorded, Sub::Key, key, value);
    assert forall|m: u64| #[trigger] grown.contains_key(m) implies after.get_value(
        Sub::Order,
        order_key(m),
    ) == Some(Some(grown[m])) && after.get(Sub::Key, grown[m]) is Some by {
        assert(after.get(Sub::Order, order_key(m)) == recorded.get(Sub::Order, order_key(m)));
        if m != n {
            assert(placed.contains_key(m));
            crate::order::law_order_keys_differ(m, n);
            assert(recorded.get(Sub::Order, order_key(m)) == bee.get(Sub::Order, order_key(m)));
            assert(bee.get_value(Sub::Order, order_key(m)) == Some(Some(placed[m])));
            if placed[m] != key {
                assert(after.get(Sub::Key, placed[m]) == recorded.get(Sub::Key, placed[m]));
                assert(recorded.get(Sub::Key, placed[m]) == bee.get(Sub::Key, placed[m]));
            }
        }
    }
    assert forall|k: Seq<u8>| #[trigger] after.get(Sub::Order, k) is Some implies exists|m: u64|
     #[trigger]
        grown.contains_key(m) && k == order_key(m) by {
        assert(after.get(Sub::Order, k) == recorded.get(Sub::Order, k));
        if k == order_key(n) {
            assert(grown.contains_key(n));
        } else {
            assert(recorded.get(Sub::Order, k) == bee.get(Sub::Order, k));
            let m = choose|m: u64| #[trigger] placed.contains_key(m) && k == order_key(m);
            assert(grown.contains_key(m));
        }
    }
}

/// Putting an item, from the count on: what the walk leaves, the record and the item.
proof fn lemma_put_counts<E>(bee: Bee, highest: Option<u64>, key: Seq<u8>, value: Seq<u8>)
    requires
        begins(highest, bee.walk),
    ensures
        run_feed::<E, PutOrderedItem<Seq<u8>>>(
            Step::Ask(
                BeeRequest::Next,
                PutOrderedItem::Placing {
                    order: PutNextInOrder::Numbering {
                        highest: GetNextHighest::Reading { highest },
                        item_key: key,
                    },
                    key,
                    value,
                },
            ),
            bee,
            bee.walk.len() + 3,
        ) == Some(
            (
                Ok::<(), FeedError<E, Seq<u8>>>(()),
                walked_out(bee).put(
                    Sub::Order,
                    order_key(position_after(highest, bee.walk)),
                    key,
                ).put(Sub::Key, key, value),
            ),
        ),
    decreases bee.walk.len(),
{
    if bee.walk.len() == 0 {
        reveal_with_fuel(crate::step::run, 4);
        assert(bee.walk =~= Seq::empty());
        assert(walked_out(bee) == bee);
    } else {
        reveal_with_fuel(crate::step::run, 2);
        lemma_put_counts::<E>(
            bee.visited(),
            highest_with(highest, bee.walk[0].key),
            key,
            value,
        );
        assert(walked_out(bee.visited()) == walked_out(bee));
    }
}

/// Putting an item places it one after the highest position that is stored, or at `0` if none is,
/// and stores its value. The other items keep their positions, and they and the metadata keep
/// their values. It takes two blocks, beside the header if the Hyperbee was empty.
///
/// The highest of all numbers has no next position, so a Hyperbee that holds an item there is left
/// out.
pub proof fn law_put_places<E>(
    bee: Bee,
    placed: Map<u64, Seq<u8>>,
    key: Seq<u8>,
    value: Seq<u8>,
) -> (next: u64)
    requires
        holds_items(bee, placed),
        placed.dom().finite(),
        !placed.contains_key(u64::MAX),
        bee.valid(),
        bee.next_block() + 2 <= u64::MAX,
    ensures
        follows(next, placed.dom()),
        run_feed::<E, PutOrderedItem<Seq<u8>>>(
            PutOrderedItem::start::<E>(key, value),
            bee,
            order_walk(bee).len() + 4,
        ) matches Some((Ok(_), after)) && {
            &&& holds_items(after, placed.insert(next, key))
            &&& after.get_value(Sub::Key, key) == Some(Some(value))
            &&& forall|k: Seq<u8>|
                k != key ==> #[trigger] after.get(Sub::Key, k) == bee.get(Sub::Key, k)
            &&& forall|k: Seq<u8>| #[trigger]
                after.get(Sub::Metadata, k) == bee.get(Sub::Metadata, k)
            &&& after.version == bee.next_block() + 2
            &&& after.valid()
        },
{
    let next = position_after(None, order_walk(bee));
    let opened = bee.walked(bee.sub_entries(Sub::Order), true);
    let read = walked_out(bee);
    let recorded = read.put(Sub::Order, order_key(next), key);
    let after = recorded.put(Sub::Key, key, value);
    lemma_items_have_positions(bee, placed);
    lemma_next_position(bee, placed.dom());
    assert(!placed.dom().contains(next));
    lemma_put_counts::<E>(opened, None, key, value);
    reveal_with_fuel(crate::step::run, 2);
    assert(walked_out(opened) == read);
    crate::bee::law_put_changes_one_key(read, Sub::Order, order_key(next), key);
    crate::bee::law_put_changes_one_key(recorded, Sub::Key, key, value);
    lemma_same_items(bee, read, placed);
    lemma_item_placed(read, placed, next, key, value);
    assert(read.valid()) by {
        assert(forall|k: Seq<u8>| #[trigger]
            read.entries.contains_key(k) ==> bee.entries.contains_key(k));
    }
    assert forall|k: Seq<u8>| k != key implies #[trigger] after.get(Sub::Key, k) == bee.get(
        Sub::Key,
        k,
    ) by {
        assert(after.get(Sub::Key, k) == recorded.get(Sub::Key, k));
        assert(recorded.get(Sub::Key, k) == read.get(Sub::Key, k));
    }
    assert forall|k: Seq<u8>| #[trigger] after.get(Sub::Metadata, k) == bee.get(
        Sub::Metadata,
        k,
    ) by {
        assert(after.get(Sub::Metadata, k) == recorded.get(Sub::Metadata, k));
        assert(recorded.get(Sub::Metadata, k) == read.get(Sub::Metadata, k));
    }
    assert(run_feed::<E, PutOrderedItem<Seq<u8>>>(
        PutOrderedItem::start::<E>(key, value),
        bee,
        order_walk(bee).len() + 4,
    ) == Some((Ok::<(), FeedError<E, Seq<u8>>>(()), after)));
    next
}

/// Putting an item into a Hyperbee, whatever its order namespace holds, records it at the next
/// position and stores its value. Where there is an error in place of the next position, the put
/// ends with it, and nothing is written.
///
/// Where the key that is read first stands for the highest of all numbers, no position is next, so
/// such a Hyperbee is left out.
pub proof fn law_put_into_any_store<E>(bee: Bee, key: Seq<u8>, value: Seq<u8>)
    requires
        bee.sub_entries(Sub::Order).dom().finite(),
        order_walk(bee).len() > 0 ==> crate::order::order_number(order_walk(bee)[0].key) != Some(
            u64::MAX,
        ),
    ensures
        run_feed::<E, GetNextHighest>(
            GetNextHighest::start::<E>(),
            bee,
            order_walk(bee).len() + 2,
        ) matches Some((found, read)) && {
            &&& read.entries == bee.entries
            &&& read.version == bee.version
            &&& run_feed::<E, PutOrderedItem<Seq<u8>>>(
                PutOrderedItem::start::<E>(key, value),
                bee,
                order_walk(bee).len() + 4,
            ) == Some(
                match found {
                    Ok(next) => (
                        Ok::<(), FeedError<E, Seq<u8>>>(()),
                        read.put(Sub::Order, order_key(next), key).put(Sub::Key, key, value),
                    ),
                    Err(error) => (Err(error), read),
                },
            )
        },
{
    let opened = bee.walked(bee.sub_entries(Sub::Order), true);
    let walk = order_walk(bee);
    law_next_highest_of_any_store::<E>(bee);
    reveal_with_fuel(crate::step::run, 3);
    if begins(None, walk) {
        lemma_count::<E>(opened, None);
        lemma_put_counts::<E>(opened, None, key, value);
        assert(run_feed::<E, GetNextHighest>(
            GetNextHighest::start::<E>(),
            bee,
            walk.len() + 2,
        ) == Some(
            (Ok::<u64, FeedError<E, Seq<u8>>>(position_after(None, walk)), walked_out(opened)),
        ));
    }
}

/// Recording a key, from the count on.
proof fn lemma_place_counts<E>(bee: Bee, highest: Option<u64>, key: Seq<u8>)
    requires
        begins(highest, bee.walk),
    ensures
        run_feed::<E, PutNextInOrder<Seq<u8>>>(
            Step::Ask(
                BeeRequest::Next,
                PutNextInOrder::Numbering {
                    highest: GetNextHighest::Reading { highest },
                    item_key: key,
                },
            ),
            bee,
            bee.walk.len() + 2,
        ) == Some(
            (
                Ok::<(), FeedError<E, Seq<u8>>>(()),
                walked_out(bee).put(
                    Sub::Order,
                    order_key(position_after(highest, bee.walk)),
                    key,
                ),
            ),
        ),
    decreases bee.walk.len(),
{
    if bee.walk.len() == 0 {
        reveal_with_fuel(crate::step::run, 3);
        assert(bee.walk =~= Seq::empty());
        assert(walked_out(bee) == bee);
    } else {
        reveal_with_fuel(crate::step::run, 2);
        lemma_place_counts::<E>(bee.visited(), highest_with(highest, bee.walk[0].key), key);
        assert(walked_out(bee.visited()) == walked_out(bee));
    }
}

/// Recording a key, whatever the order namespace holds, writes it at the next position and nothing
/// else. Where there is an error in place of the next position, it ends with that, and nothing is
/// written.
///
/// Where the key that is read first stands for the highest of all numbers, no position is next, so
/// such a Hyperbee is left out.
pub proof fn law_put_next_in_order<E>(bee: Bee, key: Seq<u8>)
    requires
        bee.sub_entries(Sub::Order).dom().finite(),
        order_walk(bee).len() > 0 ==> crate::order::order_number(order_walk(bee)[0].key) != Some(
            u64::MAX,
        ),
    ensures
        run_feed::<E, GetNextHighest>(
            GetNextHighest::start::<E>(),
            bee,
            order_walk(bee).len() + 2,
        ) matches Some((found, read)) && run_feed::<E, PutNextInOrder<Seq<u8>>>(
            PutNextInOrder::start::<E>(key),
            bee,
            order_walk(bee).len() + 3,
        ) == Some(
            match found {
                Ok(next) => (
                    Ok::<(), FeedError<E, Seq<u8>>>(()),
                    read.put(Sub::Order, order_key(next), key),
                ),
                Err(error) => (Err(error), read),
            },
        ),
{
    let opened = bee.walked(bee.sub_entries(Sub::Order), true);
    let walk = order_walk(bee);
    law_next_highest_of_any_store::<E>(bee);
    reveal_with_fuel(crate::step::run, 3);
    if begins(None, walk) {
        lemma_count::<E>(opened, None);
        lemma_place_counts::<E>(opened, None, key);
        assert(run_feed::<E, GetNextHighest>(
            GetNextHighest::start::<E>(),
            bee,
            walk.len() + 2,
        ) == Some(
            (Ok::<u64, FeedError<E, Seq<u8>>>(position_after(None, walk)), walked_out(opened)),
        ));
    }
}

/// Putting an item into a feed makes it the last of the feed.
pub proof fn law_put_appends<E>(bee: Bee, items: Seq<Seq<u8>>, key: Seq<u8>, value: Seq<u8>)
    requires
        holds_feed(bee, items),
        items.len() < u64::MAX,
        bee.valid(),
        bee.next_block() + 2 <= u64::MAX,
    ensures
        run_feed::<E, PutOrderedItem<Seq<u8>>>(
            PutOrderedItem::start::<E>(key, value),
            bee,
            order_walk(bee).len() + 4,
        ) matches Some((Ok(_), after)) && {
            &&& holds_feed(after, items.push(key))
            &&& after.get_value(Sub::Key, key) == Some(Some(value))
            &&& forall|k: Seq<u8>|
                k != key ==> #[trigger] after.get(Sub::Key, k) == bee.get(Sub::Key, k)
            &&& forall|k: Seq<u8>| #[trigger]
                after.get(Sub::Metadata, k) == bee.get(Sub::Metadata, k)
            &&& after.version == bee.next_block() + 2
            &&& after.valid()
        },
{
    lemma_positions_finite(items);
    let placed = positions(items);
    let next = law_put_places::<E>(bee, placed, key, value);
    if items.len() == 0 {
        assert(placed.dom() =~= Set::empty());
    } else {
        assert(placed.dom().contains((items.len() - 1) as u64));
    }
    assert(next == items.len());
    assert(positions(items.push(key)) =~= placed.insert(next, key));
}

/// What a stream gives, read to its end: entries and errors in the order in which they come, if
/// there are at most `limit` of them; and the Hyperbee afterwards.
pub open spec fn read_stream<E>(
    bee: Bee,
    stream: FeedStream<E, RankedValues>,
    limit: nat,
) -> Option<(Seq<Streamed<E, Seq<u8>>>, Bee)>
    decreases limit,
{
    match run_feed::<E, NextEntry<E, RankedValues, Seq<u8>>>(
        NextEntry::start(stream),
        bee,
        bee.walk.len() + 2,
    ) {
        Some((Ok((_, Streamed::End)), after)) => Some((Seq::empty(), after)),
        Some((Ok((rest, item)), after)) => if limit == 0 {
            None
        } else {
            match read_stream::<E>(after, rest, (limit - 1) as nat) {
                Some((items, last)) => Some((seq![item] + items, last)),
                None => None,
            }
        },
        _ => None,
    }
}

/// What a stream gives for an entry of the order namespace: the item at that position, or what is
/// wrong with the entry.
pub open spec fn item_for<E>(bee: Bee, order: KeyValue<Seq<u8>>) -> Streamed<E, Seq<u8>> {
    match (crate::order::order_number(order.key), order.value) {
        (None, _) => Streamed::Failed(FeedError::InvalidOrderKey(order.key)),
        (Some(n), None) => Streamed::Failed(FeedError::MissingOrderValue(n)),
        (Some(n), Some(key)) => match bee.get(Sub::Key, key) {
            None => Streamed::Failed(FeedError::MissingKeyEntry(key)),
            Some((seq, value)) => Streamed::Entry(FeedEntry { seq, key, value, order_index: n }),
        },
    }
}

/// The entries of a walk with their ranks, after `read` of it.
pub open spec fn with_ranks(read: RankedValues, walk: Seq<KeyValue<Seq<u8>>>) -> RankedValues
    decreases walk.len(),
{
    if walk.len() == 0 {
        read
    } else {
        with_ranks(
            read.push((crate::feed::rank_after(read, walk[0].key), walk[0])),
            walk.skip(1),
        )
    }
}

/// The entries of the order namespace in the order of the feed: by falling ranks, where an entry
/// that stands for no position has the rank of the one that the walk visits before it.
pub open spec fn feed_order(bee: Bee) -> RankedValues {
    crate::ranking::ranked(with_ranks(Seq::empty(), order_walk(bee)))
}

/// Reading the walk to its end, after `read` of it.
proof fn lemma_collect<E>(bee: Bee, read: RankedValues, limit: nat)
    ensures
        run_feed::<E, NextEntry<E, RankedValues, Seq<u8>>>(
            Step::Ask(BeeRequest::Next, NextEntry::Collecting { walk: read }),
            bee,
            bee.walk.len() + 1 + limit,
        ) == run_feed::<E, NextEntry<E, RankedValues, Seq<u8>>>(
            NextEntry::start(FeedStream::read(with_ranks(read, bee.walk), Rest::Ended)),
            walked_out(bee),
            limit,
        ),
    decreases bee.walk.len(),
{
    if bee.walk.len() == 0 {
        assert(bee.walk =~= Seq::empty());
        assert(walked_out(bee) == bee);
    } else {
        let entry = bee.walk[0];
        let after = bee.visited();
        lemma_collect::<E>(
            after,
            read.push((crate::feed::rank_after(read, entry.key), entry)),
            limit,
        );
        assert(walked_out(after) == walked_out(bee));
    }
}

/// What a stream with these entries ready gives.
spec fn given<E>(bee: Bee, ready: RankedValues) -> Seq<Streamed<E, Seq<u8>>> {
    Seq::new(ready.len(), |k: int| item_for::<E>(bee, ready[ready.len() - 1 - k].1))
}

/// A stream whose walk has ended gives what the entries that are ready stand for.
proof fn lemma_read_ready<E>(bee: Bee, ready: RankedValues)
    ensures
        read_stream::<E>(bee, FeedStream { ready, rest: Rest::Ended }, ready.len()) == Some(
            (given::<E>(bee, ready), bee),
        ),
    decreases ready.len(),
{
    reveal_with_fuel(crate::step::run, 3);
    if ready.len() == 0 {
        assert(given::<E>(bee, ready) =~= Seq::empty());
    } else {
        let rest = ready.drop_last();
        lemma_read_ready::<E>(bee, rest);
        assert(seq![item_for::<E>(bee, ready.last().1)] + given::<E>(bee, rest) =~= given::<E>(
            bee,
            ready,
        ));
    }
}

/// A stream of which nothing was read gives what the entries of the walk stand for, by falling
/// ranks.
proof fn lemma_read_unread<E>(bee: Bee)
    ensures
        ({
            let sorted = crate::ranking::ranked(with_ranks(Seq::empty(), bee.walk));
            read_stream::<E>(bee, FeedStream::unread(), sorted.len()) == Some(
                (
                    Seq::new(sorted.len(), |k: int| item_for::<E>(bee, sorted[k].1)),
                    walked_out(bee),
                ),
            )
        }),
{
    let walk = with_ranks(Seq::empty(), bee.walk);
    let sorted = crate::ranking::ranked(walk);
    let ready = sorted.reverse();
    let end = walked_out(bee);
    lemma_collect::<E>(bee, Seq::empty(), 1);
    lemma_read_ready::<E>(end, ready);
    assert(given::<E>(end, ready) =~= Seq::new(
        sorted.len(),
        |k: int| item_for::<E>(bee, sorted[k].1),
    ));
    reveal_with_fuel(crate::step::run, 3);
    let stream = FeedStream::<E, RankedValues> { ready, rest: Rest::Ended };
    assert(stream == FeedStream::<E, RankedValues>::read(walk, Rest::Ended));
    assert(run_feed::<E, NextEntry<E, RankedValues, Seq<u8>>>(
        NextEntry::start(FeedStream::<E, RankedValues>::unread()),
        bee,
        bee.walk.len() + 2,
    ) == run_feed::<E, NextEntry<E, RankedValues, Seq<u8>>>(
        NextEntry::start(stream),
        end,
        end.walk.len() + 2,
    ));
}

/// The ranks that entries get: their positions, or those of the entries before them.
proof fn lemma_with_ranks(read: RankedValues, walk: Seq<KeyValue<Seq<u8>>>)
    ensures
        ({
            let ranks = with_ranks(read, walk);
            &&& ranks.len() == read.len() + walk.len()
            &&& forall|i: int| 0 <= i < read.len() ==> #[trigger] ranks[i] == read[i]
            &&& forall|i: int|
                read.len() <= i < ranks.len() ==> (#[trigger] ranks[i]).1 == walk[i - read.len()]
                    && ranks[i].0 == crate::feed::rank_after(
                    ranks.take(i),
                    walk[i - read.len()].key,
                )
        }),
    decreases walk.len(),
{
    let ranks = with_ranks(read, walk);
    if walk.len() > 0 {
        let entry = walk[0];
        let on = read.push((crate::feed::rank_after(read, entry.key), entry));
        lemma_with_ranks(on, walk.skip(1));
        assert forall|i: int| 0 <= i < read.len() implies #[trigger] ranks[i] == read[i] by {
            assert(ranks[i] == on[i]);
        }
        assert forall|i: int| read.len() <= i < ranks.len() implies (#[trigger] ranks[i]).1
            == walk[i - read.len()] && ranks[i].0 == crate::feed::rank_after(
            ranks.take(i),
            walk[i - read.len()].key,
        ) by {
            if i == read.len() {
                assert(ranks[i] == on[i]);
                assert(ranks.take(i) =~= read);
            } else {
                assert(walk.skip(1)[i - on.len()] == walk[i - read.len()]);
            }
        }
    }
}

/// Streaming gives one item for each entry of the order namespace, whatever the entries hold, and
/// then ends: the item at the position, or in its place the error of an entry that is broken. A
/// broken entry changes nothing about what is given for the others. The order is that of
/// [`feed_order`], which holds each entry of the order namespace once and whose ranks fall. Where
/// the ranks fall along the walk already, it is the order of the walk. Reading changes nothing that
/// is held, nor the version.
pub proof fn law_stream_of_any_store<E>(bee: Bee)
    requires
        bee.sub_entries(Sub::Order).dom().finite(),
    ensures
        run_feed::<E, GetFeedStream>(GetFeedStream::start::<E>(), bee, 1) matches Some(
            (Ok(stream), opened),
        ) && read_stream::<E>(opened, stream, feed_order(bee).len()) == Some(
            (
                Seq::new(
                    feed_order(bee).len(),
                    |k: int| item_for::<E>(bee, feed_order(bee)[k].1),
                ),
                walked_out(bee),
            ),
        ),
        crate::listing::is_listing(bee.sub_entries(Sub::Order), true, order_walk(bee)),
        feed_order(bee).len() == order_walk(bee).len(),
        feed_order(bee).to_multiset() == with_ranks(Seq::empty(), order_walk(bee)).to_multiset(),
        crate::ranking::falls(feed_order(bee)),
        crate::ranking::falls(with_ranks(Seq::empty(), order_walk(bee))) ==> feed_order(bee)
            == with_ranks(Seq::empty(), order_walk(bee)),
        forall|i: int|
            0 <= i < order_walk(bee).len() ==> {
                let ranks = #[trigger] with_ranks(Seq::empty(), order_walk(bee));
                &&& ranks[i].1 == #[trigger] order_walk(bee)[i]
                &&& ranks[i].0 == match crate::order::order_number(order_walk(bee)[i].key) {
                    Some(n) => n,
                    None => if i == 0 {
                        u64::MAX
                    } else {
                        ranks[i - 1].0
                    },
                }
            },
{
    let list = order_walk(bee);
    let ranks = with_ranks(Seq::empty(), list);
    let sorted = feed_order(bee);
    let opened = bee.walked(bee.sub_entries(Sub::Order), true);
    crate::listing::lemma_listing_exists(bee.sub_entries(Sub::Order), true);
    crate::ranking::law_ranked(ranks);
    lemma_with_ranks(Seq::empty(), list);
    lemma_read_unread::<E>(opened);
    reveal_with_fuel(crate::step::run, 2);
    assert(walked_out(opened) == walked_out(bee));
    assert(Seq::new(sorted.len(), |k: int| item_for::<E>(opened, sorted[k].1)) =~= Seq::new(
        sorted.len(),
        |k: int| item_for::<E>(bee, sorted[k].1),
    ));
    assert(run_feed::<E, GetFeedStream>(GetFeedStream::start::<E>(), bee, 1) == Some(
        (
            Ok::<FeedStream<E, RankedValues>, FeedError<E, Seq<u8>>>(FeedStream::unread()),
            opened,
        ),
    ));
    if crate::ranking::falls(ranks) {
        crate::ranking::law_ranked_in_order(ranks);
    }
}

/// The entries of a walk with their positions.
spec fn numbered(walk: Seq<KeyValue<Seq<u8>>>) -> RankedValues {
    Seq::new(
        walk.len(),
        |i: int| (crate::order::order_number(walk[i].key).unwrap(), walk[i]),
    )
}

/// Entries that stand for positions are ranked by them.
proof fn lemma_numbered(walk: Seq<KeyValue<Seq<u8>>>)
    requires
        forall|i: int|
            0 <= i < walk.len() ==> crate::order::order_number((#[trigger] walk[i]).key) is Some,
    ensures
        with_ranks(Seq::empty(), walk) == numbered(walk),
{
    lemma_with_ranks(Seq::empty(), walk);
    assert forall|i: int| 0 <= i < walk.len() implies with_ranks(Seq::empty(), walk)[i]
        == numbered(walk)[i] by {
        assert(crate::order::order_number(walk[i].key) is Some);
    }
    assert(with_ranks(Seq::empty(), walk) =~= numbered(walk));
}

/// What stands in a sorted sequence stood in the sequence before.
proof fn lemma_ranked_holds(walk: RankedValues, i: int)
    requires
        0 <= i < walk.len(),
    ensures
        exists|j: int| 0 <= j < walk.len() && #[trigger] walk[j] == crate::ranking::ranked(walk)[i],
{
    let sorted = crate::ranking::ranked(walk);
    crate::ranking::law_ranked(walk);
    sorted.to_multiset_ensures();
    walk.to_multiset_ensures();
    assert(sorted.contains(sorted[i]));
    assert(sorted.to_multiset().count(sorted[i]) > 0);
    assert(walk.contains(sorted[i]));
}

/// What stood in a sequence stands in the sorted one.
proof fn lemma_ranked_keeps(walk: RankedValues, i: int)
    requires
        0 <= i < walk.len(),
    ensures
        exists|j: int|
            0 <= j < walk.len() && #[trigger] crate::ranking::ranked(walk)[j] == walk[i],
{
    let sorted = crate::ranking::ranked(walk);
    crate::ranking::law_ranked(walk);
    sorted.to_multiset_ensures();
    walk.to_multiset_ensures();
    assert(walk.contains(walk[i]));
    assert(walk.to_multiset().count(walk[i]) > 0);
    assert(sorted.contains(walk[i]));
}

/// The walk of the order namespace, sorted by positions, has each position once.
proof fn lemma_sorted_descends(bee: Bee, placed: Map<u64, Seq<u8>>)
    requires
        holds_items(bee, placed),
        placed.dom().finite(),
    ensures
        ({
            let sorted = crate::ranking::ranked(numbered(order_walk(bee)));
            &&& sorted.len() == order_walk(bee).len()
            &&& forall|i: int, j: int|
                0 <= i < j < sorted.len() ==> (#[trigger] sorted[i]).0 > (#[trigger] sorted[j]).0
        }),
{
    let list = order_walk(bee);
    let walk = numbered(list);
    let sorted = crate::ranking::ranked(walk);
    lemma_order_walk(bee, placed);
    crate::ranking::law_ranked(walk);
    assert(walk.no_duplicates()) by {
        assert forall|i: int, j: int| 0 <= i < walk.len() && 0 <= j < walk.len() && i
            != j implies walk[i] != walk[j] by {
            let (a, b) = if i < j { (i, j) } else { (j, i) };
            assert(crate::listing::visited_before(list[a].key, list[b].key, true));
            crate::bytes::lemma_before_irreflexive(list[a].key);
        }
    }
    walk.lemma_multiset_has_no_duplicates();
    sorted.lemma_multiset_has_no_duplicates_conv();
    assert forall|i: int, j: int| 0 <= i < j < sorted.len() implies (#[trigger] sorted[i]).0 > (
    #[trigger] sorted[j]).0 by {
        lemma_ranked_holds(walk, i);
        lemma_ranked_holds(walk, j);
        let x = choose|x: int| 0 <= x < walk.len() && #[trigger] walk[x] == sorted[i];
        let y = choose|y: int| 0 <= y < walk.len() && #[trigger] walk[y] == sorted[j];
        if sorted[i].0 == sorted[j].0 {
            assert(list[x].key == list[y].key);
            assert(list[x] == list[y]);
        }
    }
}

/// Streaming gives the entries by strictly descending positions: one for each position that is
/// stored, with the key that stands there and what is stored under the key, and then ends. It
/// changes nothing that is held, nor the version.
pub proof fn law_stream_descends<E>(bee: Bee, placed: Map<u64, Seq<u8>>)
    requires
        holds_items(bee, placed),
        placed.dom().finite(),
    ensures
        run_feed::<E, GetFeedStream>(GetFeedStream::start::<E>(), bee, 1) matches Some(
            (Ok(stream), opened),
        ) && {
            &&& read_stream::<E>(opened, stream, order_walk(bee).len()) matches Some(
                (results, after),
            )
            &&& after == walked_out(bee)
            &&& forall|k: int|
                0 <= k < results.len() ==> ((#[trigger] results[k]) matches Streamed::Entry(entry)
                    && {
                    &&& placed.contains_key(entry.order_index)
                    &&& entry.key == placed[entry.order_index]
                    &&& bee.get(Sub::Key, entry.key) == Some((entry.seq, entry.value))
                })
            &&& forall|i: int, j: int|
                0 <= i < j < results.len() ==> (#[trigger] results[i])->Entry_0.order_index > (
                #[trigger] results[j])->Entry_0.order_index
            &&& forall|n: u64| #[trigger]
                placed.contains_key(n) ==> exists|k: int|
                    0 <= k < results.len() && (#[trigger] results[k])->Entry_0.order_index == n
        },
{
    let list = order_walk(bee);
    let walk = numbered(list);
    let sorted = crate::ranking::ranked(walk);
    let results = Seq::new(sorted.len(), |k: int| item_for::<E>(bee, sorted[k].1));
    lemma_order_walk(bee, placed);
    lemma_numbered(list);
    lemma_sorted_descends(bee, placed);
    law_stream_of_any_store::<E>(bee);
    assert forall|k: int| 0 <= k < results.len() implies ((
    #[trigger] results[k]) matches Streamed::Entry(entry) && {
        &&& placed.contains_key(entry.order_index)
        &&& entry.key == placed[entry.order_index]
        &&& bee.get(Sub::Key, entry.key) == Some((entry.seq, entry.value))
        &&& entry.order_index == sorted[k].0
    }) by {
        lemma_ranked_holds(walk, k);
        let x = choose|x: int| 0 <= x < walk.len() && #[trigger] walk[x] == sorted[k];
        let n = crate::order::order_number(list[x].key).unwrap();
        assert(placed.contains_key(n));
        assert(bee.get(Sub::Key, placed[n]) is Some);
    }
    assert forall|i: int, j: int| 0 <= i < j < results.len() implies (
    #[trigger] results[i])->Entry_0.order_index > (
    #[trigger] results[j])->Entry_0.order_index by {
        assert(sorted[i].0 > sorted[j].0);
    }
    assert forall|n: u64| #[trigger] placed.contains_key(n) implies exists|k: int|
        0 <= k < results.len() && (#[trigger] results[k])->Entry_0.order_index == n by {
        let x = choose|x: int| 0 <= x < list.len() && (#[trigger] list[x]).key == order_key(n);
        crate::order::law_order_key_round_trip(n);
        lemma_ranked_keeps(walk, x);
        let k = choose|k: int| 0 <= k < walk.len() && #[trigger] sorted[k] == walk[x];
        assert(results[k]->Entry_0.order_index == n);
    }
}

/// One of the entries has the position `m`.
spec fn gives<E>(results: Seq<Streamed<E, Seq<u8>>>, m: u64) -> bool {
    exists|i: int| 0 <= i < results.len() && (#[trigger] results[i])->Entry_0.order_index == m
}

/// Numbers below `n` that strictly descend and leave none out are all of them, from the last.
proof fn lemma_countdown<E>(results: Seq<Streamed<E, Seq<u8>>>, n: nat, k: int)
    requires
        n <= u64::MAX,
        forall|i: int|
            0 <= i < results.len() ==> ((#[trigger] results[i])->Entry_0.order_index as nat) < n,
        forall|i: int, j: int|
            0 <= i < j < results.len() ==> (#[trigger] results[i])->Entry_0.order_index > (
            #[trigger] results[j])->Entry_0.order_index,
        forall|m: u64| m < n ==> #[trigger] gives(results, m),
        0 <= k <= n,
    ensures
        k < n ==> k < results.len() && results[k]->Entry_0.order_index == n - 1 - k,
        k == n ==> results.len() == n,
    decreases k,
{
    if k > 0 {
        lemma_countdown(results, n, k - 1);
    }
    if k < n {
        let m = (n - 1 - k) as u64;
        assert(gives(results, m));
        let i = choose|i: int|
            0 <= i < results.len() && (#[trigger] results[i])->Entry_0.order_index == m;
        if k > 0 {
            assert(results[k - 1]->Entry_0.order_index == n - k);
            if i <= k - 1 && i < k - 1 {
                assert(results[i]->Entry_0.order_index > results[k - 1]->Entry_0.order_index);
            }
        }
        assert(i >= k);
        if i > k {
            assert(results[k]->Entry_0.order_index > results[i]->Entry_0.order_index);
            if k > 0 {
                assert(results[k - 1]->Entry_0.order_index > results[k]->Entry_0.order_index);
            }
        }
    } else if n > 0 {
        if results.len() > n {
            assert(results[n - 1]->Entry_0.order_index > results[n as int]->Entry_0.order_index);
        }
    } else if results.len() > 0 {
        assert((results[0]->Entry_0.order_index as nat) < n);
    }
}

/// The entry of the feed at position `i`.
pub open spec fn feed_entry(bee: Bee, items: Seq<Seq<u8>>, i: int) -> FeedEntry<Seq<u8>> {
    FeedEntry {
        seq: bee.get(Sub::Key, items[i]).unwrap().0,
        key: items[i],
        value: bee.get(Sub::Key, items[i]).unwrap().1,
        order_index: i as u64,
    }
}

/// Streaming a feed gives its entries from the newest to the oldest, each with its position, its
/// key and what is stored under the key, and then ends. It changes nothing that is held, nor the
/// version.
pub proof fn law_stream_is_newest_first<E>(bee: Bee, items: Seq<Seq<u8>>)
    requires
        holds_feed(bee, items),
    ensures
        run_feed::<E, GetFeedStream>(GetFeedStream::start::<E>(), bee, 1) matches Some(
            (Ok(stream), opened),
        ) && read_stream::<E>(opened, stream, order_walk(bee).len()) == Some(
            (
                Seq::new(
                    items.len(),
                    |k: int|
                        Streamed::<E, Seq<u8>>::Entry(feed_entry(bee, items, items.len() - 1 - k)),
                ),
                walked_out(bee),
            ),
        ),
{
    let placed = positions(items);
    lemma_positions_finite(items);
    law_stream_descends::<E>(bee, placed);
    let (stream, opened) = match run_feed::<E, GetFeedStream>(
        GetFeedStream::start::<E>(),
        bee,
        1,
    ) {
        Some((Ok(stream), opened)) => (stream, opened),
        _ => arbitrary(),
    };
    let results = read_stream::<E>(opened, stream, order_walk(bee).len()).unwrap().0;
    let expected = Seq::new(
        items.len(),
        |k: int| Streamed::<E, Seq<u8>>::Entry(feed_entry(bee, items, items.len() - 1 - k)),
    );
    assert forall|i: int| 0 <= i < results.len() implies ((
    #[trigger] results[i])->Entry_0.order_index as nat) < items.len() by {
        assert(placed.contains_key(results[i]->Entry_0.order_index));
    }
    assert forall|m: u64| m < items.len() implies #[trigger] gives(results, m) by {
        assert(placed.contains_key(m));
    }
    lemma_countdown(results, items.len(), items.len() as int);
    assert forall|k: int| 0 <= k < results.len() implies results[k] == expected[k] by {
        lemma_countdown(results, items.len(), k);
        assert(results[k] is Entry);
        let entry = results[k]->Entry_0;
        assert(bee.get(Sub::Key, entry.key) == Some((entry.seq, entry.value)));
    }
    assert(results =~= expected);
}

/// The Hyperbee after the items, keys with values, were put one after the other, if every put
/// succeeds.
pub open spec fn put_all<E>(bee: Bee, items: Seq<(Seq<u8>, Seq<u8>)>) -> Option<Bee>
    decreases items.len(),
{
    if items.len() == 0 {
        Some(bee)
    } else {
        match put_all::<E>(bee, items.drop_last()) {
            None => None,
            Some(before) => match run_feed::<E, PutOrderedItem<Seq<u8>>>(
                PutOrderedItem::start::<E>(items.last().0, items.last().1),
                before,
                order_walk(before).len() + 4,
            ) {
                Some((Ok(_), after)) => Some(after),
                _ => None,
            },
        }
    }
}

/// The value that was put last under `key`.
pub open spec fn last_value(items: Seq<(Seq<u8>, Seq<u8>)>, key: Seq<u8>) -> Option<Seq<u8>>
    decreases items.len(),
{
    if items.len() == 0 {
        None
    } else if items.last().0 == key {
        Some(items.last().1)
    } else {
        last_value(items.drop_last(), key)
    }
}

/// The keys of the items.
pub open spec fn keys_of(items: Seq<(Seq<u8>, Seq<u8>)>) -> Seq<Seq<u8>> {
    items.map_values(|item: (Seq<u8>, Seq<u8>)| item.0)
}

/// Items that are put into an empty Hyperbee make a feed in the order in which they were put,
/// and each key has the value that was put last under it.
pub proof fn law_put_all_makes_feed<E>(items: Seq<(Seq<u8>, Seq<u8>)>)
    requires
        1 + 2 * items.len() <= u64::MAX,
    ensures
        put_all::<E>(Bee::empty(), items) matches Some(after) && {
            &&& holds_feed(after, keys_of(items))
            &&& forall|key: Seq<u8>| #[trigger]
                after.get_value(Sub::Key, key) == match last_value(items, key) {
                    Some(value) => Some(Some(value)),
                    None => None,
                }
            &&& after.valid()
            &&& after.version == if items.len() == 0 {
                0
            } else {
                1 + 2 * items.len()
            }
        },
    decreases items.len(),
{
    if items.len() == 0 {
        assert(keys_of(items) =~= Seq::empty());
        law_empty_feed();
    } else {
        let earlier = items.drop_last();
        let (key, value) = items.last();
        law_put_all_makes_feed::<E>(earlier);
        let before = put_all::<E>(Bee::empty(), earlier).unwrap();
        law_put_appends::<E>(before, keys_of(earlier), key, value);
        assert(keys_of(items) =~= keys_of(earlier).push(key));
        let after = put_all::<E>(Bee::empty(), items).unwrap();
        assert forall|k: Seq<u8>| #[trigger]
            after.get_value(Sub::Key, k) == match last_value(items, k) {
                Some(v) => Some(Some(v)),
                None => None,
            } by {
            if k != key {
                assert(after.get(Sub::Key, k) == before.get(Sub::Key, k));
                assert(before.get_value(Sub::Key, k) == match last_value(earlier, k) {
                    Some(v) => Some(Some(v)),
                    None => None,
                });
            }
        }
    }
}

/// A feed keeps the order of insertion: streaming the items that were put into an empty Hyperbee
/// gives as many entries as there were items, the last one put first, each with its position, its
/// key, and the value that was put last under the key. The items are as many as a Hyperbee has
/// blocks for.
pub proof fn law_feed_keeps_insertion_order<E>(items: Seq<(Seq<u8>, Seq<u8>)>)
    requires
        1 + 2 * items.len() <= u64::MAX,
    ensures
        put_all::<E>(Bee::empty(), items) matches Some(bee) && run_feed::<E, GetFeedStream>(
            GetFeedStream::start::<E>(),
            bee,
            1,
        ) matches Some((Ok(stream), opened)) && read_stream::<E>(
            opened,
            stream,
            order_walk(bee).len(),
        ) matches Some((results, _)) && {
            &&& results.len() == items.len()
            &&& forall|k: int|
                0 <= k < results.len() ==> ((#[trigger] results[k]) matches Streamed::Entry(entry)
                    && {
                    let i = items.len() - 1 - k;
                    &&& entry.order_index == i
                    &&& entry.key == items[i].0
                    &&& entry.value == last_value(items, items[i].0)
                    &&& entry.value is Some
                })
        },
{
    law_put_all_makes_feed::<E>(items);
    let bee = put_all::<E>(Bee::empty(), items).unwrap();
    let keys = keys_of(items);
    law_stream_is_newest_first::<E>(bee, keys);
    assert forall|i: int|
        #![trigger feed_entry(bee, keys, i)]
        0 <= i < items.len() implies ({
        let entry = feed_entry(bee, keys, i);
        &&& entry.order_index == i
        &&& entry.key == items[i].0
        &&& entry.value == last_value(items, items[i].0)
        &&& entry.value is Some
    }) by {
        assert(keys[i] == items[i].0);
        assert(positions(keys).contains_key(i as u64));
        assert(bee.get(Sub::Key, keys[i]) is Some);
        assert(bee.get_value(Sub::Key, keys[i]) == match last_value(items, keys[i]) {
            Some(v) => Some(Some(v)),
            None => None,
        });
    }
}

/// A key is reported present if and only if an item is stored under it.
pub proof fn law_has_key<E>(bee: Bee, key: Seq<u8>)
    ensures
        run_feed::<E, HasKey>(HasKey::start::<E>(key), bee, 1) == Some(
            (Ok::<bool, FeedError<E, Seq<u8>>>(bee.get(Sub::Key, key) is Some), bee),
        ),
{
    reveal_with_fuel(crate::step::run, 2);
}

/// The version is the number of blocks.
pub proof fn law_version<E>(bee: Bee)
    ensures
        run_feed::<E, GetVersion>(GetVersion::start::<E>(), bee, 1) == Some(
            (Ok::<u64, FeedError<E, Seq<u8>>>(bee.version), bee),
        ),
{
    reveal_with_fuel(crate::step::run, 2);
}

/// Setting a metadata field makes it the value that is read afterwards. No other field and no
/// item changes, and a feed stays the feed it was.
pub proof fn law_put_metadata<E>(bee: Bee, key: Seq<u8>, value: Seq<u8>)
    ensures
        run_feed::<E, PutMetadata>(PutMetadata::start::<E>(key, value), bee, 1) matches Some(
            (Ok(_), after),
        ) && {
            &&& run_feed::<E, GetMetadataValue>(GetMetadataValue::start::<E>(key), after, 1)
                == Some((Ok::<Option<Seq<u8>>, FeedError<E, Seq<u8>>>(Some(value)), after))
            &&& forall|s: Sub, k: Seq<u8>|
                s != Sub::Metadata || k != key ==> #[trigger] after.get(s, k) == bee.get(s, k)
            &&& forall|placed: Map<u64, Seq<u8>>|
                holds_items(bee, placed) ==> #[trigger] holds_items(after, placed)
            &&& bee.has_room() ==> after.version == bee.next_block() + 1
            &&& bee.valid() && bee.has_room() ==> after.valid()
        },
{
    reveal_with_fuel(crate::step::run, 2);
    let after = bee.put(Sub::Metadata, key, value);
    crate::bee::law_put_changes_one_key(bee, Sub::Metadata, key, value);
    assert forall|placed: Map<u64, Seq<u8>>| holds_items(
        bee,
        placed,
    ) implies #[trigger] holds_items(after, placed) by {
        lemma_same_items(bee, after, placed);
    }
    assert(run_feed::<E, PutMetadata>(PutMetadata::start::<E>(key, value), bee, 1) == Some(
        (Ok::<(), FeedError<E, Seq<u8>>>(()), after),
    ));
}

/// Updating a metadata field writes if and only if the field is unset or has another value, and
/// says whether it wrote. Either way the field has the value afterwards. Without a write the
/// Hyperbee is as before, to the number of its blocks; with one it grows by a block. A second
/// update to the same value writes nothing.
pub proof fn law_maybe_update_metadata<E>(bee: Bee, key: Seq<u8>, value: Seq<u8>)
    requires
        bee.valid(),
        bee.has_room(),
    ensures
        run_feed::<E, MaybeUpdateMetadata>(
            MaybeUpdateMetadata::start::<E>(key, value),
            bee,
            1,
        ) matches Some((Ok(wrote), after)) && {
            &&& wrote == (bee.get_value(Sub::Metadata, key) != Some(Some(value)))
            &&& !wrote ==> after == bee
            &&& wrote ==> after.version == bee.next_block() + 1
            &&& run_feed::<E, GetMetadataValue>(GetMetadataValue::start::<E>(key), after, 1)
                == Some((Ok::<Option<Seq<u8>>, FeedError<E, Seq<u8>>>(Some(value)), after))
            &&& run_feed::<E, MaybeUpdateMetadata>(
                MaybeUpdateMetadata::start::<E>(key, value),
                after,
                1,
            ) == Some((Ok::<bool, FeedError<E, Seq<u8>>>(false), after))
            &&& forall|s: Sub, k: Seq<u8>|
                s != Sub::Metadata || k != key ==> #[trigger] after.get(s, k) == bee.get(s, k)
            &&& after.valid()
        },
{
    reveal_with_fuel(crate::step::run, 2);
    crate::bee::law_put_changes_one_key(bee, Sub::Metadata, key, value);
    let wrote = bee.get_value(Sub::Metadata, key) != Some(Some(value));
    let after = if wrote { bee.put(Sub::Metadata, key, value) } else { bee };
    assert(after.entries.contains_key(Sub::Metadata.full_key(key)));
    assert(after.version >= 1);
    assert(run_feed::<E, MaybeUpdateMetadata>(
        MaybeUpdateMetadata::start::<E>(key, value),
        bee,
        1,
    ) == Some((Ok::<bool, FeedError<E, Seq<u8>>>(wrote), after)));
}

/// What stands under the name of a metadata field, if anything does.
pub open spec fn field_value(bee: Bee, key: Seq<u8>) -> Option<Seq<u8>> {
    match bee.get_value(Sub::Metadata, key) {
        Some(value) => value,
        None => None,
    }
}

/// The value of a metadata field is what stands under its name, if anything does.
pub proof fn law_get_metadata_value<E>(bee: Bee, key: Seq<u8>)
    ensures
        run_feed::<E, GetMetadataValue>(GetMetadataValue::start::<E>(key), bee, 1) == Some(
            (
                Ok::<Option<Seq<u8>>, FeedError<E, Seq<u8>>>(field_value(bee, key)),
                bee,
            ),
        ),
{
    reveal_with_fuel(crate::step::run, 2);
}

/// The metadata fields with these names, and their values.
pub open spec fn metadata_fields(bee: Bee, names: Seq<Seq<char>>) -> FieldValues {
    Seq::new(
        names.len(),
        |i: int|
            (
                names[i],
                field_value(bee, vstd::utf8::encode_utf8(names[i])),
            ),
    )
}

/// Reading on from the first `n` fields gives all of them.
proof fn lemma_read_on<E>(bee: Bee, names: Seq<Seq<char>>, n: nat)
    requires
        n <= names.len(),
    ensures
        run_feed::<E, GetMetadata<Seq<Seq<char>>, FieldValues>>(
            GetMetadata::read_on::<E>(names, metadata_fields(bee, names).take(n as int)),
            bee,
            (names.len() - n) as nat,
        ) == Some((Ok::<FieldValues, FeedError<E, Seq<u8>>>(metadata_fields(bee, names)), bee)),
    decreases names.len() - n,
{
    let fields = metadata_fields(bee, names);
    if n == names.len() {
        assert(fields.take(n as int) =~= fields);
    } else {
        lemma_read_on::<E>(bee, names, n + 1);
        assert(fields.take(n as int).push(fields[n as int]) =~= fields.take(n as int + 1));
    }
}

/// Reading the metadata gives each named field with its value, in the order of the names.
pub proof fn law_get_metadata<E>(bee: Bee, names: Seq<Seq<char>>)
    ensures
        run_feed::<E, GetMetadata<Seq<Seq<char>>, FieldValues>>(
            GetMetadata::start::<E>(names),
            bee,
            names.len(),
        ) == Some((Ok::<FieldValues, FeedError<E, Seq<u8>>>(metadata_fields(bee, names)), bee)),
{
    lemma_read_on::<E>(bee, names, 0);
    assert(metadata_fields(bee, names).take(0) =~= Seq::empty());
}

/// The operation ends with the error of the Hyperbee and asks for no more.
pub open spec fn ends_with<
    E,
    S: Program<BeeRequest<Seq<u8>>, BeeReply<E, Seq<u8>>, Failure = FeedError<E, Seq<u8>>>,
>(state: S, error: E) -> bool {
    state.next(BeeReply::Failed(error)) == Step::<
        BeeRequest<Seq<u8>>,
        S,
        S::Value,
        FeedError<E, Seq<u8>>,
    >::Done(Err(FeedError::Hyperbee(error)))
}

/// Where the walk fails after order keys were read, the next position is the one after the highest
/// of those, and a put goes on with it.
pub proof fn law_count_stands_after_failure<E>(
    highest: u64,
    key: Seq<u8>,
    value: Seq<u8>,
    error: E,
)
    requires
        highest < u64::MAX,
    ensures
        (GetNextHighest::Reading { highest: Some(highest) }).next(BeeReply::Failed(error))
            == Step::<
            BeeRequest<Seq<u8>>,
            GetNextHighest,
            u64,
            FeedError<E, Seq<u8>>,
        >::Done(Ok((highest + 1) as u64)),
        (PutOrderedItem::Placing {
            order: PutNextInOrder::Numbering {
                highest: GetNextHighest::Reading { highest: Some(highest) },
                item_key: key,
            },
            key,
            value,
        }).next(BeeReply::Failed(error)) == Step::<
            BeeRequest<Seq<u8>>,
            PutOrderedItem<Seq<u8>>,
            (),
            FeedError<E, Seq<u8>>,
        >::Ask(
            BeeRequest::Put {
                sub: Sub::Order,
                key: order_key((highest + 1) as u64),
                value: key,
            },
            PutOrderedItem::Placing { order: PutNextInOrder::Recording, key, value },
        ),
{
}

/// The search for the next position has read an order key.
pub open spec fn has_read(highest: GetNextHighest) -> bool {
    highest matches GetNextHighest::Reading { highest: Some(_) }
}

/// Where the Hyperbee fails, the operation that asked ends with its error, unless it was reading
/// on after an order key.
pub proof fn law_failure_ends_operation<E>(
    version: GetVersion,
    has_key: HasKey,
    highest: GetNextHighest,
    order: PutNextInOrder<Seq<u8>>,
    item: PutOrderedItem<Seq<u8>>,
    stream: GetFeedStream,
    metadata: PutMetadata,
    update: MaybeUpdateMetadata,
    value: GetMetadataValue,
    values: GetMetadata<Seq<Seq<char>>, FieldValues>,
    error: E,
)
    ensures
        ends_with(version, error),
        ends_with(has_key, error),
        !has_read(highest) ==> ends_with(highest, error),
        !(order matches PutNextInOrder::Numbering { highest, .. } && has_read(highest))
            ==> ends_with(order, error),
        !(item matches PutOrderedItem::Placing {
            order: PutNextInOrder::Numbering { highest, .. },
            ..
        } && has_read(highest)) ==> ends_with(item, error),
        ends_with(stream, error),
        ends_with(metadata, error),
        ends_with(update, error),
        ends_with(value, error),
        ends_with(values, error),
{
}

/// Where the Hyperbee fails while a stream is read, the stream gives the error in the place of an
/// entry and can be read on: at once if the lookup of an item failed, and after the entries that
/// were read before it if the walk failed.
pub proof fn law_stream_goes_on_after_failure<E>(
    stream: FeedStream<E, RankedValues>,
    order_index: u64,
    item_key: Seq<u8>,
    error: E,
)
    ensures
        (NextEntry::<E, RankedValues, Seq<u8>>::Looking { stream, order_index, item_key }).next(
            BeeReply::Failed(error),
        ) == Step::<
            BeeRequest<Seq<u8>>,
            NextEntry<E, RankedValues, Seq<u8>>,
            StreamedValue<E>,
            FeedError<E, Seq<u8>>,
        >::Done(Ok((stream, Streamed::Failed(FeedError::Hyperbee(error))))),
        NextEntry::start(FeedStream { ready: Seq::empty(), rest: Rest::Broken(error) }) == Step::<
            BeeRequest<Seq<u8>>,
            NextEntry<E, RankedValues, Seq<u8>>,
            StreamedValue<E>,
            FeedError<E, Seq<u8>>,
        >::Done(Ok((FeedStream::unread(), Streamed::Failed(FeedError::Hyperbee(error))))),
{
}

/// Every operation on a feed begins with a request from whose every reply it goes on.
pub proof fn law_feed_is_answerable<E>(
    key: Seq<u8>,
    value: Seq<u8>,
    names: Seq<Seq<char>>,
    stream: FeedStream<E, RankedValues>,
)
    ensures
        crate::step::answerable::<
            BeeRequest<Seq<u8>>,
            BeeReply<E, Seq<u8>>,
            GetVersion,
        >(GetVersion::start::<E>()),
        crate::step::answerable::<
            BeeRequest<Seq<u8>>,
            BeeReply<E, Seq<u8>>,
            HasKey,
        >(HasKey::start::<E>(key)),
        crate::step::answerable::<
            BeeRequest<Seq<u8>>,
            BeeReply<E, Seq<u8>>,
            GetNextHighest,
        >(GetNextHighest::start::<E>()),
        crate::step::answerable::<
            BeeRequest<Seq<u8>>,
            BeeReply<E, Seq<u8>>,
            PutNextInOrder<Seq<u8>>,
        >(PutNextInOrder::start::<E>(key)),
        crate::step::answerable::<
            BeeRequest<Seq<u8>>,
            BeeReply<E, Seq<u8>>,
            PutOrderedItem<Seq<u8>>,
        >(PutOrderedItem::start::<E>(key, value)),
        crate::step::answerable::<
            BeeRequest<Seq<u8>>,
            BeeReply<E, Seq<u8>>,
            GetFeedStream,
        >(GetFeedStream::start::<E>()),
        crate::step::answerable::<
            BeeRequest<Seq<u8>>,
            BeeReply<E, Seq<u8>>,
            NextEntry<E, RankedValues, Seq<u8>>,
        >(NextEntry::start(stream)),
        crate::step::answerable::<
            BeeRequest<Seq<u8>>,
            BeeReply<E, Seq<u8>>,
            PutMetadata,
        >(PutMetadata::start::<E>(key, value)),
        crate::step::answerable::<
            BeeRequest<Seq<u8>>,
            BeeReply<E, Seq<u8>>,
            MaybeUpdateMetadata,
        >(MaybeUpdateMetadata::start::<E>(key, value)),
        crate::step::answerable::<
            BeeRequest<Seq<u8>>,
            BeeReply<E, Seq<u8>>,
            GetMetadataValue,
        >(GetMetadataValue::start::<E>(key)),
        crate::step::answerable::<
            BeeRequest<Seq<u8>>,
            BeeReply<E, Seq<u8>>,
            GetMetadata<Seq<Seq<char>>, FieldValues>,
        >(GetMetadata::start::<E>(names)),
{
}

/// A write changes something if and only if there was no entry or the entry had another value.
pub proof fn law_is_change(previous: Option<Option<Seq<u8>>>, next: Option<Seq<u8>>)
    ensures
        crate::feed::is_change(None, next),
        crate::feed::is_change(previous, next) <==> (previous matches Some(value) ==> value != next),
{
}

/// A stream that has ended stays so.
pub proof fn law_stream_stays_ended<E>(bee: Bee)
    ensures
        read_stream::<E>(bee, FeedStream { ready: Seq::empty(), rest: Rest::Ended }, 0) == Some(
            (Seq::<Streamed<E, Seq<u8>>>::empty(), bee),
        ),
        run_feed::<E, NextEntry<E, RankedValues, Seq<u8>>>(
            NextEntry::start(FeedStream { ready: Seq::empty(), rest: Rest::Ended }),
            bee,
            0,
        ) matches Some((Ok((stream, item)), after)) && item == Streamed::<E, Seq<u8>>::End
            && stream.ready.len() == 0 && stream.rest is Ended && after == bee,
{
}

/// A Hyperbee whose walk visits these entries and fails where there is an error in the place of
/// one. It can be read on after that.
#[verifier::reject_recursive_types(E)]
pub struct FailingWalk<E> {
    /// What the Hyperbee holds.
    pub bee: Bee,
    /// What is left of the walk.
    pub walk: Seq<Result<KeyValue<Seq<u8>>, E>>,
}

impl<E> FailingWalk<E> {
    /// After the next reply of the walk.
    pub open spec fn visited(self) -> FailingWalk<E> {
        FailingWalk { walk: self.walk.skip(1), ..self }
    }
}

impl<E> Service<BeeRequest<Seq<u8>>, BeeReply<E, Seq<u8>>> for FailingWalk<E> {
    open spec fn serve(self, request: BeeRequest<Seq<u8>>) -> (
        BeeReply<E, Seq<u8>>,
        FailingWalk<E>,
    ) {
        match request {
            BeeRequest::Next => if self.walk.len() == 0 {
                (BeeReply::Item(None), self)
            } else {
                match self.walk[0] {
                    Ok(entry) => (BeeReply::Item(Some(entry)), self.visited()),
                    Err(error) => (BeeReply::Failed(error), self.visited()),
                }
            },
            BeeRequest::Traverse { .. } => (BeeReply::Opened, self),
            BeeRequest::Version => (BeeReply::Version(self.bee.version), self),
            BeeRequest::Get { sub, key } => (BeeReply::Found(self.bee.get(sub, key)), self),
            BeeRequest::Put { sub, key, value } => (
                BeeReply::Written,
                FailingWalk { bee: self.bee.put(sub, key, value), ..self },
            ),
            BeeRequest::PutIfChanged { sub, key, value } => (
                BeeReply::Swapped(Some(self.bee.next_block())),
                FailingWalk { bee: self.bee.put(sub, key, value), ..self },
            ),
        }
    }
}

/// How an operation on a feed ends when the walk fails, and the Hyperbee afterwards.
pub open spec fn run_failing<E, S: Program<BeeRequest<Seq<u8>>, BeeReply<E, Seq<u8>>>>(
    step: Step<BeeRequest<Seq<u8>>, S, S::Value, S::Failure>,
    store: FailingWalk<E>,
    limit: nat,
) -> Option<(Result<S::Value, S::Failure>, FailingWalk<E>)> {
    crate::step::run::<BeeRequest<Seq<u8>>, BeeReply<E, Seq<u8>>, S, FailingWalk<E>>(
        step,
        store,
        limit,
    )
}

/// The entries that the walk visits before it fails or ends.
pub open spec fn visited_entries<E>(walk: Seq<Result<KeyValue<Seq<u8>>, E>>) -> Seq<
    KeyValue<Seq<u8>>,
>
    decreases walk.len(),
{
    if walk.len() == 0 {
        Seq::empty()
    } else {
        match walk[0] {
            Ok(entry) => seq![entry] + visited_entries(walk.skip(1)),
            Err(_) => Seq::empty(),
        }
    }
}

/// Counting on from `highest` to where the walk fails or ends.
proof fn lemma_count_failing<E>(store: FailingWalk<E>, highest: Option<u64>)
    requires
        begins(highest, visited_entries(store.walk)),
        highest is None ==> store.walk.len() > 0 && store.walk[0] is Ok,
    ensures
        run_failing::<E, GetNextHighest>(
            Step::Ask(BeeRequest::Next, GetNextHighest::Reading { highest }),
            store,
            store.walk.len() + 1,
        ) matches Some((result, after)) && result == Ok::<u64, FeedError<E, Seq<u8>>>(
            position_after(highest, visited_entries(store.walk)),
        ) && after.bee == store.bee,
    decreases store.walk.len(),
{
    reveal_with_fuel(crate::step::run, 2);
    let walk = store.walk;
    if walk.len() > 0 && walk[0] is Ok {
        let entry = walk[0]->Ok_0;
        let entries = visited_entries(walk);
        let on = highest_with(highest, entry.key);
        assert(entries[0] == entry);
        assert(entries.skip(1) =~= visited_entries(walk.skip(1)));
        assert(position_after(highest, entries) == position_after(on, entries.skip(1)));
        lemma_count_failing::<E>(store.visited(), on);
    }
}

/// Putting an item, from the count on, where the walk fails or ends.
proof fn lemma_put_counts_failing<E>(
    store: FailingWalk<E>,
    highest: Option<u64>,
    key: Seq<u8>,
    value: Seq<u8>,
)
    requires
        begins(highest, visited_entries(store.walk)),
        highest is None ==> store.walk.len() > 0 && store.walk[0] is Ok,
    ensures
        run_failing::<E, PutOrderedItem<Seq<u8>>>(
            Step::Ask(
                BeeRequest::Next,
                PutOrderedItem::Placing {
                    order: PutNextInOrder::Numbering {
                        highest: GetNextHighest::Reading { highest },
                        item_key: key,
                    },
                    key,
                    value,
                },
            ),
            store,
            store.walk.len() + 3,
        ) matches Some((Ok(_), after)) && after.bee == store.bee.put(
            Sub::Order,
            order_key(position_after(highest, visited_entries(store.walk))),
            key,
        ).put(Sub::Key, key, value),
    decreases store.walk.len(),
{
    let walk = store.walk;
    if walk.len() > 0 && walk[0] is Ok {
        reveal_with_fuel(crate::step::run, 2);
        let entry = walk[0]->Ok_0;
        let entries = visited_entries(walk);
        let on = highest_with(highest, entry.key);
        assert(entries[0] == entry);
        assert(entries.skip(1) =~= visited_entries(walk.skip(1)));
        assert(position_after(highest, entries) == position_after(on, entries.skip(1)));
        lemma_put_counts_failing::<E>(store.visited(), on, key, value);
    } else {
        reveal_with_fuel(crate::step::run, 4);
        assert(visited_entries(walk) =~= Seq::empty());
    }
}

/// Where the walk fails at its first entry, there is no next position but the error, and a put
/// writes nothing. Where it fails later, the entries before that decide: the next position is one
/// more than the highest of theirs that another can follow, if the first of them stands for one,
/// and a put places its item there.
pub proof fn law_next_highest_when_walk_fails<E>(
    store: FailingWalk<E>,
    key: Seq<u8>,
    value: Seq<u8>,
)
    requires
        store.walk.len() > 0,
        store.walk[0] matches Ok(entry) ==> has_next(entry.key),
    ensures
        run_failing::<E, GetNextHighest>(
            GetNextHighest::start::<E>(),
            store,
            store.walk.len() + 2,
        ) matches Some((result, read)) && run_failing::<E, PutOrderedItem<Seq<u8>>>(
            PutOrderedItem::start::<E>(key, value),
            store,
            store.walk.len() + 4,
        ) matches Some((put, after)) && match store.walk[0] {
            Err(error) => {
                &&& read.bee == store.bee
                &&& result == Err::<u64, FeedError<E, Seq<u8>>>(FeedError::Hyperbee(error))
                &&& put == Err::<(), FeedError<E, Seq<u8>>>(FeedError::Hyperbee(error))
                &&& after.bee == store.bee
            },
            Ok(_) => {
                let entries = visited_entries(store.walk);
                &&& read.bee == store.bee
                &&& result matches Ok(next)
                &&& next > 0
                &&& exists|i: int|
                    0 <= i < entries.len() && crate::order::order_number(
                        (#[trigger] entries[i]).key,
                    ) == Some((next - 1) as u64)
                &&& forall|i: int|
                    0 <= i < entries.len() && has_next((#[trigger] entries[i]).key)
                        ==> crate::order::order_number(entries[i].key).unwrap() < next
                &&& put is Ok
                &&& after.bee == store.bee.put(Sub::Order, order_key(next), key).put(
                    Sub::Key,
                    key,
                    value,
                )
            },
        },
{
    reveal_with_fuel(crate::step::run, 3);
    if store.walk[0] is Ok {
        let entries = visited_entries(store.walk);
        assert(entries[0] == store.walk[0]->Ok_0);
        lemma_position_after(None, entries);
        lemma_count_failing::<E>(store, None);
        lemma_put_counts_failing::<E>(store, None, key, value);
    }
}

/// What a stream gives when the walk fails, read to its end: entries and errors in the order in
/// which they come, if there are at most `limit` of them; and the Hyperbee afterwards.
pub open spec fn read_failing<E>(
    store: FailingWalk<E>,
    stream: FeedStream<E, RankedValues>,
    limit: nat,
) -> Option<(Seq<Streamed<E, Seq<u8>>>, FailingWalk<E>)>
    decreases limit,
{
    match run_failing::<E, NextEntry<E, RankedValues, Seq<u8>>>(
        NextEntry::start(stream),
        store,
        store.walk.len() + 2,
    ) {
        Some((Ok((_, Streamed::End)), after)) => Some((Seq::empty(), after)),
        Some((Ok((rest, item)), after)) => if limit == 0 {
            None
        } else {
            match read_failing::<E>(after, rest, (limit - 1) as nat) {
                Some((items, last)) => Some((seq![item] + items, last)),
                None => None,
            }
        },
        _ => None,
    }
}

/// The entries stand for falling positions, as far as they stand for any.
pub open spec fn positions_fall<E>(walk: Seq<Result<KeyValue<Seq<u8>>, E>>) -> bool {
    forall|i: int, j: int|
        0 <= i < j < walk.len() ==> match (#[trigger] walk[i], #[trigger] walk[j]) {
            (Ok(a), Ok(b)) => match (
                crate::order::order_number(a.key),
                crate::order::order_number(b.key),
            ) {
                (Some(m), Some(n)) => m >= n,
                _ => true,
            },
            _ => true,
        }
}

/// One item for each entry of the walk, and the error for each failure.
pub open spec fn items_for<E>(store: FailingWalk<E>) -> Seq<Streamed<E, Seq<u8>>> {
    Seq::new(
        store.walk.len(),
        |i: int|
            match store.walk[i] {
                Ok(entry) => item_for::<E>(store.bee, entry),
                Err(error) => Streamed::Failed(FeedError::Hyperbee(error)),
            },
    )
}

/// What comes after the entries that the walk visits before it fails or ends.
pub open spec fn rest_after<E>(walk: Seq<Result<KeyValue<Seq<u8>>, E>>) -> Rest<E> {
    let k = visited_entries(walk).len() as int;
    if k < walk.len() {
        Rest::Broken(walk[k]->Err_0)
    } else {
        Rest::Ended
    }
}

/// The Hyperbee when the walk has failed or ended.
pub open spec fn walked_on<E>(store: FailingWalk<E>) -> FailingWalk<E> {
    let k = visited_entries(store.walk).len() as int;
    FailingWalk {
        walk: if k < store.walk.len() {
            store.walk.skip(k + 1)
        } else {
            Seq::empty()
        },
        ..store
    }
}

/// The entries before a failure are those of the walk up to it.
proof fn lemma_visited_entries<E>(walk: Seq<Result<KeyValue<Seq<u8>>, E>>)
    ensures
        visited_entries(walk).len() <= walk.len(),
        forall|i: int|
            0 <= i < visited_entries(walk).len() ==> #[trigger] walk[i] == Ok::<
                KeyValue<Seq<u8>>,
                E,
            >(visited_entries(walk)[i]),
        visited_entries(walk).len() < walk.len() ==> walk[visited_entries(walk).len() as int] is Err,
    decreases walk.len(),
{
    if walk.len() > 0 && walk[0] is Ok {
        let rest = walk.skip(1);
        lemma_visited_entries(rest);
        assert forall|i: int| 0 <= i < visited_entries(walk).len() implies #[trigger] walk[i] == Ok::<
            KeyValue<Seq<u8>>,
            E,
        >(visited_entries(walk)[i]) by {
            if i > 0 {
                assert(rest[i - 1] == walk[i]);
            }
        }
        let k = visited_entries(rest).len() as int;
        if k < rest.len() {
            assert(walk[k + 1] == rest[k]);
        }
    }
}

/// Reading the walk to where it fails or ends, after `read` of it.
proof fn lemma_collect_failing<E>(store: FailingWalk<E>, read: RankedValues, limit: nat)
    ensures
        run_failing::<E, NextEntry<E, RankedValues, Seq<u8>>>(
            Step::Ask(BeeRequest::Next, NextEntry::Collecting { walk: read }),
            store,
            visited_entries(store.walk).len() + 1 + limit,
        ) == run_failing::<E, NextEntry<E, RankedValues, Seq<u8>>>(
            NextEntry::start(
                FeedStream::read(
                    with_ranks(read, visited_entries(store.walk)),
                    rest_after(store.walk),
                ),
            ),
            walked_on(store),
            limit,
        ),
    decreases store.walk.len(),
{
    let walk = store.walk;
    let entries = visited_entries(walk);
    lemma_visited_entries(walk);
    if walk.len() > 0 && walk[0] is Ok {
        let entry = walk[0]->Ok_0;
        let after = store.visited();
        let on = read.push((crate::feed::rank_after(read, entry.key), entry));
        lemma_visited_entries(after.walk);
        lemma_collect_failing::<E>(after, on, limit);
        assert(entries.skip(1) =~= visited_entries(after.walk));
        assert(entries[0] == entry);
        assert(with_ranks(read, entries) == with_ranks(on, entries.skip(1)));
        let k = entries.len() as int;
        if k < walk.len() {
            assert(after.walk[k - 1] == walk[k]);
            assert(after.walk.skip(k) =~= walk.skip(k + 1));
        }
        assert(rest_after(after.walk) == rest_after(walk));
        assert(walked_on(after) == walked_on(store));
    } else {
        assert(entries =~= Seq::empty());
        if walk.len() == 0 {
            assert(walk =~= Seq::empty());
            assert(walked_on(store) == store);
        }
    }
}

/// A stream with entries ready gives what they stand for, and then what comes after them.
proof fn lemma_read_failing_ready<E>(
    store: FailingWalk<E>,
    ready: RankedValues,
    rest: Rest<E>,
    limit: nat,
)
    requires
        read_failing::<E>(store, FeedStream { ready: Seq::empty(), rest }, limit) is Some,
    ensures
        read_failing::<E>(store, FeedStream { ready, rest }, ready.len() + limit) matches Some(
            (items, last),
        ) && read_failing::<E>(store, FeedStream { ready: Seq::empty(), rest }, limit) matches Some(
            (later, end),
        ) && items == given::<E>(store.bee, ready) + later && last == end,
    decreases ready.len(),
{
    reveal_with_fuel(crate::step::run, 3);
    let later = read_failing::<E>(store, FeedStream { ready: Seq::empty(), rest }, limit).unwrap().0;
    if ready.len() == 0 {
        assert(ready =~= Seq::empty());
        assert(given::<E>(store.bee, ready) + later =~= later);
    } else {
        let fewer = ready.drop_last();
        let item = item_for::<E>(store.bee, ready.last().1);
        lemma_read_failing_ready::<E>(store, fewer, rest, limit);
        assert(seq![item] + (given::<E>(store.bee, fewer) + later) =~= given::<E>(store.bee, ready)
            + later);
    }
}

/// Ranks of entries whose positions fall fall too.
proof fn lemma_ranks_fall(entries: Seq<KeyValue<Seq<u8>>>)
    requires
        forall|i: int, j: int|
            0 <= i < j < entries.len() ==> match (
                crate::order::order_number((#[trigger] entries[i]).key),
                crate::order::order_number((#[trigger] entries[j]).key),
            ) {
                (Some(m), Some(n)) => m >= n,
                _ => true,
            },
    ensures
        crate::ranking::falls(with_ranks(Seq::empty(), entries)),
{
    let ranks = with_ranks(Seq::empty(), entries);
    lemma_with_ranks(Seq::empty(), entries);
    assert forall|i: int, j: int| 0 <= i <= j < ranks.len() implies ranks[i].0 >= ranks[j].0 by {
        lemma_rank_at_least(entries, i, j);
    }
}

/// The rank of an entry is no less than that of a later one.
proof fn lemma_rank_at_least(entries: Seq<KeyValue<Seq<u8>>>, i: int, j: int)
    requires
        0 <= i <= j < entries.len(),
        forall|i: int, j: int|
            0 <= i < j < entries.len() ==> match (
                crate::order::order_number((#[trigger] entries[i]).key),
                crate::order::order_number((#[trigger] entries[j]).key),
            ) {
                (Some(m), Some(n)) => m >= n,
                _ => true,
            },
    ensures
        with_ranks(Seq::empty(), entries)[i].0 >= with_ranks(Seq::empty(), entries)[j].0,
    decreases j, i,
{
    let ranks = with_ranks(Seq::empty(), entries);
    lemma_with_ranks(Seq::empty(), entries);
    assert(ranks[i].0 == crate::feed::rank_after(ranks.take(i), entries[i].key));
    assert(ranks[j].0 == crate::feed::rank_after(ranks.take(j), entries[j].key));
    if i < j {
        match crate::order::order_number(entries[j].key) {
            None => {
                assert(ranks.take(j).last() == ranks[j - 1]);
                lemma_rank_at_least(entries, i, j - 1);
            },
            Some(n) => match crate::order::order_number(entries[i].key) {
                Some(m) => {
                    assert(m >= n);
                },
                None => {
                    if i > 0 {
                        assert(ranks.take(i).last() == ranks[i - 1]);
                        lemma_rank_at_least(entries, i - 1, j);
                    }
                },
            },
        }
    }
}

/// The items for the entries that the walk visits before it fails or ends, by falling ranks.
pub open spec fn items_until_failure<E>(store: FailingWalk<E>) -> Seq<Streamed<E, Seq<u8>>> {
    let order = crate::ranking::ranked(with_ranks(Seq::empty(), visited_entries(store.walk)));
    Seq::new(order.len(), |i: int| item_for::<E>(store.bee, order[i].1))
}

/// The items for the entries up to each failure, by falling ranks, and then the error.
pub open spec fn items_by_failure<E>(store: FailingWalk<E>) -> Seq<Streamed<E, Seq<u8>>>
    decreases store.walk.len(),
{
    let k = visited_entries(store.walk).len() as int;
    if k < store.walk.len() {
        items_until_failure(store) + (seq![
            Streamed::Failed(FeedError::Hyperbee(store.walk[k]->Err_0)),
        ] + items_by_failure(walked_on(store)))
    } else {
        items_until_failure(store)
    }
}

/// The items for entries of falling positions come in the order of the walk.
proof fn lemma_items_in_order<E>(store: FailingWalk<E>)
    requires
        positions_fall(store.walk),
    ensures
        items_until_failure(store) == Seq::new(
            visited_entries(store.walk).len(),
            |i: int| item_for::<E>(store.bee, visited_entries(store.walk)[i]),
        ),
{
    let walk = store.walk;
    let entries = visited_entries(walk);
    let ranks = with_ranks(Seq::empty(), entries);
    lemma_visited_entries(walk);
    lemma_with_ranks(Seq::empty(), entries);
    assert forall|i: int, j: int| 0 <= i < j < entries.len() implies match (
        crate::order::order_number((#[trigger] entries[i]).key),
        crate::order::order_number((#[trigger] entries[j]).key),
    ) {
        (Some(m), Some(n)) => m >= n,
        _ => true,
    } by {
        assert(walk[i] == Ok::<KeyValue<Seq<u8>>, E>(entries[i]));
        assert(walk[j] == Ok::<KeyValue<Seq<u8>>, E>(entries[j]));
    }
    lemma_ranks_fall(entries);
    crate::ranking::law_ranked_in_order(ranks);
    assert(items_until_failure(store) =~= Seq::new(
        entries.len(),
        |i: int| item_for::<E>(store.bee, entries[i]),
    ));
}

/// A stream of which nothing was read gives what it gives when the walk was read to where it fails
/// or ends.
proof fn lemma_read_failing_unread<E>(store: FailingWalk<E>, limit: nat)
    ensures
        read_failing::<E>(store, FeedStream::unread(), limit) == read_failing::<E>(
            walked_on(store),
            FeedStream::read(
                with_ranks(Seq::empty(), visited_entries(store.walk)),
                rest_after(store.walk),
            ),
            limit,
        ),
{
    let walk = store.walk;
    let on = walked_on(store);
    let k = visited_entries(walk).len();
    let stream = FeedStream::<E, RankedValues>::read(
        with_ranks(Seq::empty(), visited_entries(walk)),
        rest_after(walk),
    );
    lemma_visited_entries(walk);
    let left = (walk.len() + 1 - k) as nat;
    lemma_collect_failing::<E>(store, Seq::empty(), left);
    assert(run_failing::<E, NextEntry<E, RankedValues, Seq<u8>>>(
        NextEntry::start(FeedStream::<E, RankedValues>::unread()),
        store,
        walk.len() + 2,
    ) == run_failing::<E, NextEntry<E, RankedValues, Seq<u8>>>(
        NextEntry::start(stream),
        on,
        left,
    ));
    assert(run_failing::<E, NextEntry<E, RankedValues, Seq<u8>>>(
        NextEntry::start(stream),
        on,
        left,
    ) == run_failing::<E, NextEntry<E, RankedValues, Seq<u8>>>(
        NextEntry::start(stream),
        on,
        on.walk.len() + 2,
    )) by {
        reveal_with_fuel(crate::step::run, 3);
    }
}

/// What is left of a walk along which the positions fall.
proof fn lemma_positions_fall_on<E>(store: FailingWalk<E>)
    requires
        positions_fall(store.walk),
    ensures
        positions_fall(walked_on(store).walk),
{
    let (walk, on) = (store.walk, walked_on(store).walk);
    let k = visited_entries(walk).len() as int;
    assert forall|i: int, j: int| 0 <= i < j < on.len() implies match (
        #[trigger] on[i],
        #[trigger] on[j],
    ) {
        (Ok(a), Ok(b)) => match (
            crate::order::order_number(a.key),
            crate::order::order_number(b.key),
        ) {
            (Some(m), Some(n)) => m >= n,
            _ => true,
        },
        _ => true,
    } by {
        assert(on[i] == walk[i + k + 1]);
        assert(on[j] == walk[j + k + 1]);
    }
}

/// The items for a walk are those up to its failure, the error, and those after it.
proof fn lemma_items_around_failure<E>(store: FailingWalk<E>)
    requires
        visited_entries(store.walk).len() < store.walk.len(),
    ensures
        ({
            let entries = visited_entries(store.walk);
            let error = store.walk[entries.len() as int]->Err_0;
            items_for(store) == Seq::new(
                entries.len(),
                |i: int| item_for::<E>(store.bee, entries[i]),
            ) + (seq![Streamed::Failed(FeedError::Hyperbee(error))] + items_for(walked_on(store)))
        }),
{
    let walk = store.walk;
    let entries = visited_entries(walk);
    let k = entries.len() as int;
    let error = walk[k]->Err_0;
    let here = Seq::new(entries.len(), |i: int| item_for::<E>(store.bee, entries[i]));
    let all = here + (seq![Streamed::<E, Seq<u8>>::Failed(FeedError::Hyperbee(error))] + items_for(
        walked_on(store),
    ));
    lemma_visited_entries(walk);
    assert(all.len() == walk.len());
    assert forall|i: int| 0 <= i < walk.len() implies items_for(store)[i] == all[i] by {
        if i < k {
            assert(walk[i] == Ok::<KeyValue<Seq<u8>>, E>(entries[i]));
        } else if i > k {
            assert(walked_on(store).walk[i - k - 1] == walk[i]);
        }
    }
    assert(items_for(store) =~= all);
}

/// The items of a walk along which the positions fall come in its order.
proof fn lemma_all_in_order<E>(store: FailingWalk<E>)
    requires
        positions_fall(store.walk),
    ensures
        items_by_failure(store) == items_for(store),
    decreases store.walk.len(),
{
    let walk = store.walk;
    let entries = visited_entries(walk);
    lemma_visited_entries(walk);
    lemma_items_in_order(store);
    if entries.len() < walk.len() {
        lemma_positions_fall_on(store);
        lemma_all_in_order(walked_on(store));
        lemma_items_around_failure(store);
    } else {
        assert forall|i: int| 0 <= i < walk.len() implies #[trigger] items_for(store)[i]
            == item_for::<E>(store.bee, entries[i]) by {
            assert(walk[i] == Ok::<KeyValue<Seq<u8>>, E>(entries[i]));
        }
        assert(items_until_failure(store) =~= items_for(store));
    }
}

/// A stream of which nothing is ready, whose walk fails or ends later, gives the items up to each
/// failure and then the error.
proof fn lemma_read_failing<E>(store: FailingWalk<E>)
    ensures
        read_failing::<E>(store, FeedStream::unread(), store.walk.len()) matches Some(
            (items, after),
        ) && items == items_by_failure(store) && after.bee == store.bee,
    decreases store.walk.len(),
{
    let walk = store.walk;
    let entries = visited_entries(walk);
    let ranks = with_ranks(Seq::empty(), entries);
    let order = crate::ranking::ranked(ranks);
    let rest = rest_after(walk);
    let on = walked_on(store);
    let nothing = FeedStream::<E, RankedValues> { ready: Seq::empty(), rest };
    let left = (walk.len() - entries.len()) as nat;
    lemma_visited_entries(walk);
    lemma_with_ranks(Seq::empty(), entries);
    crate::ranking::law_ranked(ranks);
    assert(order.len() == entries.len());
    lemma_read_failing_unread::<E>(store, walk.len());
    assert(given::<E>(store.bee, order.reverse()) =~= items_until_failure(store));
    if entries.len() < walk.len() {
        lemma_read_failing::<E>(on);
        let error = walk[entries.len() as int]->Err_0;
        assert(on.walk.len() == left - 1);
        assert(read_failing::<E>(on, nothing, left) == Some(
            (
                seq![Streamed::<E, Seq<u8>>::Failed(FeedError::Hyperbee(error))] + read_failing::<E>(
                    on,
                    FeedStream::unread(),
                    (left - 1) as nat,
                ).unwrap().0,
                read_failing::<E>(on, FeedStream::unread(), (left - 1) as nat).unwrap().1,
            ),
        ));
    } else {
        assert(read_failing::<E>(on, nothing, 0) == Some(
            (Seq::<Streamed<E, Seq<u8>>>::empty(), on),
        ));
        assert(items_until_failure(store) + Seq::<Streamed<E, Seq<u8>>>::empty()
            =~= items_until_failure(store));
    }
    lemma_read_failing_ready::<E>(on, order.reverse(), rest, left);
}

/// Where the walk of the order keys fails, once or more, a stream gives what was read up to the
/// failure, by falling ranks, then the error, and then goes on.
pub proof fn law_stream_when_any_walk_fails<E>(store: FailingWalk<E>)
    ensures
        run_failing::<E, GetFeedStream>(GetFeedStream::start::<E>(), store, 1) matches Some(
            (Ok(stream), opened),
        ) && read_failing::<E>(opened, stream, store.walk.len()) matches Some((items, after))
            && items == items_by_failure(store) && after.bee == store.bee,
        crate::ranking::falls(
            crate::ranking::ranked(with_ranks(Seq::empty(), visited_entries(store.walk))),
        ),
        crate::ranking::ranked(
            with_ranks(Seq::empty(), visited_entries(store.walk)),
        ).to_multiset() == with_ranks(Seq::empty(), visited_entries(store.walk)).to_multiset(),
{
    reveal_with_fuel(crate::step::run, 2);
    crate::ranking::law_ranked(with_ranks(Seq::empty(), visited_entries(store.walk)));
    lemma_read_failing::<E>(store);
}

/// Where the walk of the order keys fails, once or more, a stream gives the error in the place of
/// the failure, and loses nothing: there is one item for each entry of the walk and one error for
/// each failure, in the order of the walk if the positions fall along it.
pub proof fn law_stream_when_walk_fails<E>(store: FailingWalk<E>)
    requires
        positions_fall(store.walk),
    ensures
        run_failing::<E, GetFeedStream>(GetFeedStream::start::<E>(), store, 1) matches Some(
            (Ok(stream), opened),
        ) && read_failing::<E>(opened, stream, store.walk.len()) matches Some((items, after))
            && items == items_for(store) && after.bee == store.bee,
{
    law_stream_when_any_walk_fails::<E>(store);
    lemma_all_in_order(store);
}

/// The contents of an error, of an entry, of what a stream gives and of metadata fields are those
/// of their parts.
pub proof fn law_contents<E>(
    error: FeedError<E>,
    entry: FeedEntry,
    item: Streamed<E>,
    fields: crate::feed::Fields,
)
    ensures
        error.deep_view() == match error {
            FeedError::Hyperbee(error) => FeedError::<E, Seq<u8>>::Hyperbee(error),
            FeedError::InvalidOrderKey(key) => FeedError::InvalidOrderKey(key@),
            FeedError::MissingOrderValue(index) => FeedError::MissingOrderValue(index),
            FeedError::MissingKeyEntry(key) => FeedError::MissingKeyEntry(key@),
        },
        entry.deep_view() == (FeedEntry {
            seq: entry.seq,
            key: entry.key@,
            value: crate::bee::optional_bytes(entry.value),
            order_index: entry.order_index,
        }),
        item.deep_view() == match item {
            Streamed::Entry(entry) => Streamed::<E, Seq<u8>>::Entry(entry.deep_view()),
            Streamed::Failed(error) => Streamed::Failed(error.deep_view()),
            Streamed::End => Streamed::End,
        },
        fields.deep_view().len() == fields.len(),
        forall|i: int|
            0 <= i < fields.len() ==> #[trigger] fields.deep_view()[i] == (
                fields[i].0@,
                crate::bee::optional_bytes(fields[i].1),
            ),
{
    broadcast use crate::bytes::lemma_bytes_contents;

}

} // verus!
