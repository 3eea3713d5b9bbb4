//! Sorting by rank: the greatest first, and what has one rank in the order in which it came.

use vstd::prelude::*;

verus! {

/// The ranks never rise.
pub open spec fn falls<T>(s: Seq<(u64, T)>) -> bool {
    forall|i: int, j: int| 0 <= i < j < s.len() ==> (#[trigger] s[i]).0 >= (#[trigger] s[j]).0
}

/// Two sequences in one: the one whose first has the greater rank goes on, `a` if both have the
/// same.
pub open spec fn merged<T>(a: Seq<(u64, T)>, b: Seq<(u64, T)>) -> Seq<(u64, T)>
    decreases a.len() + b.len(),
{
    if a.len() == 0 {
        b
    } else if b.len() == 0 || a[0].0 >= b[0].0 {
        seq![a[0]] + merged(a.skip(1), b)
    } else {
        seq![b[0]] + merged(a, b.skip(1))
    }
}

/// The sequence by falling ranks: its halves sorted, and then merged.
pub open spec fn ranked<T>(s: Seq<(u64, T)>) -> Seq<(u64, T)>
    decreases s.len(),
{
    if s.len() < 2 {
        s
    } else {
        let half = s.len() as int / 2;
        merged(ranked(s.take(half)), ranked(s.skip(half)))
    }
}

/// The sequence from its end to its start.
fn turned<T>(items: Vec<T>) -> (turned: Vec<T>)
    ensures
        turned@ == items@.reverse(),
{
    let mut items = items;
    let mut turned: Vec<T> = Vec::new();
    let ghost all = items@;
    while items.len() > 0
        invariant
            turned@ + items@.reverse() =~= all.reverse(),
        decreases items@.len(),
    {
        let ghost before = items@;
        if let Some(item) = items.pop() {
            assert(before.reverse() =~= seq![item] + items@.reverse());
            turned.push(item);
        }
    }
    turned
}

/// Merges two sequences that stand from their ends to their starts.
fn merge<T>(a: Vec<(u64, T)>, b: Vec<(u64, T)>) -> (out: Vec<(u64, T)>)
    ensures
        out@.reverse() == merged(a@.reverse(), b@.reverse()),
{
    let ghost (first, second) = (a@.reverse(), b@.reverse());
    let mut a = a;
    let mut b = b;
    let mut out: Vec<(u64, T)> = Vec::new();
    assert(out@ + merged(a@.reverse(), b@.reverse()) =~= merged(first, second));
    while a.len() > 0 || b.len() > 0
        invariant
            out@ + merged(a@.reverse(), b@.reverse()) == merged(first, second),
        decreases a@.len() + b@.len(),
    {
        let ghost (x, y, z) = (a@.reverse(), b@.reverse(), out@);
        let from_a = if a.len() == 0 {
            false
        } else if b.len() == 0 {
            true
        } else {
            a[a.len() - 1].0 >= b[b.len() - 1].0
        };
        if from_a {
            if let Some(item) = a.pop() {
                out.push(item);
                assert(a@.reverse() =~= x.skip(1));
                assert(item == x[0]);
                assert(merged(x, y) == seq![item] + merged(x.skip(1), y));
                assert(out@ + merged(x.skip(1), y) =~= z + merged(x, y));
            }
        } else {
            if let Some(item) = b.pop() {
                out.push(item);
                assert(b@.reverse() =~= y.skip(1));
                assert(item == y[0]);
                assert(merged(x, y) =~= seq![item] + merged(x, y.skip(1)));
                assert(out@ + merged(x, y.skip(1)) =~= z + merged(x, y));
            }
        }
    }
    assert(merged(a@.reverse(), b@.reverse()) =~= Seq::empty());
    assert(out@ =~= merged(first, second));
    let turned_out = turned(out);
    assert(turned_out@.reverse() =~= out@);
    turned_out
}

/// Sorts a sequence that stands from its end to its start.
fn sort_turned<T>(items: Vec<(u64, T)>) -> (out: Vec<(u64, T)>)
    ensures
        out@.reverse() == ranked(items@.reverse()),
    decreases items@.len(),
{
    if items.len() < 2 {
        items
    } else {
        let ghost all = items@;
        let mut late = items;
        let keep = late.len() - late.len() / 2;
        let early = late.split_off(keep);
        assert(early@.reverse() =~= all.reverse().take(all.len() as int / 2));
        assert(late@.reverse() =~= all.reverse().skip(all.len() as int / 2));
        merge(sort_turned(early), sort_turned(late))
    }
}

/// Sorts by falling ranks. What comes first stands last.
pub fn sort_by_rank<T>(items: Vec<(u64, T)>) -> (sorted: Vec<(u64, T)>)
    ensures
        sorted@ == ranked(items@).reverse(),
{
    let ghost all = items@;
    let items = turned(items);
    assert(items@.reverse() =~= all);
    let sorted = sort_turned(items);
    assert(sorted@ =~= sorted@.reverse().reverse());
    sorted
}

/// No rank is greater than `top`.
spec fn under<T>(s: Seq<(u64, T)>, top: u64) -> bool {
    forall|i: int| 0 <= i < s.len() ==> (#[trigger] s[i]).0 <= top
}

/// Merging adds no greater rank.
proof fn lemma_merged_under<T>(a: Seq<(u64, T)>, b: Seq<(u64, T)>, top: u64)
    requires
        under(a, top),
        under(b, top),
    ensures
        under(merged(a, b), top),
    decreases a.len() + b.len(),
{
    if a.len() == 0 {
    } else if b.len() == 0 || a[0].0 >= b[0].0 {
        lemma_merged_under(a.skip(1), b, top);
    } else {
        lemma_merged_under(a, b.skip(1), top);
    }
}

/// A first item whose rank is not exceeded keeps the ranks falling.
proof fn lemma_falls_on<T>(first: (u64, T), rest: Seq<(u64, T)>)
    requires
        falls(rest),
        under(rest, first.0),
    ensures
        falls(seq![first] + rest),
{
    let whole = seq![first] + rest;
    assert forall|i: int, j: int| 0 <= i < j < whole.len() implies (#[trigger] whole[i]).0 >= (
    #[trigger] whole[j]).0 by {
        assert(whole[j] == rest[j - 1]);
        if i > 0 {
            assert(whole[i] == rest[i - 1]);
        }
    }
}

/// What is left of a sequence whose ranks fall.
proof fn lemma_falls_rest<T>(s: Seq<(u64, T)>)
    requires
        falls(s),
        s.len() > 0,
    ensures
        falls(s.skip(1)),
        under(s.skip(1), s[0].0),
{
    let rest = s.skip(1);
    assert forall|i: int, j: int| 0 <= i < j < rest.len() implies (#[trigger] rest[i]).0 >= (
    #[trigger] rest[j]).0 by {
        assert(rest[i] == s[i + 1] && rest[j] == s[j + 1]);
    }
    assert forall|i: int| 0 <= i < rest.len() implies (#[trigger] rest[i]).0 <= s[0].0 by {
        assert(rest[i] == s[i + 1]);
    }
}

/// Sequences whose ranks fall merge into one whose ranks fall.
proof fn lemma_merged_falls<T>(a: Seq<(u64, T)>, b: Seq<(u64, T)>)
    requires
        falls(a),
        falls(b),
    ensures
        falls(merged(a, b)),
    decreases a.len() + b.len(),
{
    if a.len() == 0 {
    } else if b.len() == 0 || a[0].0 >= b[0].0 {
        lemma_falls_rest(a);
        lemma_merged_falls(a.skip(1), b);
        lemma_merged_under(a.skip(1), b, a[0].0);
        lemma_falls_on(a[0], merged(a.skip(1), b));
    } else {
        lemma_falls_rest(b);
        lemma_merged_falls(a, b.skip(1));
        lemma_merged_under(a, b.skip(1), b[0].0);
        lemma_falls_on(b[0], merged(a, b.skip(1)));
    }
}

/// Merging keeps the items.
proof fn lemma_merged_items<T>(a: Seq<(u64, T)>, b: Seq<(u64, T)>)
    ensures
        merged(a, b).len() == a.len() + b.len(),
        merged(a, b).to_multiset() == a.to_multiset().add(b.to_multiset()),
    decreases a.len() + b.len(),
{
    broadcast use vstd::seq_lib::group_to_multiset_ensures;

    let whole = merged(a, b).to_multiset();
    if a.len() == 0 {
        assert(a =~= Seq::empty());
        assert(whole =~= a.to_multiset().add(b.to_multiset()));
    } else if b.len() == 0 || a[0].0 >= b[0].0 {
        lemma_merged_items(a.skip(1), b);
        assert(a =~= seq![a[0]] + a.skip(1));
        vstd::seq_lib::lemma_multiset_commutative(seq![a[0]], a.skip(1));
        vstd::seq_lib::lemma_multiset_commutative(seq![a[0]], merged(a.skip(1), b));
        assert(whole =~= a.to_multiset().add(b.to_multiset()));
    } else {
        lemma_merged_items(a, b.skip(1));
        assert(b =~= seq![b[0]] + b.skip(1));
        vstd::seq_lib::lemma_multiset_commutative(seq![b[0]], b.skip(1));
        vstd::seq_lib::lemma_multiset_commutative(seq![b[0]], merged(a, b.skip(1)));
        assert(whole =~= a.to_multiset().add(b.to_multiset()));
    }
}

/// Sorting keeps the items and makes the ranks fall.
pub proof fn law_ranked<T>(s: Seq<(u64, T)>)
    ensures
        falls(ranked(s)),
        ranked(s).len() == s.len(),
        ranked(s).to_multiset() == s.to_multiset(),
    decreases s.len(),
{
    if s.len() >= 2 {
        let half = s.len() as int / 2;
        law_ranked(s.take(half));
        law_ranked(s.skip(half));
        lemma_merged_falls(ranked(s.take(half)), ranked(s.skip(half)));
        lemma_merged_items(ranked(s.take(half)), ranked(s.skip(half)));
        assert(s =~= s.take(half) + s.skip(half));
        vstd::seq_lib::lemma_multiset_commutative(s.take(half), s.skip(half));
    }
}

/// Merging what falls already is putting one after the other.
proof fn lemma_merged_in_order<T>(a: Seq<(u64, T)>, b: Seq<(u64, T)>)
    requires
        falls(a + b),
    ensures
        merged(a, b) == a + b,
    decreases a.len(),
{
    let whole = a + b;
    if a.len() == 0 {
        assert(merged(a, b) =~= whole);
    } else {
        if b.len() > 0 {
            assert(whole[0].0 >= whole[a.len() as int].0);
        }
        let rest = a.skip(1) + b;
        assert(rest =~= whole.skip(1));
        assert(falls(rest)) by {
            assert forall|i: int, j: int| 0 <= i < j < rest.len() implies (#[trigger] rest[i]).0
                >= (#[trigger] rest[j]).0 by {
                assert(rest[i] == whole[i + 1] && rest[j] == whole[j + 1]);
            }
        }
        lemma_merged_in_order(a.skip(1), b);
        assert(merged(a, b) =~= whole);
    }
}

/// What is sorted already stays as it is.
pub proof fn law_ranked_in_order<T>(s: Seq<(u64, T)>)
    requires
        falls(s),
    ensures
        ranked(s) == s,
    decreases s.len(),
{
    if s.len() >= 2 {
        let half = s.len() as int / 2;
        assert(falls(s.skip(half))) by {
            let rest = s.skip(half);
            assert forall|i: int, j: int| 0 <= i < j < rest.len() implies (#[trigger] rest[i]).0
                >= (#[trigger] rest[j]).0 by {
                assert(rest[i] == s[i + half] && rest[j] == s[j + half]);
            }
        }
        law_ranked_in_order(s.take(half));
        law_ranked_in_order(s.skip(half));
        assert(s.take(half) + s.skip(half) =~= s);
        lemma_merged_in_order(s.take(half), s.skip(half));
    }
}

/// The items of one rank, in their order.
pub open spec fn of_rank<T>(s: Seq<(u64, T)>, rank: u64) -> Seq<(u64, T)> {
    s.filter(|item: (u64, T)| item.0 == rank)
}

/// The items of one rank, one after the other in two sequences.
proof fn lemma_of_rank_split<T>(a: Seq<(u64, T)>, b: Seq<(u64, T)>, rank: u64)
    ensures
        of_rank(a + b, rank) == of_rank(a, rank) + of_rank(b, rank),
{
    Seq::filter_distributes_over_add(a, b, |item: (u64, T)| item.0 == rank);
}

/// No item has a rank above all.
proof fn lemma_of_rank_none<T>(s: Seq<(u64, T)>, rank: u64)
    requires
        forall|i: int| 0 <= i < s.len() ==> (#[trigger] s[i]).0 < rank,
    ensures
        of_rank(s, rank).len() == 0,
    decreases s.len(),
{
    reveal(Seq::filter);
    if s.len() > 0 {
        assert(s.last().0 < rank);
        let rest = s.drop_last();
        assert forall|i: int| 0 <= i < rest.len() implies (#[trigger] rest[i]).0 < rank by {
            assert(rest[i] == s[i]);
        }
        lemma_of_rank_none(rest, rank);
    }
}

/// Merging leaves items of one rank in their order, those of the first sequence first.
proof fn lemma_merged_of_rank<T>(a: Seq<(u64, T)>, b: Seq<(u64, T)>, rank: u64)
    requires
        falls(a),
        falls(b),
    ensures
        of_rank(merged(a, b), rank) == of_rank(a, rank) + of_rank(b, rank),
    decreases a.len() + b.len(),
{
    reveal(Seq::filter);
    if a.len() == 0 {
        assert(of_rank(a, rank) + of_rank(b, rank) =~= of_rank(b, rank));
    } else if b.len() == 0 || a[0].0 >= b[0].0 {
        let (first, rest) = (seq![a[0]], a.skip(1));
        lemma_falls_rest(a);
        lemma_merged_of_rank(rest, b, rank);
        assert(a =~= first + rest);
        lemma_of_rank_split(first, rest, rank);
        lemma_of_rank_split(first, merged(rest, b), rank);
        assert(of_rank(merged(a, b), rank) =~= of_rank(a, rank) + of_rank(b, rank));
    } else {
        let (first, rest) = (seq![b[0]], b.skip(1));
        lemma_falls_rest(b);
        lemma_merged_of_rank(a, rest, rank);
        assert(b =~= first + rest);
        lemma_of_rank_split(first, rest, rank);
        lemma_of_rank_split(first, merged(a, rest), rank);
        if b[0].0 == rank {
            assert forall|i: int| 0 <= i < a.len() implies (#[trigger] a[i]).0 < rank by {
                if i > 0 {
                    assert(a[0].0 >= a[i].0);
                }
            }
            lemma_of_rank_none(a, rank);
        } else {
            assert(of_rank(first, rank).len() == 0) by {
                reveal_with_fuel(Seq::filter, 2);
                assert(first.drop_last().len() == 0);
            }
        }
        assert(of_rank(merged(a, b), rank) =~= of_rank(a, rank) + of_rank(b, rank));
    }
}

/// Sorting leaves the items of each rank in the order in which they came.
pub proof fn law_ranked_is_stable<T>(s: Seq<(u64, T)>, rank: u64)
    ensures
        of_rank(ranked(s), rank) == of_rank(s, rank),
    decreases s.len(),
{
    if s.len() >= 2 {
        let half = s.len() as int / 2;
        law_ranked(s.take(half));
        law_ranked(s.skip(half));
        law_ranked_is_stable(s.take(half), rank);
        law_ranked_is_stable(s.skip(half), rank);
        lemma_merged_of_rank(ranked(s.take(half)), ranked(s.skip(half)), rank);
        assert(s =~= s.take(half) + s.skip(half));
        lemma_of_rank_split(s.take(half), s.skip(half), rank);
    }
}

/// Two items of one rank stand in the same order among the items of that rank.
proof fn lemma_pair_of_rank<T>(s: Seq<(u64, T)>, i: int, j: int) -> (at: (int, int))
    requires
        0 <= i < j < s.len(),
        s[i].0 == s[j].0,
    ensures
        0 <= at.0 < at.1 < of_rank(s, s[i].0).len(),
        of_rank(s, s[i].0)[at.0] == s[i],
        of_rank(s, s[i].0)[at.1] == s[j],
    decreases s.len(),
{
    reveal(Seq::filter);
    let rank = s[i].0;
    let rest = s.drop_last();
    if j < s.len() - 1 {
        lemma_pair_of_rank(rest, i, j)
    } else {
        let u = lemma_one_of_rank(rest, i);
        (u, of_rank(rest, rank).len() as int)
    }
}

/// An item stands among the items of its rank.
proof fn lemma_one_of_rank<T>(s: Seq<(u64, T)>, i: int) -> (at: int)
    requires
        0 <= i < s.len(),
    ensures
        0 <= at < of_rank(s, s[i].0).len(),
        of_rank(s, s[i].0)[at] == s[i],
    decreases s.len(),
{
    reveal(Seq::filter);
    let rest = s.drop_last();
    if i < s.len() - 1 {
        lemma_one_of_rank(rest, i)
    } else {
        of_rank(rest, s[i].0).len() as int
    }
}

/// What stands among the items of a rank stands in the sequence.
proof fn lemma_one_in_place<T>(s: Seq<(u64, T)>, rank: u64, u: int) -> (at: int)
    requires
        0 <= u < of_rank(s, rank).len(),
    ensures
        0 <= at < s.len(),
        s[at] == of_rank(s, rank)[u],
    decreases s.len(),
{
    reveal(Seq::filter);
    let rest = s.drop_last();
    if u < of_rank(rest, rank).len() {
        lemma_one_in_place(rest, rank, u)
    } else {
        s.len() - 1
    }
}

/// Two items stand in the sequence in the order in which they stand among those of their rank.
proof fn lemma_pair_in_place<T>(s: Seq<(u64, T)>, rank: u64, u: int, v: int) -> (at: (int, int))
    requires
        0 <= u < v < of_rank(s, rank).len(),
    ensures
        0 <= at.0 < at.1 < s.len(),
        s[at.0] == of_rank(s, rank)[u],
        s[at.1] == of_rank(s, rank)[v],
    decreases s.len(),
{
    reveal(Seq::filter);
    let rest = s.drop_last();
    if v < of_rank(rest, rank).len() {
        lemma_pair_in_place(rest, rank, u, v)
    } else {
        let p = lemma_one_in_place(rest, rank, u);
        (p, s.len() - 1)
    }
}

/// Of two items of one rank the one that came earlier stands earlier in the sorted sequence.
pub proof fn law_ranked_keeps_order<T>(s: Seq<(u64, T)>, i: int, j: int)
    requires
        0 <= i < j < s.len(),
        s[i].0 == s[j].0,
    ensures
        exists|p: int, q: int|
            0 <= p < q < ranked(s).len() && #[trigger] ranked(s)[p] == s[i]
                && #[trigger] ranked(s)[q] == s[j],
{
    law_ranked_is_stable(s, s[i].0);
    let (u, v) = lemma_pair_of_rank(s, i, j);
    let (p, q) = lemma_pair_in_place(ranked(s), s[i].0, u, v);
    assert(ranked(s)[p] == s[i] && ranked(s)[q] == s[j]);
}

/// Items by their contents.
pub open spec fn contents<T: DeepView>(s: Seq<(u64, T)>) -> Seq<(u64, T::V)> {
    Seq::new(s.len(), |i: int| (s[i].0, s[i].1.deep_view()))
}

/// Merging looks at the ranks alone.
proof fn lemma_merged_contents<T: DeepView>(a: Seq<(u64, T)>, b: Seq<(u64, T)>)
    ensures
        contents(merged(a, b)) == merged(contents(a), contents(b)),
    decreases a.len() + b.len(),
{
    let (x, y) = (contents(a), contents(b));
    if a.len() == 0 {
        assert(x.len() == 0);
    } else if b.len() == 0 || a[0].0 >= b[0].0 {
        lemma_merged_contents(a.skip(1), b);
        assert(contents(a.skip(1)) =~= x.skip(1));
        assert(contents(merged(a, b)) =~= seq![x[0]] + merged(x.skip(1), y));
    } else {
        lemma_merged_contents(a, b.skip(1));
        assert(contents(b.skip(1)) =~= y.skip(1));
        assert(contents(merged(a, b)) =~= seq![y[0]] + merged(x, y.skip(1)));
    }
}

/// Sorting looks at the ranks alone.
pub(crate) proof fn lemma_ranked_contents<T: DeepView>(s: Seq<(u64, T)>)
    ensures
        contents(ranked(s)) == ranked(contents(s)),
    decreases s.len(),
{
    if s.len() >= 2 {
        let half = s.len() as int / 2;
        lemma_ranked_contents(s.take(half));
        lemma_ranked_contents(s.skip(half));
        lemma_merged_contents(ranked(s.take(half)), ranked(s.skip(half)));
        assert(contents(s).take(half) =~= contents(s.take(half)));
        assert(contents(s).skip(half) =~= contents(s.skip(half)));
    }
}

} // verus!
