//! The order of arrival does not matter.
//!
//! Files are loaded in parallel and arrive in any order. Where the files
//! are totally ordered by rank, the collection that they are inserted into
//! ends up in that order whatever the order of arrival, and at every moment
//! holds, in that order, the files that have arrived so far.

use crate::loader::credentials_file::FileView;
use crate::loader::rank::Rank;
use crate::loader::source_set::{
    lemma_insert_takes_sorted_place, rank_between, spec_insert_all, strictly_ascending,
};
use vstd::prelude::*;

verus! {

/// The files of `sorted` at the positions in `chosen`, in the order of
/// `sorted`.
pub open spec fn picked(sorted: Seq<FileView>, chosen: Set<int>) -> Seq<FileView>
    decreases sorted.len(),
{
    if sorted.len() == 0 {
        Seq::empty()
    } else if chosen.contains(sorted.len() - 1) {
        picked(sorted.drop_last(), chosen).push(sorted.last())
    } else {
        picked(sorted.drop_last(), chosen)
    }
}

/// The files of `sorted` in the order in which their positions arrive.
pub open spec fn arrived(sorted: Seq<FileView>, arrivals: Seq<int>) -> Seq<FileView> {
    Seq::new(arrivals.len(), |k: int| sorted[arrivals[k]])
}

/// The positions that have arrived.
pub open spec fn positions(arrivals: Seq<int>) -> Set<int>
    decreases arrivals.len(),
{
    if arrivals.len() == 0 {
        Set::empty()
    } else {
        positions(arrivals.drop_last()).insert(arrivals.last())
    }
}

/// Whether `arrivals` names positions of a sequence of length `n`, each at
/// most once.
pub open spec fn arrives_once(arrivals: Seq<int>, n: nat) -> bool {
    &&& forall|k: int| 0 <= k < arrivals.len() ==> 0 <= #[trigger] arrivals[k] < n
    &&& forall|k: int, l: int|
        0 <= k < l < arrivals.len() ==> #[trigger] arrivals[k] != #[trigger] arrivals[l]
}

/// Whether position `i` occurs among the arrivals.
pub open spec fn has_arrived(arrivals: Seq<int>, i: int) -> bool {
    exists|k: int| 0 <= k < arrivals.len() && #[trigger] arrivals[k] == i
}

/// The positions that have arrived are those that occur among the arrivals.
pub proof fn lemma_positions(arrivals: Seq<int>, i: int)
    ensures
        positions(arrivals).contains(i) <==> has_arrived(arrivals, i),
    decreases arrivals.len(),
{
    if arrivals.len() > 0 {
        let front = arrivals.drop_last();
        lemma_positions(front, i);
        if positions(front).contains(i) {
            let k = choose|k: int| 0 <= k < front.len() && #[trigger] front[k] == i;
            assert(arrivals[k] == i);
        }
        if arrivals.last() == i {
            assert(arrivals[arrivals.len() - 1] == i);
        }
        if exists|k: int| 0 <= k < arrivals.len() && #[trigger] arrivals[k] == i {
            let k = choose|k: int| 0 <= k < arrivals.len() && #[trigger] arrivals[k] == i;
            if k < front.len() {
                assert(front[k] == i);
            }
        }
    }
}

/// Only positions within the sequence count.
proof fn lemma_picked_within(sorted: Seq<FileView>, a: Set<int>, b: Set<int>)
    requires
        forall|i: int| 0 <= i < sorted.len() ==> (a.contains(i) <==> b.contains(i)),
    ensures
        picked(sorted, a) == picked(sorted, b),
    decreases sorted.len(),
{
    if sorted.len() > 0 {
        lemma_picked_within(sorted.drop_last(), a, b);
    }
}

/// Every file picked stands in `sorted` at a chosen position.
proof fn lemma_picked_member(sorted: Seq<FileView>, chosen: Set<int>, k: int)
    requires
        0 <= k < picked(sorted, chosen).len(),
    ensures
        exists|i: int|
            0 <= i < sorted.len() && chosen.contains(i) && #[trigger] sorted[i] == picked(
                sorted,
                chosen,
            )[k],
    decreases sorted.len(),
{
    let front = sorted.drop_last();
    if k < picked(front, chosen).len() {
        lemma_picked_member(front, chosen, k);
        let i = choose|i: int|
            0 <= i < front.len() && chosen.contains(i) && #[trigger] front[i] == picked(
                front,
                chosen,
            )[k];
        assert(sorted[i] == picked(sorted, chosen)[k]);
    } else {
        assert(sorted[sorted.len() - 1] == picked(sorted, chosen)[k]);
    }
}

/// What is picked from a totally ordered sequence is totally ordered.
proof fn lemma_picked_ascending(sorted: Seq<FileView>, chosen: Set<int>, home: Option<Seq<char>>)
    requires
        strictly_ascending(sorted, home),
    ensures
        strictly_ascending(picked(sorted, chosen), home),
    decreases sorted.len(),
{
    if sorted.len() > 0 {
        let front = sorted.drop_last();
        assert forall|i: int, j: int| 0 <= i < j < front.len() implies #[trigger] rank_between(
            front,
            i,
            j,
            home,
        ) == Rank::Lower by {
            assert(rank_between(sorted, i, j, home) == Rank::Lower);
        }
        lemma_picked_ascending(front, chosen, home);
        let some = picked(sorted, chosen);
        let before = picked(front, chosen);
        assert forall|k: int, l: int| 0 <= k < l < some.len() implies #[trigger] rank_between(
            some,
            k,
            l,
            home,
        ) == Rank::Lower by {
            if l < before.len() {
                assert(rank_between(before, k, l, home) == Rank::Lower);
            } else {
                lemma_picked_member(front, chosen, k);
                let i = choose|i: int|
                    0 <= i < front.len() && chosen.contains(i) && #[trigger] front[i] == before[k];
                assert(rank_between(sorted, i, sorted.len() - 1, home) == Rank::Lower);
            }
        }
    }
}

/// Choosing one more position puts its file among those picked, after the
/// files picked from before it.
proof fn lemma_picked_one_more(sorted: Seq<FileView>, chosen: Set<int>, m: int)
    requires
        0 <= m < sorted.len(),
        !chosen.contains(m),
    ensures
        picked(sorted.take(m), chosen).len() <= picked(sorted, chosen).len(),
        picked(sorted, chosen.insert(m)) == picked(sorted, chosen).insert(
            picked(sorted.take(m), chosen).len() as int,
            sorted[m],
        ),
    decreases sorted.len(),
{
    let front = sorted.drop_last();
    let p = picked(sorted.take(m), chosen).len() as int;
    if m == sorted.len() - 1 {
        assert(sorted.take(m) =~= front);
        lemma_picked_within(front, chosen, chosen.insert(m));
        assert(picked(front, chosen).push(sorted[m]) =~= picked(front, chosen).insert(
            p,
            sorted[m],
        ));
    } else {
        assert(front.take(m) =~= sorted.take(m));
        lemma_picked_one_more(front, chosen, m);
        if chosen.contains(sorted.len() - 1) {
            assert(picked(front, chosen).insert(p, sorted[m]).push(sorted.last()) =~= picked(
                front,
                chosen,
            ).push(sorted.last()).insert(p, sorted[m]));
        }
    }
}

/// With no position chosen nothing is picked; with every position chosen,
/// everything.
proof fn lemma_picked_ends(sorted: Seq<FileView>, chosen: Set<int>)
    ensures
        (forall|i: int| 0 <= i < sorted.len() ==> !chosen.contains(i)) ==> picked(sorted, chosen)
            == Seq::<FileView>::empty(),
        (forall|i: int| 0 <= i < sorted.len() ==> chosen.contains(i)) ==> picked(sorted, chosen)
            == sorted,
    decreases sorted.len(),
{
    if sorted.len() > 0 {
        lemma_picked_ends(sorted.drop_last(), chosen);
        if forall|i: int| 0 <= i < sorted.len() ==> chosen.contains(i) {
            assert(sorted.drop_last().push(sorted.last()) =~= sorted);
        }
    }
}

/// Files that are totally ordered, inserted into an empty collection in any
/// order of arrival, stand in the collection in their order: it holds the
/// files that have arrived, sorted.
pub proof fn lemma_any_order_of_arrival(
    sorted: Seq<FileView>,
    arrivals: Seq<int>,
    home: Option<Seq<char>>,
)
    requires
        strictly_ascending(sorted, home),
        arrives_once(arrivals, sorted.len()),
    ensures
        spec_insert_all(Seq::empty(), arrived(sorted, arrivals), home) == picked(
            sorted,
            positions(arrivals),
        ),
    decreases arrivals.len(),
{
    if arrivals.len() == 0 {
        lemma_picked_ends(sorted, positions(arrivals));
    } else {
        let front = arrivals.drop_last();
        let m = arrivals.last();
        let chosen = positions(front);
        lemma_any_order_of_arrival(sorted, front, home);
        assert(arrived(sorted, arrivals).drop_last() =~= arrived(sorted, front));
        assert(arrived(sorted, arrivals).last() == sorted[m]);
        assert(!chosen.contains(m)) by {
            lemma_positions(front, m);
            if chosen.contains(m) {
                let k = choose|k: int| 0 <= k < front.len() && #[trigger] front[k] == m;
                assert(arrivals[k] != arrivals[arrivals.len() - 1]);
            }
        }
        lemma_picked_one_more(sorted, chosen, m);
        lemma_picked_ascending(sorted, chosen.insert(m), home);
        lemma_insert_takes_sorted_place(
            picked(sorted, chosen),
            sorted[m],
            picked(sorted.take(m), chosen).len() as int,
            home,
        );
    }
}

/// Files that are totally ordered and have all arrived, each once, stand in
/// the collection exactly in their order, whatever the order of arrival.
pub proof fn lemma_all_arrived(sorted: Seq<FileView>, arrivals: Seq<int>, home: Option<Seq<char>>)
    requires
        strictly_ascending(sorted, home),
        arrives_once(arrivals, sorted.len()),
        forall|i: int| 0 <= i < sorted.len() ==> #[trigger] has_arrived(arrivals, i),
    ensures
        spec_insert_all(Seq::empty(), arrived(sorted, arrivals), home) == sorted,
{
    lemma_any_order_of_arrival(sorted, arrivals, home);
    assert forall|i: int| 0 <= i < sorted.len() implies positions(arrivals).contains(i) by {
        assert(has_arrived(arrivals, i));
        lemma_positions(arrivals, i);
    }
    lemma_picked_ends(sorted, positions(arrivals));
}

} // verus!
