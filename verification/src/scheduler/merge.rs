//! The chronological merge of the occurrences of all blueprints.

use vstd::prelude::*;

use crate::scheduler::occurrences::instants;
use crate::types::Moment;

verus! {

/// Where a planned occurrence comes from: the position of its blueprint in
/// the book, and its place among the occurrences of that blueprint.
#[derive(Debug, PartialEq, Eq, Clone, Copy, Structural)]
pub struct Origin {
    pub blueprint: usize,
    pub index: usize,
}

/// Whether an origin names an occurrence that exists.
pub open spec fn within(origin: Origin, times: Seq<Seq<int>>) -> bool {
    origin.blueprint < times.len() && origin.index < times[origin.blueprint as int].len()
}

/// The instant of the occurrence that an origin names.
pub open spec fn instant_of(origin: Origin, times: Seq<Seq<int>>) -> int {
    times[origin.blueprint as int][origin.index as int]
}

/// The order of the plan: the earlier occurrence goes first; of two at one
/// instant, that of the blueprint which stands first in the book; of two of
/// one blueprint at one instant, the one generated first.
pub open spec fn precedes(a: Origin, b: Origin, times: Seq<Seq<int>>) -> bool {
    let at_a = instant_of(a, times);
    let at_b = instant_of(b, times);
    at_a < at_b || (at_a == at_b && (a.blueprint < b.blueprint || (a.blueprint == b.blueprint
        && a.index < b.index)))
}

/// Whether an order holds an origin.
pub open spec fn covers(order: Seq<Origin>, origin: Origin) -> bool {
    exists|k: int| 0 <= k < order.len() && order[k] == origin
}

/// Whether the occurrences of each blueprint are in order of time.
pub open spec fn chronological(times: Seq<Seq<int>>) -> bool {
    forall|b: int, p: int, q: int|
        0 <= b < times.len() && 0 <= p <= q < times[b].len() ==> times[b][p] <= times[b][q]
}

/// Whether `order` is the chronological merge of the occurrences: it names
/// existing occurrences only, each before all that it precedes, and leaves
/// none out.
pub open spec fn is_linearization(order: Seq<Origin>, times: Seq<Seq<int>>) -> bool {
    &&& forall|k: int| 0 <= k < order.len() ==> within(#[trigger] order[k], times)
    &&& forall|i: int, j: int|
        0 <= i < j < order.len() ==> precedes(#[trigger] order[i], #[trigger] order[j], times)
    &&& forall|origin: Origin| within(origin, times) ==> #[trigger] covers(order, origin)
}

/// The chronological merge of the occurrences.
pub open spec fn linear_order(times: Seq<Seq<int>>) -> Seq<Origin> {
    choose|order: Seq<Origin>| is_linearization(order, times)
}

/// The instants of the occurrences of each blueprint.
pub open spec fn times_of(occurrences: Seq<Vec<Moment>>) -> Seq<Seq<int>> {
    Seq::new(occurrences.len(), |b: int| instants(occurrences[b]@))
}

/// Two chronological merges of the same occurrences agree on their first
/// `n` places.
proof fn lemma_agree_upto(a: Seq<Origin>, b: Seq<Origin>, times: Seq<Seq<int>>, n: nat)
    requires
        is_linearization(a, times),
        is_linearization(b, times),
        n <= a.len(),
    ensures
        n <= b.len(),
        forall|k: int| 0 <= k < n ==> a[k] == b[k],
    decreases n,
{
    if n > 0 {
        lemma_agree_upto(a, b, times, (n - 1) as nat);
        let k = n - 1;
        let x = a[k];
        assert(within(x, times));
        assert(covers(b, x));
        let j = choose|j: int| 0 <= j < b.len() && b[j] == x;
        if j < k {
            assert(a[j] == b[j]);
            assert(precedes(a[j], a[k], times));
            assert(false);
        }
        let y = b[k];
        assert(within(y, times));
        assert(covers(a, y));
        let i = choose|i: int| 0 <= i < a.len() && a[i] == y;
        if i < k {
            assert(a[i] == b[i]);
            assert(precedes(b[i], b[k], times));
            assert(false);
        }
        if j > k {
            assert(precedes(b[k], b[j], times));
            if i > k {
                assert(precedes(a[k], a[i], times));
            }
            assert(false);
        }
    }
}

/// Occurrences have one chronological merge: two orders that both are one
/// are the same.
pub proof fn lemma_linearization_unique(a: Seq<Origin>, b: Seq<Origin>, times: Seq<Seq<int>>)
    requires
        is_linearization(a, times),
        is_linearization(b, times),
    ensures
        a == b,
{
    lemma_agree_upto(a, b, times, a.len());
    lemma_agree_upto(b, a, times, b.len());
    assert(a =~= b);
}

/// Whether an origin lies before a place in the book: with a blueprint
/// before `b`, or with blueprint `b` and an occurrence before its `p`-th.
spec fn before(origin: Origin, b: int, p: int) -> bool {
    origin.blueprint < b || (origin.blueprint == b && origin.index < p)
}

/// Whether `order` is the chronological merge of the occurrences before a
/// place in the book.
spec fn is_partial(order: Seq<Origin>, times: Seq<Seq<int>>, b: int, p: int) -> bool {
    &&& forall|k: int|
        0 <= k < order.len() ==> within(#[trigger] order[k], times) && before(order[k], b, p)
    &&& forall|i: int, j: int|
        0 <= i < j < order.len() ==> precedes(#[trigger] order[i], #[trigger] order[j], times)
    &&& forall|origin: Origin|
        within(origin, times) && before(origin, b, p) ==> #[trigger] covers(order, origin)
}

/// The place of a further occurrence in a merge: behind all that precede it.
proof fn lemma_place(
    order: Seq<Origin>,
    times: Seq<Seq<int>>,
    new: Origin,
    from: int,
) -> (at: int)
    requires
        forall|i: int, j: int|
            0 <= i < j < order.len() ==> precedes(#[trigger] order[i], #[trigger] order[j], times),
        forall|k: int| 0 <= k < order.len() ==> #[trigger] order[k] != new,
        0 <= from <= order.len(),
        forall|k: int| 0 <= k < from ==> precedes(#[trigger] order[k], new, times),
    ensures
        from <= at <= order.len(),
        forall|k: int| 0 <= k < at ==> precedes(#[trigger] order[k], new, times),
        forall|k: int| at <= k < order.len() ==> precedes(new, #[trigger] order[k], times),
    decreases order.len() - from,
{
    if from == order.len() {
        from
    } else if precedes(order[from], new, times) {
        lemma_place(order, times, new, from + 1)
    } else {
        assert(order[from] != new);
        assert(precedes(new, order[from], times));
        assert forall|k: int| from <= k < order.len() implies precedes(
            new,
            #[trigger] order[k],
            times,
        ) by {
            if from < k {
                assert(precedes(order[from], order[k], times));
            }
        }
        from
    }
}

/// A merge with one further occurrence of blueprint `b`.
proof fn lemma_insert(
    order: Seq<Origin>,
    times: Seq<Seq<int>>,
    new: Origin,
    b: int,
    p: int,
) -> (longer: Seq<Origin>)
    requires
        is_partial(order, times, b, p),
        within(new, times),
        new.blueprint == b,
        new.index == p,
    ensures
        is_partial(longer, times, b, p + 1),
{
    assert forall|k: int| 0 <= k < order.len() implies #[trigger] order[k] != new by {
        assert(before(order[k], b, p));
    }
    let at = lemma_place(order, times, new, 0);
    let longer = order.take(at).push(new) + order.skip(at);
    assert forall|k: int| 0 <= k < longer.len() implies within(#[trigger] longer[k], times)
        && before(longer[k], b, p + 1) by {
        if k < at {
            assert(longer[k] == order[k]);
        } else if k > at {
            assert(longer[k] == order[k - 1]);
        }
    }
    assert forall|i: int, j: int| 0 <= i < j < longer.len() implies precedes(
        #[trigger] longer[i],
        #[trigger] longer[j],
        times,
    ) by {
        let first = if i < at {
            order[i]
        } else if i == at {
            new
        } else {
            order[i - 1]
        };
        let second = if j < at {
            order[j]
        } else if j == at {
            new
        } else {
            order[j - 1]
        };
        assert(longer[i] == first);
        assert(longer[j] == second);
    }
    assert forall|origin: Origin|
        within(origin, times) && before(origin, b, p + 1) implies #[trigger] covers(
        longer,
        origin,
    ) by {
        if origin == new {
            assert(longer[at] == origin);
        } else {
            assert(before(origin, b, p));
            assert(covers(order, origin));
            let k = choose|k: int| 0 <= k < order.len() && order[k] == origin;
            if k < at {
                assert(longer[k] == origin);
            } else {
                assert(longer[k + 1] == origin);
            }
        }
    }
    longer
}

/// The number of blueprints that an origin can name.
spec fn nameable(len: nat) -> int {
    if len <= usize::MAX {
        len as int
    } else {
        usize::MAX + 1
    }
}

/// A merge of the occurrences before a place in the book.
proof fn lemma_merge_upto(times: Seq<Seq<int>>, b: int, p: int) -> (order: Seq<Origin>)
    requires
        0 <= b <= nameable(times.len()),
        b < nameable(times.len()) ==> 0 <= p <= nameable(times[b].len()),
        b == nameable(times.len()) ==> p == 0,
    ensures
        is_partial(order, times, b, p),
    decreases b, p,
{
    if p > 0 {
        let rest = lemma_merge_upto(times, b, p - 1);
        let new = Origin { blueprint: b as usize, index: (p - 1) as usize };
        lemma_insert(rest, times, new, b, p - 1)
    } else if b > 0 {
        let rest = lemma_merge_upto(times, b - 1, nameable(times[b - 1].len()));
        assert forall|k: int| 0 <= k < rest.len() implies before(#[trigger] rest[k], b, 0) by {
            assert(before(rest[k], b - 1, nameable(times[b - 1].len())));
        }
        assert forall|origin: Origin|
            within(origin, times) && before(origin, b, 0) implies #[trigger] covers(
            rest,
            origin,
        ) by {
            assert(before(origin, b - 1, nameable(times[b - 1].len())));
        }
        rest
    } else {
        Seq::empty()
    }
}

/// Occurrences always have a chronological merge, which [`linear_order`]
/// names.
pub proof fn lemma_linearization_exists(times: Seq<Seq<int>>)
    ensures
        is_linearization(linear_order(times), times),
{
    let order = lemma_merge_upto(times, nameable(times.len()), 0);
    assert forall|origin: Origin| within(origin, times) implies #[trigger] covers(
        order,
        origin,
    ) by {
        assert(before(origin, nameable(times.len()), 0));
    }
    assert(is_linearization(order, times));
}

/// In a chronological merge the instants never go back, and of two
/// occurrences at one instant the one whose blueprint stands earlier in the
/// book comes first.
pub proof fn lemma_linearization_sorted(order: Seq<Origin>, times: Seq<Seq<int>>, i: int, j: int)
    requires
        is_linearization(order, times),
        0 <= i < j < order.len(),
    ensures
        instant_of(order[i], times) <= instant_of(order[j], times),
        instant_of(order[i], times) == instant_of(order[j], times) ==> order[i].blueprint
            <= order[j].blueprint,
{
    assert(precedes(order[i], order[j], times));
}

/// In a chronological merge the occurrences of one blueprint keep the order
/// in which they were generated.
pub proof fn lemma_linearization_stable(order: Seq<Origin>, times: Seq<Seq<int>>, i: int, j: int)
    requires
        is_linearization(order, times),
        chronological(times),
        0 <= i < j < order.len(),
        order[i].blueprint == order[j].blueprint,
    ensures
        order[i].index < order[j].index,
{
    assert(precedes(order[i], order[j], times));
    assert(within(order[i], times));
    assert(within(order[j], times));
    let b = order[i].blueprint as int;
    let p = order[i].index as int;
    let q = order[j].index as int;
    if q <= p {
        assert(times[b][q] <= times[b][p]);
    }
}

/// What is left to merge: of each blueprint, the occurrences from its
/// cursor on.
spec fn pending(occurrences: Seq<Vec<Moment>>, taken: Seq<usize>) -> int
    decreases occurrences.len(),
{
    if occurrences.len() == 0 || taken.len() != occurrences.len() {
        0
    } else {
        pending(occurrences.drop_last(), taken.drop_last()) + occurrences.last().len()
            - taken.last()
    }
}

/// Merging one more occurrence leaves one less to merge.
proof fn lemma_pending_advances(occurrences: Seq<Vec<Moment>>, taken: Seq<usize>, w: int)
    requires
        taken.len() == occurrences.len(),
        forall|b: int| 0 <= b < taken.len() ==> taken[b] <= (#[trigger] occurrences[b]).len(),
        0 <= w < taken.len(),
        taken[w] < occurrences[w].len(),
    ensures
        pending(occurrences, taken) >= 1,
        pending(occurrences, taken.update(w, (taken[w] + 1) as usize)) == pending(
            occurrences,
            taken,
        ) - 1,
    decreases occurrences.len(),
{
    let next = taken.update(w, (taken[w] + 1) as usize);
    let last = occurrences.len() - 1;
    lemma_pending_bounded(occurrences.drop_last(), taken.drop_last());
    if w == last {
        assert(next.drop_last() =~= taken.drop_last());
    } else {
        assert(next.drop_last() =~= taken.drop_last().update(w, (taken[w] + 1) as usize));
        lemma_pending_advances(occurrences.drop_last(), taken.drop_last(), w);
    }
}

/// What is left to merge is never less than nothing.
proof fn lemma_pending_bounded(occurrences: Seq<Vec<Moment>>, taken: Seq<usize>)
    requires
        taken.len() == occurrences.len(),
        forall|b: int| 0 <= b < taken.len() ==> taken[b] <= (#[trigger] occurrences[b]).len(),
    ensures
        pending(occurrences, taken) >= 0,
    decreases occurrences.len(),
{
    if occurrences.len() > 0 {
        lemma_pending_bounded(occurrences.drop_last(), taken.drop_last());
    }
}

/// Scans the blueprints in book order for the earliest occurrence that is
/// not merged yet. A later blueprint takes the place of an earlier one only
/// where its occurrence is strictly earlier.
fn earliest(occurrences: &Vec<Vec<Moment>>, taken: &Vec<usize>) -> (best: Option<usize>)
    requires
        taken.len() == occurrences.len(),
        forall|b: int| 0 <= b < taken.len() ==> taken[b] <= (#[trigger] occurrences[b]).len(),
    ensures
        match best {
            None => forall|b: int| 0 <= b < taken.len() ==> taken[b] == (
            #[trigger] occurrences[b]).len(),
            Some(w) => {
                &&& w < taken.len()
                &&& taken[w as int] < occurrences[w as int].len()
                &&& forall|b: int|
                    0 <= b < taken.len() && taken[b] < (#[trigger] occurrences[b]).len() ==> {
                        let at_w = occurrences[w as int][taken[w as int] as int]@.utc;
                        let at_b = occurrences[b][taken[b] as int]@.utc;
                        at_w < at_b || (at_w == at_b && w <= b)
                    }
            },
        },
{
    let mut best: Option<usize> = None;
    let mut closest: i64 = 0;
    let mut b: usize = 0;
    while b < occurrences.len()
        invariant
            b <= occurrences.len(),
            taken.len() == occurrences.len(),
            forall|c: int| 0 <= c < taken.len() ==> taken[c] <= (#[trigger] occurrences[c]).len(),
            match best {
                None => forall|c: int| 0 <= c < b ==> taken[c] == (#[trigger] occurrences[c]).len(),
                Some(w) => {
                    &&& w < b
                    &&& taken[w as int] < occurrences[w as int].len()
                    &&& closest == occurrences[w as int][taken[w as int] as int]@.utc
                    &&& forall|c: int|
                        0 <= c < b && taken[c] < (#[trigger] occurrences[c]).len() ==> {
                            let at_c = occurrences[c][taken[c] as int]@.utc;
                            closest < at_c || (closest == at_c && w <= c)
                        }
                },
            },
        decreases occurrences.len() - b,
    {
        let next: usize = taken[b];
        if next < occurrences[b].len() {
            let candidate: i64 = occurrences[b][next].timestamp();
            match best {
                Some(_) => {
                    if closest > candidate {
                        best = Some(b);
                        closest = candidate;
                    }
                },
                None => {
                    best = Some(b);
                    closest = candidate;
                },
            }
        }
        b += 1;
    }
    best
}

/// Merges the occurrences of all blueprints into one chronological order.
/// Where occurrences of several blueprints fall on one instant, the
/// blueprint that stands first in the book goes first.
pub fn linearize(occurrences: &Vec<Vec<Moment>>) -> (order: Vec<Origin>)
    requires
        chronological(times_of(occurrences@)),
    ensures
        is_linearization(order@, times_of(occurrences@)),
        order@ == linear_order(times_of(occurrences@)),
{
    let ghost times = times_of(occurrences@);
    let mut taken: Vec<usize> = Vec::new();
    while taken.len() < occurrences.len()
        invariant
            taken.len() <= occurrences.len(),
            forall|b: int| 0 <= b < taken.len() ==> taken[b] == 0,
        decreases occurrences.len() - taken.len(),
    {
        taken.push(0);
    }
    let mut order: Vec<Origin> = Vec::new();
    let mut open = true;
    while open
        invariant
            times == times_of(occurrences@),
            chronological(times),
            taken.len() == occurrences.len(),
            forall|b: int| 0 <= b < taken.len() ==> taken[b] <= (#[trigger] occurrences[b]).len(),
            forall|k: int|
                0 <= k < order.len() ==> within(#[trigger] order[k], times) && order[k].index
                    < taken[order[k].blueprint as int],
            forall|i: int, j: int|
                0 <= i < j < order.len() ==> precedes(
                    #[trigger] order[i],
                    #[trigger] order[j],
                    times,
                ),
            forall|origin: Origin|
                within(origin, times) && origin.index < taken[origin.blueprint as int]
                    ==> #[trigger] covers(order@, origin),
            forall|k: int, origin: Origin|
                0 <= k < order.len() && #[trigger] within(origin, times) && origin.index
                    >= taken[origin.blueprint as int] ==> precedes(
                    #[trigger] order[k],
                    origin,
                    times,
                ),
            !open ==> forall|b: int|
                0 <= b < taken.len() ==> taken[b] == (#[trigger] occurrences[b]).len(),
        decreases
                (if open {
                    1int
                } else {
                    0int
                }),
                pending(occurrences@, taken@),
    {
        match earliest(occurrences, &taken) {
            None => {
                open = false;
            },
            Some(w) => {
                let p: usize = taken[w];
                let winner = Origin { blueprint: w, index: p };
                let ghost before = order@;
                let ghost cursors = taken@;
                proof {
                    lemma_pending_advances(occurrences@, taken@, w as int);
                    assert(within(winner, times));
                }
                order.push(winner);
                taken.set(w, p + 1);
                proof {
                    assert forall|origin: Origin|
                        within(origin, times) && origin.index
                            < taken[origin.blueprint as int] implies #[trigger] covers(
                        order@,
                        origin,
                    ) by {
                        if origin == winner {
                            assert(order@[before.len() as int] == origin);
                        } else {
                            assert(origin.index < cursors[origin.blueprint as int]);
                            assert(covers(before, origin));
                            let k = choose|k: int| 0 <= k < before.len() && before[k] == origin;
                            assert(order@[k] == origin);
                        }
                    }
                    assert forall|k: int, origin: Origin|
                        0 <= k < order.len() && #[trigger] within(origin, times) && origin.index
                            >= taken[origin.blueprint as int] implies precedes(
                        #[trigger] order[k],
                        origin,
                        times,
                    ) by {
                        if k < before.len() {
                            assert(order[k] == before[k]);
                            assert(origin.index >= cursors[origin.blueprint as int]);
                        } else {
                            let b = origin.blueprint as int;
                            let q = origin.index as int;
                            if b == w {
                                assert(times[b][p as int] <= times[b][q]);
                            } else {
                                let f = cursors[b] as int;
                                assert(cursors[b] < occurrences[b].len());
                                assert(times[b][f] <= times[b][q]);
                                assert(times[b][f] == occurrences[b][f]@.utc);
                                assert(times[w as int][p as int] == occurrences[w as int][p as int]@.utc);
                            }
                        }
                    }
                    assert forall|i: int, j: int| 0 <= i < j < order.len() implies precedes(
                        #[trigger] order[i],
                        #[trigger] order[j],
                        times,
                    ) by {
                        if j < before.len() {
                            assert(order[i] == before[i] && order[j] == before[j]);
                        } else {
                            assert(order[i] == before[i]);
                            assert(order[j] == winner);
                        }
                    }
                }
            },
        }
    }
    proof {
        assert forall|origin: Origin| within(origin, times) implies #[trigger] covers(
            order@,
            origin,
        ) by {
            assert(origin.index < occurrences[origin.blueprint as int].len());
        }
        assert(is_linearization(order@, times));
        lemma_linearization_unique(order@, linear_order(times), times);
    }
    order
}

} // verus!
