//! The planning run: the occurrences of each blueprint are generated for the
//! window of the run, and merged into one chronological plan.

mod laws;
mod merge;
mod occurrences;

pub use laws::lemma_once_fires_in_steady_zone;
pub use laws::lemma_once_fires_once;
pub use laws::lemma_period_spacing;
pub use laws::lemma_plan_complete;
pub use laws::lemma_plan_determined;
pub use laws::lemma_plan_ignores_priority;
pub use laws::lemma_plan_in_order;
pub use laws::lemma_plan_is_merge;
pub use laws::lemma_plan_keeps_each_series;
pub use laws::lemma_plan_once;
pub use laws::lemma_plan_recurrence_fidelity;
pub use laws::lemma_plan_slot_fidelity;
pub use laws::lemma_plan_within_window;
pub use laws::lemma_series_spacing;
pub use laws::lemma_steady_zone_fits;
pub use laws::lemma_times_fires_at_most_count;
pub use laws::steady;
pub use merge::chronological;
pub use merge::covers;
pub use merge::instant_of;
pub use merge::is_linearization;
pub use merge::lemma_linearization_exists;
pub use merge::lemma_linearization_sorted;
pub use merge::lemma_linearization_stable;
pub use merge::lemma_linearization_unique;
pub use merge::linear_order;
pub use merge::linearize;
pub use merge::precedes;
pub use merge::times_of;
pub use merge::within;
pub use merge::Origin;
pub use occurrences::admits;
pub use occurrences::first_fit;
pub use occurrences::gap;
pub use occurrences::instants;
pub use occurrences::lemma_admitted_is_matched;
pub use occurrences::lemma_first_fit_admitted;
pub use occurrences::lemma_first_fit_least;
pub use occurrences::lemma_series_admitted;
pub use occurrences::lemma_series_chronological;
pub use occurrences::lemma_series_exhaustive;
pub use occurrences::lemma_series_head;
pub use occurrences::lemma_series_limited;
pub use occurrences::lemma_series_spaced;
pub use occurrences::occurrence_moments;
pub use occurrences::occurrence_times;
pub use occurrences::occurrences;
pub use occurrences::series;
pub use occurrences::stride;

use vstd::prelude::*;

use crate::types::lemma_book_view;
use crate::types::lemma_plan_view;
use crate::types::BlueprintBook;
use crate::types::BlueprintView;
use crate::types::Clock;
use crate::types::Journal;
use crate::types::Moment;
use crate::types::Plan;
use crate::types::PlanEntry;
use crate::types::PlanEntryView;
use crate::types::EARLIEST;
use crate::types::LATEST;

verus! {

/// The instants at which each blueprint of a book fires in the window of a
/// run, which starts at the clock's reading.
pub open spec fn planned_times(book: Seq<BlueprintView>, clock: Clock) -> Seq<Seq<int>> {
    Seq::new(
        book.len(),
        |b: int| occurrence_times(book[b], clock.zone(), clock.now(), clock.horizon()),
    )
}

/// The order in which the occurrences of a book are planned.
pub open spec fn plan_order(book: Seq<BlueprintView>, clock: Clock) -> Seq<Origin> {
    linear_order(planned_times(book, clock))
}

/// The plan entry of an occurrence: the id of its blueprint, and its instant
/// with the offset that the zone has in force at it.
pub open spec fn planned_entry(
    book: Seq<BlueprintView>,
    clock: Clock,
    origin: Origin,
) -> PlanEntryView {
    PlanEntryView {
        blueprint_id: book[origin.blueprint as int].id,
        planned_for: clock.zone().local(instant_of(origin, planned_times(book, clock))),
    }
}

/// The plan of a book: the entries of all occurrences of all blueprints in
/// the window, in chronological order.
pub open spec fn planned(book: Seq<BlueprintView>, clock: Clock) -> Seq<PlanEntryView> {
    plan_order(book, clock).map_values(|origin: Origin| planned_entry(book, clock, origin))
}

/// The occurrences of each blueprint are generated in order of time.
pub proof fn lemma_planned_times_chronological(book: Seq<BlueprintView>, clock: Clock)
    ensures
        chronological(planned_times(book, clock)),
{
    let times = planned_times(book, clock);
    assert forall|b: int, p: int, q: int|
        0 <= b < times.len() && 0 <= p <= q < times[b].len() implies times[b][p]
        <= times[b][q] by {
        let step = book[b].recurrence.step();
        lemma_series_chronological(
            book[b].preferred_slot,
            clock.zone(),
            step,
            book[b].recurrence.limit(),
            clock.now(),
            clock.horizon(),
            p,
            q,
        );
        assert((q - p) * step >= 0) by (nonlinear_arith)
            requires
                q - p >= 0,
                step >= 0,
        ;
    }
}

/// Plans the occurrences of all blueprints of `book` for the seven days
/// that start at the clock's reading, in chronological order. The journal is
/// taken and not consulted: no occurrence is left out on its account.
pub fn schedule(book: BlueprintBook, _journal: Journal, clock: &Clock) -> (plan: Plan)
    ensures
        plan@ == planned(book@, *clock),
        is_linearization(plan_order(book@, *clock), planned_times(book@, *clock)),
        forall|k: int|
            0 <= k < plan@.len() ==> clock.now() <= (#[trigger] plan@[k]).planned_for.utc
                < clock.horizon(),
        forall|i: int, j: int|
            0 <= i < j < plan@.len() ==> (#[trigger] plan@[i]).planned_for.utc <= (
            #[trigger] plan@[j]).planned_for.utc,
{
    let blueprints = book.entries();
    let zone = clock.local_zone();
    let now: i64 = clock.reading();
    let end: i64 = clock.window_end();
    let ghost times = planned_times(book@, *clock);
    proof {
        lemma_book_view(book);
    }
    let mut all: Vec<Vec<Moment>> = Vec::new();
    let mut b: usize = 0;
    while b < blueprints.len()
        invariant
            b <= blueprints.len(),
            all.len() == b,
            blueprints@ == book.blueprints(),
            book@.len() == blueprints@.len(),
            *zone == clock.zone(),
            now == clock.now(),
            end == clock.horizon(),
            EARLIEST <= now,
            end <= LATEST,
            times == planned_times(book@, *clock),
            forall|c: int| 0 <= c < blueprints@.len() ==> book@[c] == (#[trigger] blueprints@[c])@,
            forall|c: int|
                0 <= c < b ==> (#[trigger] all[c])@.map_values(|m: Moment| m@)
                    == occurrence_moments(book@[c], *zone, now as int, end as int),
        decreases blueprints.len() - b,
    {
        let fired = occurrences(&blueprints[b], zone, now, end);
        all.push(fired);
        b += 1;
    }
    proof {
        assert forall|c: int| 0 <= c < all.len() implies instants(#[trigger] all[c]@)
            == times[c] by {
            let views = all[c]@.map_values(|m: Moment| m@);
            assert forall|p: int| 0 <= p < all[c]@.len() implies instants(all[c]@)[p]
                == times[c][p] by {
                assert(views[p] == all[c]@[p]@);
            }
            assert(views.len() == times[c].len());
            assert(instants(all[c]@) =~= times[c]);
        }
        assert(times_of(all@) =~= times);
        lemma_planned_times_chronological(book@, *clock);
    }
    let order = linearize(&all);
    let mut entries: Vec<PlanEntry> = Vec::new();
    let mut k: usize = 0;
    while k < order.len()
        invariant
            k <= order.len(),
            entries.len() == k,
            all.len() == blueprints.len(),
            book@.len() == blueprints@.len(),
            times == planned_times(book@, *clock),
            times_of(all@) == times,
            is_linearization(order@, times),
            order@ == plan_order(book@, *clock),
            forall|c: int| 0 <= c < blueprints@.len() ==> book@[c] == (#[trigger] blueprints@[c])@,
            forall|c: int|
                0 <= c < all.len() ==> (#[trigger] all[c])@.map_values(|m: Moment| m@)
                    == occurrence_moments(
                    book@[c],
                    clock.zone(),
                    clock.now(),
                    clock.horizon(),
                ),
            forall|i: int| 0 <= i < k ==> (#[trigger] entries[i])@ == planned(book@, *clock)[i],
        decreases order.len() - k,
    {
        let origin = order[k];
        proof {
            assert(within(origin, times));
            assert(times[origin.blueprint as int] == instants(all[origin.blueprint as int]@));
        }
        let blueprint = &blueprints[origin.blueprint];
        let moment = all[origin.blueprint][origin.index];
        proof {
            let c = origin.blueprint as int;
            let views = all[c]@.map_values(|m: Moment| m@);
            assert(views[origin.index as int] == moment@);
        }
        entries.push(PlanEntry::new(blueprint.id(), moment));
        k += 1;
    }
    let plan = Plan::from(entries);
    proof {
        lemma_plan_view(plan);
        assert(plan@.len() == planned(book@, *clock).len());
        assert forall|i: int| 0 <= i < plan@.len() implies plan@[i] == planned(
            book@,
            *clock,
        )[i] by {
            assert(plan@[i] == plan.planned()[i]@);
            assert(plan.planned()[i] == entries[i]);
        }
        assert(plan@ =~= planned(book@, *clock));
        assert forall|k: int| 0 <= k < plan@.len() implies clock.now() <= (
        #[trigger] plan@[k]).planned_for.utc < clock.horizon() by {
            let origin = order@[k];
            assert(within(origin, times));
            let c = origin.blueprint as int;
            lemma_series_admitted(
                book@[c].preferred_slot,
                clock.zone(),
                book@[c].recurrence.step(),
                book@[c].recurrence.limit(),
                clock.now(),
                clock.horizon(),
                origin.index as int,
            );
        }
        assert forall|i: int, j: int| 0 <= i < j < plan@.len() implies (
        #[trigger] plan@[i]).planned_for.utc <= (#[trigger] plan@[j]).planned_for.utc by {
            assert(precedes(order@[i], order@[j], times));
        }
    }
    plan
}

} // verus!
