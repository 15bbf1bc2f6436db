//! What holds of every plan and of the occurrences of every blueprint.

use vstd::prelude::*;

use crate::scheduler::lemma_planned_times_chronological;
use crate::scheduler::merge::covers;
use crate::scheduler::merge::is_linearization;
use crate::scheduler::merge::lemma_linearization_exists;
use crate::scheduler::merge::lemma_linearization_stable;
use crate::scheduler::merge::lemma_linearization_unique;
use crate::scheduler::merge::precedes;
use crate::scheduler::merge::within;
use crate::scheduler::merge::Origin;
use crate::scheduler::occurrences::admits;
use crate::scheduler::occurrences::first_fit;
use crate::scheduler::occurrences::lemma_first_fit_admitted;
use crate::scheduler::occurrences::lemma_first_fit_least;
use crate::scheduler::occurrences::lemma_series_admitted;
use crate::scheduler::occurrences::lemma_series_head;
use crate::scheduler::occurrences::lemma_series_limited;
use crate::scheduler::occurrences::lemma_series_spaced;
use crate::scheduler::occurrences::occurrence_times;
use crate::scheduler::occurrences::series;
use crate::scheduler::occurrences::stride;
use crate::scheduler::plan_order;
use crate::scheduler::planned;
use crate::scheduler::planned_entry;
use crate::scheduler::planned_times;
use crate::types::hour_of;
use crate::types::plan_lines;
use crate::types::weekday_of;
use crate::types::BlueprintView;
use crate::types::Clock;
use crate::types::DayOfWeek;
use crate::types::Slot;
use crate::types::WeekSlot;
use crate::types::Zone;
use crate::types::DAY;
use crate::types::WEEK;

verus! {

/// Whether the zone keeps one offset from `from` up to, and not including,
/// `until`.
pub open spec fn steady(zone: Zone, from: int, until: int) -> bool {
    forall|t: int| from <= t < until ==> #[trigger] zone.offset_at(t) == zone.offset_at(from)
}

/// Two consecutive instants of a series are at least `step` seconds apart,
/// and exactly `step` seconds where the slot admits the instant `step`
/// seconds after the earlier one; where it does not, the later one is the
/// next instant that it admits.
pub proof fn lemma_series_spacing(
    slot: Slot,
    zone: Zone,
    step: nat,
    limit: Option<nat>,
    cursor: int,
    end: int,
    i: int,
)
    requires
        0 <= i,
        i + 1 < series(slot, zone, step, limit, cursor, end).len(),
    ensures
        ({
            let all = series(slot, zone, step, limit, cursor, end);
            &&& all[i + 1] - all[i] >= step
            &&& (all[i + 1] - all[i] == step <==> admits(slot, zone.local(all[i] + step)))
        }),
{
    let all = series(slot, zone, step, limit, cursor, end);
    lemma_series_spaced(slot, zone, step, limit, cursor, end, i);
    lemma_first_fit_admitted(slot, zone, all[i] + step, end);
    if !admits(slot, zone.local(all[i] + step)) {
        lemma_first_fit_admitted(slot, zone, all[i] + step + stride(slot), end);
    }
}

/// The occurrences of a blueprint that repeats at a fixed spacing: two
/// consecutive ones differ by exactly the spacing wherever the slot admits
/// the instant one spacing after the earlier one, and by more where it does
/// not.
pub proof fn lemma_period_spacing(
    blueprint: BlueprintView,
    zone: Zone,
    start: int,
    end: int,
    i: int,
)
    requires
        blueprint.recurrence is Period,
        0 <= i,
        i + 1 < occurrence_times(blueprint, zone, start, end).len(),
    ensures
        ({
            let times = occurrence_times(blueprint, zone, start, end);
            let spacing = blueprint.recurrence->Period_spacing.span();
            &&& times[i + 1] - times[i] >= spacing
            &&& (times[i + 1] - times[i] == spacing <==> admits(
                blueprint.preferred_slot,
                zone.local(times[i] + spacing),
            ))
        }),
{
    lemma_series_spacing(
        blueprint.preferred_slot,
        zone,
        blueprint.recurrence.step(),
        blueprint.recurrence.limit(),
        start,
        end,
        i,
    );
}

/// A blueprint that fires once has one occurrence where its slot admits an
/// instant of the window, and none where it admits none.
pub proof fn lemma_once_fires_once(blueprint: BlueprintView, zone: Zone, start: int, end: int)
    requires
        blueprint.recurrence is Once,
    ensures
        ({
            let times = occurrence_times(blueprint, zone, start, end);
            let fit = first_fit(blueprint.preferred_slot, zone, start, end);
            &&& times.len() <= 1
            &&& (times.len() == 1 <==> fit is Some)
            &&& (times.len() == 1 ==> fit == Some(times[0]))
        }),
{
    let slot = blueprint.preferred_slot;
    lemma_series_limited(slot, zone, 0, Some(1nat), start, end);
    lemma_series_head(slot, zone, 0, Some(1nat), start, end);
}

/// A blueprint that fires a number of times has at most that many
/// occurrences.
pub proof fn lemma_times_fires_at_most_count(
    blueprint: BlueprintView,
    zone: Zone,
    start: int,
    end: int,
)
    requires
        blueprint.recurrence is Times,
    ensures
        occurrence_times(blueprint, zone, start, end).len()
            <= blueprint.recurrence->Times_count,
{
    lemma_series_limited(
        blueprint.preferred_slot,
        zone,
        blueprint.recurrence.step(),
        blueprint.recurrence.limit(),
        start,
        end,
    );
}

/// Where the zone keeps one offset, the hour of the local clock moves on by
/// one with every 3600 seconds, and starts again after 23.
proof fn lemma_hour_advances(t: int, offset: int, k: int)
    requires
        0 <= k < 24,
    ensures
        hour_of(t + k * 3600, offset) == (hour_of(t, offset) + k) % 24,
{
    let x = (t + offset) % 86400;
    let y = (t + offset + k * 3600) % 86400;
    assert(y == (x + k * 3600) % 86400) by {
        vstd::arithmetic::div_mod::lemma_add_mod_noop(t + offset, k * 3600, 86400);
        vstd::arithmetic::div_mod::lemma_small_mod((k * 3600) as nat, 86400);
        vstd::arithmetic::div_mod::lemma_add_mod_noop(x, k * 3600, 86400);
        vstd::arithmetic::div_mod::lemma_small_mod(x as nat, 86400);
    }
}

/// Where the zone keeps one offset, the day of the week moves on by one
/// with every 86400 seconds, and starts again after Sunday.
proof fn lemma_weekday_advances(t: int, offset: int, k: int)
    requires
        0 <= k < 7,
    ensures
        weekday_of(t + k * 86400, offset) == (weekday_of(t, offset) + k) % 7,
{
    assert((t + offset + k * 86400) / 86400 == (t + offset) / 86400 + k) by {
        vstd::arithmetic::div_mod::lemma_div_plus_one(t + offset, 86400);
        vstd::arithmetic::div_mod::lemma_fundamental_div_mod(t + offset, 86400);
        vstd::arithmetic::div_mod::lemma_fundamental_div_mod_converse(
            t + offset + k * 86400,
            86400,
            (t + offset) / 86400 + k,
            (t + offset) % 86400,
        );
    }
}

/// A valid slot admits an instant in every week in which the zone keeps one
/// offset; an hour slot admits one in every such day.
pub proof fn lemma_steady_zone_fits(slot: Slot, zone: Zone, cursor: int, end: int)
    requires
        slot.valid(),
        cursor + WEEK <= end,
        steady(zone, cursor, cursor + WEEK),
    ensures
        first_fit(slot, zone, cursor, end) matches Some(t) && t < cursor + WEEK,
        slot is Hour ==> first_fit(slot, zone, cursor, end)->0 < cursor + DAY,
{
    let offset = zone.offset_at(cursor);
    match slot {
        Slot::Hour(hours) => {
            let shown = hour_of(cursor, offset);
            let k = (hours.anchor() - shown) % 24;
            lemma_hour_advances(cursor, offset, k);
            let t = cursor + k * 3600;
            assert(zone.offset_at(t) == offset);
            assert(hour_of(t, offset) == hours.anchor());
            assert(admits(slot, zone.local(t)));
            assert(k * stride(slot) == k * 3600);
            lemma_first_fit_least(slot, zone, cursor, end, k as nat);
        },
        Slot::Week(days) => {
            let target = match days {
                WeekSlot::Fixed { day } => day,
                WeekSlot::Range { from, .. } => from,
            };
            let shown = weekday_of(cursor, offset);
            let k = (target.rank() - shown) % 7;
            lemma_weekday_advances(cursor, offset, k);
            let t = cursor + k * 86400;
            assert(zone.offset_at(t) == offset);
            assert(weekday_of(t, offset) == target.rank());
            assert(DayOfWeek::of_rank(target.rank()) == target);
            assert(days.contains(target));
            assert(admits(slot, zone.local(t)));
            assert(k * stride(slot) == k * 86400);
            lemma_first_fit_least(slot, zone, cursor, end, k as nat);
        },
    }
}

/// In a zone that keeps one offset for the week, a blueprint with a valid
/// slot that fires once has exactly one occurrence.
pub proof fn lemma_once_fires_in_steady_zone(
    blueprint: BlueprintView,
    zone: Zone,
    start: int,
    end: int,
)
    requires
        blueprint.recurrence is Once,
        blueprint.preferred_slot.valid(),
        start + WEEK <= end,
        steady(zone, start, start + WEEK),
    ensures
        occurrence_times(blueprint, zone, start, end).len() == 1,
{
    lemma_steady_zone_fits(blueprint.preferred_slot, zone, start, end);
    lemma_once_fires_once(blueprint, zone, start, end);
}

/// The plan of a book is the chronological merge of the occurrences of its
/// blueprints: each entry stands for one occurrence, each occurrence has its
/// entry, and the entries follow the order of the merge.
pub proof fn lemma_plan_is_merge(book: Seq<BlueprintView>, clock: Clock)
    ensures
        is_linearization(plan_order(book, clock), planned_times(book, clock)),
        planned(book, clock).len() == plan_order(book, clock).len(),
        forall|k: int|
            0 <= k < planned(book, clock).len() ==> #[trigger] planned(book, clock)[k]
                == planned_entry(book, clock, plan_order(book, clock)[k]),
{
    lemma_linearization_exists(planned_times(book, clock));
}

/// A book and a clock have one plan: whatever merges the occurrences of the
/// book chronologically arrives at the same order, the same entries and the
/// same text.
pub proof fn lemma_plan_determined(
    book: Seq<BlueprintView>,
    clock: Clock,
    first: Seq<Origin>,
    second: Seq<Origin>,
)
    requires
        is_linearization(first, planned_times(book, clock)),
        is_linearization(second, planned_times(book, clock)),
    ensures
        first == second,
        first == plan_order(book, clock),
        first.map_values(|origin: Origin| planned_entry(book, clock, origin)) == planned(
            book,
            clock,
        ),
        plan_lines(first.map_values(|origin: Origin| planned_entry(book, clock, origin)))
            == plan_lines(second.map_values(|origin: Origin| planned_entry(book, clock, origin))),
{
    lemma_linearization_unique(first, second, planned_times(book, clock));
    lemma_linearization_exists(planned_times(book, clock));
    lemma_linearization_unique(first, plan_order(book, clock), planned_times(book, clock));
}

/// A plan goes by the ids, the recurrences and the slots of a book alone:
/// priorities, descriptions and estimated durations change nothing in it,
/// neither which occurrences it holds nor their order.
pub proof fn lemma_plan_ignores_priority(
    one: Seq<BlueprintView>,
    other: Seq<BlueprintView>,
    clock: Clock,
)
    requires
        one.len() == other.len(),
        forall|b: int|
            0 <= b < one.len() ==> {
                &&& (#[trigger] one[b]).id == other[b].id
                &&& one[b].recurrence == other[b].recurrence
                &&& one[b].preferred_slot == other[b].preferred_slot
            },
    ensures
        planned(one, clock) == planned(other, clock),
{
    assert(planned_times(one, clock) =~= planned_times(other, clock));
    lemma_plan_is_merge(one, clock);
    let order = plan_order(one, clock);
    assert forall|k: int| 0 <= k < order.len() implies planned_entry(one, clock, order[k])
        == planned_entry(other, clock, order[k]) by {
        assert(within(order[k], planned_times(one, clock)));
    }
    assert(planned(one, clock) =~= planned(other, clock));
}

/// Every entry of a plan lies in the window of the run: at or after the
/// clock's reading, and before the end of the window.
pub proof fn lemma_plan_within_window(book: Seq<BlueprintView>, clock: Clock, k: int)
    requires
        0 <= k < planned(book, clock).len(),
    ensures
        clock.now() <= planned(book, clock)[k].planned_for.utc < clock.horizon(),
{
    lemma_plan_is_merge(book, clock);
    let origin = plan_order(book, clock)[k];
    assert(within(origin, planned_times(book, clock)));
    let blueprint = book[origin.blueprint as int];
    lemma_series_admitted(
        blueprint.preferred_slot,
        clock.zone(),
        blueprint.recurrence.step(),
        blueprint.recurrence.limit(),
        clock.now(),
        clock.horizon(),
        origin.index as int,
    );
}

/// The entries of a plan never go back in time, and of two entries for one
/// instant the one whose blueprint stands earlier in the book comes first.
pub proof fn lemma_plan_in_order(book: Seq<BlueprintView>, clock: Clock, i: int, j: int)
    requires
        0 <= i < j < planned(book, clock).len(),
    ensures
        planned(book, clock)[i].planned_for.utc <= planned(book, clock)[j].planned_for.utc,
        planned(book, clock)[i].planned_for.utc == planned(book, clock)[j].planned_for.utc
            ==> plan_order(book, clock)[i].blueprint <= plan_order(book, clock)[j].blueprint,
{
    lemma_plan_is_merge(book, clock);
    let order = plan_order(book, clock);
    assert(precedes(order[i], order[j], planned_times(book, clock)));
}

/// Every entry of a plan carries the id of its blueprint and lies at a
/// moment that the slot of its blueprint admits. For an hour slot, the local
/// hour of the entry is the slot's fixed hour or the first hour of its range.
pub proof fn lemma_plan_slot_fidelity(book: Seq<BlueprintView>, clock: Clock, k: int)
    requires
        0 <= k < planned(book, clock).len(),
    ensures
        ({
            let position = plan_order(book, clock)[k].blueprint as int;
            let entry = planned(book, clock)[k];
            &&& 0 <= position < book.len()
            &&& entry.blueprint_id == book[position].id
            &&& admits(book[position].preferred_slot, entry.planned_for)
            &&& book[position].preferred_slot.contains(entry.planned_for)
            &&& book[position].preferred_slot matches Slot::Hour(hours)
                ==> entry.planned_for.hour() == hours.anchor()
        }),
{
    lemma_plan_is_merge(book, clock);
    let origin = plan_order(book, clock)[k];
    assert(within(origin, planned_times(book, clock)));
    let blueprint = book[origin.blueprint as int];
    lemma_series_admitted(
        blueprint.preferred_slot,
        clock.zone(),
        blueprint.recurrence.step(),
        blueprint.recurrence.limit(),
        clock.now(),
        clock.horizon(),
        origin.index as int,
    );
}

/// A plan leaves no occurrence out: each occurrence of each blueprint has
/// an entry.
pub proof fn lemma_plan_complete(book: Seq<BlueprintView>, clock: Clock, origin: Origin)
    requires
        within(origin, planned_times(book, clock)),
    ensures
        exists|k: int|
            0 <= k < planned(book, clock).len() && plan_order(book, clock)[k] == origin
                && #[trigger] planned(book, clock)[k] == planned_entry(book, clock, origin),
{
    lemma_plan_is_merge(book, clock);
    assert(covers(plan_order(book, clock), origin));
    let k = choose|k: int|
        0 <= k < plan_order(book, clock).len() && plan_order(book, clock)[k] == origin;
    assert(planned(book, clock)[k] == planned_entry(book, clock, origin));
}

/// A plan holds the occurrences of each blueprint in the order in which
/// they were generated: of two entries of one blueprint, the earlier in the
/// plan is the earlier occurrence.
pub proof fn lemma_plan_keeps_each_series(
    book: Seq<BlueprintView>,
    clock: Clock,
    i: int,
    j: int,
)
    requires
        0 <= i < j < planned(book, clock).len(),
        plan_order(book, clock)[i].blueprint == plan_order(book, clock)[j].blueprint,
    ensures
        plan_order(book, clock)[i].index < plan_order(book, clock)[j].index,
{
    lemma_plan_is_merge(book, clock);
    lemma_planned_times_chronological(book, clock);
    lemma_linearization_stable(plan_order(book, clock), planned_times(book, clock), i, j);
}

/// In a plan, two consecutive occurrences of a blueprint that repeats at a
/// fixed spacing differ by exactly the spacing wherever its slot admits the
/// moment one spacing after the earlier one, and by more where it does not.
pub proof fn lemma_plan_recurrence_fidelity(
    book: Seq<BlueprintView>,
    clock: Clock,
    b: int,
    p: int,
)
    requires
        0 <= b < book.len(),
        book[b].recurrence is Period,
        0 <= p,
        p + 1 < planned_times(book, clock)[b].len(),
    ensures
        ({
            let times = planned_times(book, clock)[b];
            let spacing = book[b].recurrence->Period_spacing.span();
            &&& times[p + 1] - times[p] >= spacing
            &&& (times[p + 1] - times[p] == spacing <==> admits(
                book[b].preferred_slot,
                clock.zone().local(times[p] + spacing),
            ))
        }),
{
    lemma_period_spacing(book[b], clock.zone(), clock.now(), clock.horizon(), p);
}

/// In a plan, a blueprint that fires once has at most one entry, and exactly
/// one where its slot is valid and the zone keeps one offset for the week.
pub proof fn lemma_plan_once(book: Seq<BlueprintView>, clock: Clock, b: int)
    requires
        0 <= b < book.len(),
        book[b].recurrence is Once,
    ensures
        planned_times(book, clock)[b].len() <= 1,
        book[b].preferred_slot.valid() && steady(clock.zone(), clock.now(), clock.now() + WEEK + 1)
            ==> planned_times(book, clock)[b].len() == 1,
{
    lemma_once_fires_once(book[b], clock.zone(), clock.now(), clock.horizon());
    if book[b].preferred_slot.valid() && steady(clock.zone(), clock.now(), clock.now() + WEEK + 1) {
        assert(clock.zone().offset_at(clock.now() + WEEK) == clock.zone().offset_at(clock.now()));
        assert(clock.horizon() == clock.now() + WEEK);
        lemma_once_fires_in_steady_zone(
            book[b],
            clock.zone(),
            clock.now(),
            clock.horizon(),
        );
    }
}

} // verus!
