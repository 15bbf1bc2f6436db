//! Generation of the occurrences of one blueprint in a window.

use vstd::prelude::*;

use crate::types::Blueprint;
use crate::types::BlueprintView;
use crate::types::Moment;
use crate::types::MomentView;
use crate::types::Recurrence;
use crate::types::Slot;
use crate::types::Zone;
use crate::types::EARLIEST;
use crate::types::LATEST;

verus! {

/// Seconds between one candidate instant and the next: an hour where the
/// slot names hours, a day where it names days.
pub open spec fn stride(slot: Slot) -> int {
    match slot {
        Slot::Hour(_) => 3600,
        Slot::Week(_) => 86400,
    }
}

/// Whether an occurrence may be placed at a moment: in the hour at which an
/// hour slot is anchored, or on a day that a week slot covers.
pub open spec fn admits(slot: Slot, moment: MomentView) -> bool {
    match slot {
        Slot::Hour(hours) => moment.hour() == hours.anchor(),
        Slot::Week(days) => days.contains(moment.weekday()),
    }
}

/// A slot covers every moment at which it admits an occurrence.
pub proof fn lemma_admitted_is_matched(slot: Slot, moment: MomentView)
    requires
        admits(slot, moment),
    ensures
        slot.contains(moment),
{
}

/// Seconds from `cursor` to `end`; zero once the cursor has reached the end.
pub open spec fn gap(cursor: int, end: int) -> nat {
    if cursor < end {
        (end - cursor) as nat
    } else {
        0
    }
}

/// The first instant before `end`, among `cursor`, `cursor + stride`,
/// `cursor + 2 * stride` and so on, at which the slot admits an occurrence.
pub open spec fn first_fit(slot: Slot, zone: Zone, cursor: int, end: int) -> Option<int>
    decreases gap(cursor, end),
{
    if cursor >= end {
        None
    } else if admits(slot, zone.local(cursor)) {
        Some(cursor)
    } else {
        first_fit(slot, zone, cursor + stride(slot), end)
    }
}

/// The instants at which a blueprint fires from `cursor` on: the first fit
/// from the cursor, then the first fit from `step` seconds after it, and so
/// on, until no fit is left before `end` or `limit` occurrences are out. An
/// unlimited series that cannot advance (`step` is zero) holds its first
/// occurrence alone.
pub open spec fn series(
    slot: Slot,
    zone: Zone,
    step: nat,
    limit: Option<nat>,
    cursor: int,
    end: int,
) -> Seq<int>
    decreases
            (match limit {
                Some(n) => n,
                None => 0,
            }),
            gap(cursor, end),
    via series_terminates
{
    if limit == Some(0nat) {
        Seq::empty()
    } else {
        match first_fit(slot, zone, cursor, end) {
            None => Seq::empty(),
            Some(t) => {
                let rest = match limit {
                    Some(n) => series(slot, zone, step, Some((n - 1) as nat), t + step, end),
                    None => if step > 0 {
                        series(slot, zone, step, None, t + step, end)
                    } else {
                        Seq::empty()
                    },
                };
                seq![t] + rest
            },
        }
    }
}

#[via_fn]
proof fn series_terminates(
    slot: Slot,
    zone: Zone,
    step: nat,
    limit: Option<nat>,
    cursor: int,
    end: int,
) {
    lemma_first_fit_admitted(slot, zone, cursor, end);
}

/// A first fit lies between the cursor and the end, on the cursor's grid,
/// and the slot admits it.
pub proof fn lemma_first_fit_admitted(slot: Slot, zone: Zone, cursor: int, end: int)
    ensures
        first_fit(slot, zone, cursor, end) matches Some(t) ==> cursor <= t < end && admits(
            slot,
            zone.local(t),
        ) && (t - cursor) % stride(slot) == 0,
    decreases gap(cursor, end),
{
    if cursor < end && !admits(slot, zone.local(cursor)) {
        lemma_first_fit_admitted(slot, zone, cursor + stride(slot), end);
    }
}

/// A first fit is the first: where the slot admits an instant of the
/// cursor's grid before the end, there is a first fit, at that instant or
/// before it.
pub proof fn lemma_first_fit_least(slot: Slot, zone: Zone, cursor: int, end: int, k: nat)
    requires
        cursor + k * stride(slot) < end,
        admits(slot, zone.local(cursor + k * stride(slot))),
    ensures
        first_fit(slot, zone, cursor, end) matches Some(t) && t <= cursor + k * stride(slot),
    decreases k,
{
    assert(cursor < end) by (nonlinear_arith)
        requires
            cursor + k * stride(slot) < end,
            stride(slot) > 0,
    ;
    if admits(slot, zone.local(cursor)) {
        assert(k * stride(slot) >= 0) by (nonlinear_arith)
            requires
                stride(slot) > 0,
        ;
    } else {
        if k == 0 {
            assert(cursor + 0 * stride(slot) == cursor);
        } else {
            let next = cursor + stride(slot);
            assert(next + (k - 1) * stride(slot) == cursor + k * stride(slot)) by (nonlinear_arith)
                requires
                    next == cursor + stride(slot),
            ;
            lemma_first_fit_least(slot, zone, next, end, (k - 1) as nat);
        }
    }
}

/// A series is empty where nothing is allowed or the slot admits no instant
/// before the end; otherwise it starts at the first fit from the cursor.
pub proof fn lemma_series_head(
    slot: Slot,
    zone: Zone,
    step: nat,
    limit: Option<nat>,
    cursor: int,
    end: int,
)
    ensures
        series(slot, zone, step, limit, cursor, end).len() == 0 <==> (limit == Some(0nat)
            || first_fit(slot, zone, cursor, end) is None),
        series(slot, zone, step, limit, cursor, end).len() > 0 ==> first_fit(
            slot,
            zone,
            cursor,
            end,
        ) == Some(series(slot, zone, step, limit, cursor, end)[0]),
{
}

/// Every instant of a series lies in the window from the cursor to the end,
/// which is open at its end, and is one that the slot admits.
pub proof fn lemma_series_admitted(
    slot: Slot,
    zone: Zone,
    step: nat,
    limit: Option<nat>,
    cursor: int,
    end: int,
    i: int,
)
    requires
        0 <= i < series(slot, zone, step, limit, cursor, end).len(),
    ensures
        cursor <= series(slot, zone, step, limit, cursor, end)[i] < end,
        admits(slot, zone.local(series(slot, zone, step, limit, cursor, end)[i])),
    decreases i,
{
    lemma_first_fit_admitted(slot, zone, cursor, end);
    if i > 0 {
        let t = first_fit(slot, zone, cursor, end)->0;
        match limit {
            Some(n) => lemma_series_admitted(
                slot,
                zone,
                step,
                Some((n - 1) as nat),
                t + step,
                end,
                i - 1,
            ),
            None => lemma_series_admitted(slot, zone, step, None, t + step, end, i - 1),
        }
    }
}

/// Each instant of a series but the first is the first fit from `step`
/// seconds after the one before it.
pub proof fn lemma_series_spaced(
    slot: Slot,
    zone: Zone,
    step: nat,
    limit: Option<nat>,
    cursor: int,
    end: int,
    i: int,
)
    requires
        0 <= i,
        i + 1 < series(slot, zone, step, limit, cursor, end).len(),
    ensures
        first_fit(slot, zone, series(slot, zone, step, limit, cursor, end)[i] + step, end)
            == Some(series(slot, zone, step, limit, cursor, end)[i + 1]),
    decreases i,
{
    let t = first_fit(slot, zone, cursor, end)->0;
    let rest = match limit {
        Some(n) => Some((n - 1) as nat),
        None => None,
    };
    if i == 0 {
        lemma_series_head(slot, zone, step, rest, t + step, end);
    } else {
        lemma_series_spaced(slot, zone, step, rest, t + step, end, i - 1);
    }
}

/// A series never holds more instants than its limit allows.
pub proof fn lemma_series_limited(
    slot: Slot,
    zone: Zone,
    step: nat,
    limit: Option<nat>,
    cursor: int,
    end: int,
)
    ensures
        limit matches Some(n) ==> series(slot, zone, step, limit, cursor, end).len() <= n,
    decreases
            (match limit {
                Some(n) => n,
                None => 0,
            }),
{
    if let Some(n) = limit {
        if n > 0 {
            if let Some(t) = first_fit(slot, zone, cursor, end) {
                lemma_series_limited(slot, zone, step, Some((n - 1) as nat), t + step, end);
            }
        }
    }
}

/// A series stops only where it must: after its last instant either the
/// limit is used up, or the slot admits no further instant before the end,
/// or the series is unlimited and cannot advance.
pub proof fn lemma_series_exhaustive(
    slot: Slot,
    zone: Zone,
    step: nat,
    limit: Option<nat>,
    cursor: int,
    end: int,
)
    requires
        series(slot, zone, step, limit, cursor, end).len() > 0,
    ensures
        ({
            let all = series(slot, zone, step, limit, cursor, end);
            ||| limit == Some(all.len())
            ||| first_fit(slot, zone, all.last() + step, end) is None
            ||| (limit is None && step == 0)
        }),
    decreases series(slot, zone, step, limit, cursor, end).len(),
{
    let all = series(slot, zone, step, limit, cursor, end);
    let t = first_fit(slot, zone, cursor, end)->0;
    let rest = match limit {
        Some(n) => Some((n - 1) as nat),
        None => None,
    };
    if all.len() > 1 {
        let tail = series(slot, zone, step, rest, t + step, end);
        assert(all =~= seq![t] + tail);
        assert(all.last() == tail.last());
        lemma_series_exhaustive(slot, zone, step, rest, t + step, end);
    } else if !(limit is None && step == 0) {
        lemma_series_head(slot, zone, step, rest, t + step, end);
    }
}

/// The instants of a series never go back; each lies at least `step`
/// seconds after the one before it.
pub proof fn lemma_series_chronological(
    slot: Slot,
    zone: Zone,
    step: nat,
    limit: Option<nat>,
    cursor: int,
    end: int,
    p: int,
    q: int,
)
    requires
        0 <= p <= q < series(slot, zone, step, limit, cursor, end).len(),
    ensures
        series(slot, zone, step, limit, cursor, end)[p] + (q - p) * step <= series(
            slot,
            zone,
            step,
            limit,
            cursor,
            end,
        )[q],
    decreases q - p,
{
    let all = series(slot, zone, step, limit, cursor, end);
    if p < q {
        lemma_series_chronological(slot, zone, step, limit, cursor, end, p, q - 1);
        lemma_series_spaced(slot, zone, step, limit, cursor, end, q - 1);
        lemma_first_fit_admitted(slot, zone, all[q - 1] + step, end);
        assert((q - p) * step == (q - 1 - p) * step + step) by (nonlinear_arith);
    } else {
        assert((q - p) * step == 0) by (nonlinear_arith)
            requires
                q - p == 0,
        ;
    }
}

/// The instants at which a blueprint fires in the window from `start` to
/// `end`, which is open at its end.
pub open spec fn occurrence_times(
    blueprint: BlueprintView,
    zone: Zone,
    start: int,
    end: int,
) -> Seq<int> {
    series(
        blueprint.preferred_slot,
        zone,
        blueprint.recurrence.step(),
        blueprint.recurrence.limit(),
        start,
        end,
    )
}

/// The moments at which a blueprint fires in a window: its instants, each
/// with the offset that the zone has in force at it.
pub open spec fn occurrence_moments(
    blueprint: BlueprintView,
    zone: Zone,
    start: int,
    end: int,
) -> Seq<MomentView> {
    occurrence_times(blueprint, zone, start, end).map_values(|t: int| zone.local(t))
}

/// The instants of a sequence of moments.
pub open spec fn instants(moments: Seq<Moment>) -> Seq<int> {
    moments.map_values(|m: Moment| m@.utc)
}

/// The number of occurrences that are still allowed, as a limit.
spec fn allowance(left: Option<usize>) -> Option<nat> {
    match left {
        Some(n) => Some(n as nat),
        None => None,
    }
}

/// Whether an occurrence may be placed at a moment.
fn fits(slot: Slot, moment: &Moment) -> (ok: bool)
    ensures
        ok == admits(slot, moment@),
{
    match slot {
        Slot::Hour(hours) => moment.hour() == hours.anchor_hour(),
        Slot::Week(days) => days.matches(moment.weekday()),
    }
}

/// Walks from `cursor` in strides up to the first moment before `end` that
/// the slot admits.
fn find_fit(slot: Slot, zone: &Zone, cursor: i64, end: i64) -> (found: Option<Moment>)
    requires
        EARLIEST <= cursor,
        end <= LATEST + 1,
    ensures
        match first_fit(slot, *zone, cursor as int, end as int) {
            Some(t) => found matches Some(m) && m@ == zone.local(t),
            None => found is None,
        },
{
    let step: i64 = match slot {
        Slot::Hour(_) => 3600,
        Slot::Week(_) => 86400,
    };
    let mut at: i64 = cursor;
    while at < end
        invariant
            EARLIEST <= cursor <= at,
            end <= LATEST + 1,
            step == stride(slot),
            first_fit(slot, *zone, cursor as int, end as int) == first_fit(
                slot,
                *zone,
                at as int,
                end as int,
            ),
        decreases gap(at as int, end as int),
    {
        // Every instant of the window has its moment.
        if let Some(moment) = zone.moment_at(at) {
            if fits(slot, &moment) {
                return Some(moment);
            }
        }
        at = at + step;
    }
    None
}

/// Generates the occurrences of one blueprint in the window from
/// `window_start` to `window_end`, which is open at its end: in order of
/// time, each at a moment that the blueprint's slot admits, as many and as
/// far apart as its recurrence says.
pub fn occurrences(
    blueprint: &Blueprint,
    zone: &Zone,
    window_start: i64,
    window_end: i64,
) -> (moments: Vec<Moment>)
    requires
        EARLIEST <= window_start,
        window_end <= LATEST + 1,
    ensures
        moments@.map_values(|m: Moment| m@) == occurrence_moments(
            blueprint@,
            *zone,
            window_start as int,
            window_end as int,
        ),
        forall|i: int|
            0 <= i < moments.len() ==> window_start <= (#[trigger] moments[i])@.utc < window_end
                && admits(blueprint@.preferred_slot, moments[i]@),
        forall|i: int, j: int|
            0 <= i <= j < moments.len() ==> (#[trigger] moments[i])@.utc <= (
            #[trigger] moments[j])@.utc,
{
    let slot = blueprint.preferred_slot();
    let recurrence = blueprint.recurrence();
    let mut left: Option<usize> = match recurrence {
        Recurrence::Once => Some(1),
        Recurrence::Times { count, .. } => Some(count),
        Recurrence::Period { .. } => None,
    };
    let spacing: Option<u64> = match recurrence {
        Recurrence::Once => Some(0),
        Recurrence::Times { spacing, .. } => spacing.checked_seconds(),
        Recurrence::Period { spacing } => spacing.checked_seconds(),
    };
    let ghost step = recurrence.step();
    let ghost end = window_end as int;
    let ghost whole = occurrence_times(blueprint@, *zone, window_start as int, end);
    let mut out: Vec<Moment> = Vec::new();
    let mut cursor: i64 = window_start;
    let mut done = false;
    assert(instants(out@) =~= Seq::<int>::empty());
    while !done
        invariant
            EARLIEST <= cursor,
            end == window_end,
            window_end <= LATEST + 1,
            spacing matches Some(s) ==> s == step,
            spacing is None ==> step > u64::MAX,
            left is None ==> recurrence is Period,
            whole == instants(out@) + (if done {
                Seq::<int>::empty()
            } else {
                series(slot, *zone, step, allowance(left), cursor as int, end)
            }),
            forall|i: int| 0 <= i < out.len() ==> (#[trigger] out[i])@ == zone.local(out[i]@.utc),
        decreases
                (if done {
                    0int
                } else {
                    1int
                }),
                (match left {
                    Some(n) => n as int,
                    None => 0int,
                }),
                gap(cursor as int, end),
    {
        let exhausted = match left {
            Some(n) => n == 0,
            None => false,
        };
        if exhausted {
            done = true;
        } else {
            proof {
                lemma_first_fit_admitted(slot, *zone, cursor as int, end);
            }
            match find_fit(slot, zone, cursor, window_end) {
                None => {
                    done = true;
                },
                Some(moment) => {
                    let t: i64 = moment.timestamp();
                    let ghost before = out@;
                    let ghost limit = allowance(left);
                    out.push(moment);
                    left =
                    match left {
                        Some(n) => Some((n - 1) as usize),
                        None => None,
                    };
                    let ghost rest = match limit {
                        Some(n) => series(slot, *zone, step, Some((n - 1) as nat), t + step, end),
                        None => if step > 0 {
                            series(slot, *zone, step, None, t + step, end)
                        } else {
                            Seq::<int>::empty()
                        },
                    };
                    proof {
                        assert(series(slot, *zone, step, limit, cursor as int, end) == seq![
                            t as int,
                        ] + rest);
                        assert(instants(out@) =~= instants(before) + seq![t as int]);
                        assert(whole =~= instants(out@) + rest);
                    }
                    let unbounded = left.is_none();
                    match spacing {
                        None => {
                            done = true;
                        },
                        Some(s) => {
                            if unbounded && s == 0 {
                                done = true;
                            } else if s >= (window_end - t) as u64 {
                                done = true;
                            } else {
                                cursor = t + (s as i64);
                            }
                        },
                    }
                    proof {
                        if done {
                            assert(rest =~= Seq::<int>::empty());
                        }
                    }
                },
            }
        }
    }
    proof {
        let views = out@.map_values(|m: Moment| m@);
        let expected = occurrence_moments(blueprint@, *zone, window_start as int, end);
        assert(whole =~= instants(out@));
        assert(views =~= expected);
        assert forall|i: int| 0 <= i < out.len() implies window_start <= (#[trigger] out[i])@.utc
            < window_end && admits(slot, out[i]@) by {
            assert(instants(out@)[i] == out[i]@.utc);
            lemma_series_admitted(
                slot,
                *zone,
                step,
                recurrence.limit(),
                window_start as int,
                end,
                i,
            );
        }
        assert forall|i: int, j: int| 0 <= i <= j < out.len() implies (#[trigger] out[i])@.utc <= (
        #[trigger] out[j])@.utc by {
            assert(instants(out@)[i] == out[i]@.utc);
            assert(instants(out@)[j] == out[j]@.utc);
            lemma_series_chronological(
                slot,
                *zone,
                step,
                recurrence.limit(),
                window_start as int,
                end,
                i,
                j,
            );
            assert((j - i) * step >= 0) by (nonlinear_arith)
                requires
                    j - i >= 0,
                    step >= 0,
            ;
        }
    }
    out
}

} // verus!
