//! The local time zone of a run as data, and the clock that starts a run.

use vstd::prelude::*;

use crate::types::moment::Moment;
use crate::types::moment::MomentView;
use crate::types::moment::EARLIEST;
use crate::types::moment::LATEST;

verus! {

/// Seconds in a day without a change of offset.
pub const DAY: i64 = 86_400;

/// Seconds in seven days without a change of offset.
pub const WEEK: i64 = 604_800;

/// The last instant at which a planning run may start: nine days before
/// the last moment, so that the window and a change of offset fit.
pub const LAST_START: i64 = 253_401_523_199;

/// A change of the local offset: from the instant `at` on (in seconds since
/// the epoch), local time runs `offset` seconds ahead of UTC.
#[derive(Debug, PartialEq, Eq, Clone, Copy, Structural)]
pub struct Shift {
    pub at: i64,
    pub offset: i32,
}

/// The offset that rules give for the instant `t`: that of the last shift at
/// or before `t`, or `base` where there is none.
pub open spec fn offset_in(base: int, shifts: Seq<Shift>, t: int) -> int
    decreases shifts.len(),
{
    if shifts.len() == 0 {
        base
    } else if shifts.last().at <= t {
        shifts.last().offset as int
    } else {
        offset_in(base, shifts.drop_last(), t)
    }
}

/// Whether a base offset and a list of shifts describe a time zone: every
/// offset is less than a day, and the shifts follow one another in time.
pub open spec fn rules_valid(base: int, shifts: Seq<Shift>) -> bool {
    &&& -86400 < base < 86400
    &&& forall|i: int| 0 <= i < shifts.len() ==> -86400 < (#[trigger] shifts[i]).offset < 86400
    &&& forall|i: int, j: int|
        0 <= i < j < shifts.len() ==> (#[trigger] shifts[i]).at < (#[trigger] shifts[j]).at
}

/// The single local time zone of a planning run: the offset from UTC that
/// local clocks show at each instant.
#[derive(Debug, PartialEq, Eq)]
pub struct Zone {
    base: i32,
    shifts: Vec<Shift>,
}

impl Zone {
    /// The offset in force before the first shift.
    pub closed spec fn base(self) -> int {
        self.base as int
    }

    /// The changes of offset, in order of time.
    pub closed spec fn shifts(self) -> Seq<Shift> {
        self.shifts@
    }

    /// Every zone holds valid rules.
    #[verifier::type_invariant]
    pub closed spec fn wf(self) -> bool {
        rules_valid(self.base as int, self.shifts@)
    }

    /// Seconds that local time runs ahead of UTC at the instant `t`.
    pub open spec fn offset_at(self, t: int) -> int {
        offset_in(self.base(), self.shifts(), t)
    }

    /// The moment at the instant `t`: the instant, with the offset in force
    /// at it.
    pub open spec fn local(self, t: int) -> MomentView {
        MomentView { utc: t, east: self.offset_at(t) }
    }

    /// A zone whose clocks always run `offset` seconds ahead of UTC, if that
    /// is less than a day.
    pub fn fixed(offset: i32) -> (zone: Option<Self>)
        ensures
            zone is Some <==> -86400 < offset < 86400,
            zone matches Some(z) ==> z.base() == offset && z.shifts() == Seq::<Shift>::empty()
                && z.wf(),
    {
        if -86400 < offset && offset < 86400 {
            Some(Zone { base: offset, shifts: Vec::new() })
        } else {
            None
        }
    }

    /// A zone that starts at `base` and changes its offset at each of
    /// `shifts`, if these are valid rules.
    pub fn new(base: i32, shifts: Vec<Shift>) -> (zone: Option<Self>)
        ensures
            zone is Some <==> rules_valid(base as int, shifts@),
            zone matches Some(z) ==> z.base() == base && z.shifts() == shifts@ && z.wf(),
    {
        if !(-86400 < base && base < 86400) {
            return None;
        }
        let mut i: usize = 0;
        while i < shifts.len()
            invariant
                i <= shifts.len(),
                forall|k: int| 0 <= k < i ==> -86400 < (#[trigger] shifts@[k]).offset < 86400,
                forall|k: int| 0 < k < i ==> (#[trigger] shifts@[k - 1]).at < shifts@[k].at,
            decreases shifts.len() - i,
        {
            let shift = shifts[i];
            if !(-86400 < shift.offset && shift.offset < 86400) {
                return None;
            }
            if i > 0 && shifts[i - 1].at >= shift.at {
                assert(!(shifts@[i - 1].at < shifts@[i as int].at));
                return None;
            }
            i += 1;
        }
        proof {
            lemma_steps_ordered(shifts@);
        }
        Some(Zone { base, shifts })
    }

    /// Seconds that local time runs ahead of UTC at the instant `t`.
    pub fn offset_for(&self, t: i64) -> (offset: i32)
        ensures
            offset == self.offset_at(t as int),
            -86400 < offset < 86400,
    {
        proof {
            use_type_invariant(self);
        }
        let mut i: usize = self.shifts.len();
        assert(self.shifts@.take(i as int) == self.shifts@);
        while i > 0
            invariant
                i <= self.shifts.len(),
                self.wf(),
                self.offset_at(t as int) == offset_in(
                    self.base as int,
                    self.shifts@.take(i as int),
                    t as int,
                ),
            decreases i,
        {
            let shift = self.shifts[i - 1];
            proof {
                let head = self.shifts@.take(i as int);
                assert(head.last() == shift);
                assert(head.drop_last() == self.shifts@.take(i as int - 1));
            }
            if shift.at <= t {
                return shift.offset;
            }
            i -= 1;
        }
        self.base
    }

    /// The moment at the instant `t`, with the offset in force then, if `t`
    /// lies in the years 0000 to 9999.
    pub fn moment_at(&self, t: i64) -> (moment: Option<Moment>)
        ensures
            moment is Some <==> EARLIEST <= t <= LATEST,
            moment matches Some(m) ==> m@ == self.local(t as int),
    {
        let offset = self.offset_for(t);
        Moment::new(t, offset)
    }
}

/// Shifts of which each lies before the next lie in order of time.
proof fn lemma_steps_ordered(shifts: Seq<Shift>)
    requires
        forall|k: int| 0 < k < shifts.len() ==> (#[trigger] shifts[k - 1]).at < shifts[k].at,
    ensures
        forall|i: int, j: int|
            0 <= i < j < shifts.len() ==> (#[trigger] shifts[i]).at < (#[trigger] shifts[j]).at,
{
    assert forall|i: int, j: int| 0 <= i < j < shifts.len() implies (#[trigger] shifts[i]).at < (
    #[trigger] shifts[j]).at by {
        lemma_step_chain(shifts, i, j);
    }
}

/// Of shifts of which each lies before the next, an earlier one lies before
/// a later one.
proof fn lemma_step_chain(shifts: Seq<Shift>, i: int, j: int)
    requires
        forall|k: int| 0 < k < shifts.len() ==> (#[trigger] shifts[k - 1]).at < shifts[k].at,
        0 <= i < j < shifts.len(),
    ensures
        shifts[i].at < shifts[j].at,
    decreases j - i,
{
    if i + 1 < j {
        lemma_step_chain(shifts, i, j - 1);
        assert(shifts[j - 1].at < shifts[j].at);
    } else {
        assert(shifts[j - 1].at < shifts[j].at);
    }
}

/// The offset of a zone is always one of its rules' offsets: less than a day.
pub proof fn lemma_offset_bounded(base: int, shifts: Seq<Shift>, t: int)
    requires
        rules_valid(base, shifts),
    ensures
        -86400 < offset_in(base, shifts, t) < 86400,
    decreases shifts.len(),
{
    if shifts.len() > 0 && shifts.last().at > t {
        lemma_rules_without_last(base, shifts);
        lemma_offset_bounded(base, shifts.drop_last(), t);
    }
}

/// Valid rules stay valid without their last shift.
proof fn lemma_rules_without_last(base: int, shifts: Seq<Shift>)
    requires
        rules_valid(base, shifts),
        shifts.len() > 0,
    ensures
        rules_valid(base, shifts.drop_last()),
{
    let rest = shifts.drop_last();
    assert forall|i: int| 0 <= i < rest.len() implies -86400 < (#[trigger] rest[i]).offset
        < 86400 by {
        assert(rest[i] == shifts[i]);
    }
    assert forall|i: int, j: int| 0 <= i < j < rest.len() implies (#[trigger] rest[i]).at < (
    #[trigger] rest[j]).at by {
        assert(rest[i] == shifts[i]);
        assert(rest[j] == shifts[j]);
    }
}

/// From a shift up to the next one, the offset of that shift is in force;
/// before the first shift, the base offset is.
pub proof fn lemma_offset_in_force(base: int, shifts: Seq<Shift>, t: int, i: int)
    requires
        rules_valid(base, shifts),
        -1 <= i < shifts.len(),
        0 <= i ==> shifts[i].at <= t,
        i + 1 < shifts.len() ==> t < shifts[i + 1].at,
    ensures
        offset_in(base, shifts, t) == if i < 0 {
            base
        } else {
            shifts[i].offset as int
        },
    decreases shifts.len(),
{
    if shifts.len() > 0 && i < shifts.len() - 1 {
        assert(shifts[i + 1].at <= shifts.last().at);
        lemma_rules_without_last(base, shifts);
        lemma_offset_in_force(base, shifts.drop_last(), t, i);
    }
}

/// The injected clock of a planning run: one reading of the time, and the
/// local zone in which the whole run is evaluated.
#[derive(Debug, PartialEq, Eq)]
pub struct Clock {
    now: i64,
    zone: Zone,
}

impl Clock {
    /// The instant at which the run starts, in seconds since the epoch.
    pub closed spec fn now(self) -> int {
        self.now as int
    }

    /// The local zone of the run.
    pub closed spec fn zone(self) -> Zone {
        self.zone
    }

    /// Every clock reads an instant from which a whole window fits before
    /// the last moment, in a zone with valid rules.
    #[verifier::type_invariant]
    pub closed spec fn wf(self) -> bool {
        &&& EARLIEST <= self.now <= LAST_START
        &&& self.zone.wf()
    }

    /// The end of the planning window, which starts at `now` and is open at
    /// its end: the instant, seven calendar days later, at which local clocks
    /// show the same time of day as at `now`. Where the offset in force a
    /// week from now does not lead back to that reading, the window lasts
    /// seven times 24 hours.
    pub open spec fn horizon(self) -> int {
        let week_on = self.now() + WEEK;
        let here = self.zone().offset_at(self.now());
        let there = self.zone().offset_at(week_on);
        let same_reading = week_on + here - there;
        if self.zone().offset_at(same_reading) == there {
            same_reading
        } else {
            week_on
        }
    }

    /// A clock that reads `now` in `zone`, if a window that starts at `now`
    /// ends before the year 10000.
    pub fn new(now: i64, zone: Zone) -> (clock: Option<Self>)
        ensures
            clock is Some <==> EARLIEST <= now <= LAST_START,
            clock matches Some(c) ==> c.now() == now && c.zone() == zone && c.wf(),
    {
        proof {
            use_type_invariant(&zone);
        }
        if EARLIEST <= now && now <= LAST_START {
            Some(Clock { now, zone })
        } else {
            None
        }
    }

    /// The instant at which the run starts.
    pub fn reading(&self) -> (now: i64)
        ensures
            now == self.now(),
            EARLIEST <= now <= LAST_START,
    {
        proof {
            use_type_invariant(self);
        }
        self.now
    }

    /// The local zone of the run.
    pub fn local_zone(&self) -> (zone: &Zone)
        ensures
            *zone == self.zone(),
    {
        &self.zone
    }

    /// The end of the planning window.
    pub fn window_end(&self) -> (end: i64)
        ensures
            end == self.horizon(),
            self.now() + WEEK - 2 * DAY < end < self.now() + WEEK + 2 * DAY,
            end <= LATEST,
    {
        proof {
            use_type_invariant(self);
        }
        let week_on: i64 = self.now + WEEK;
        let here: i32 = self.zone.offset_for(self.now);
        let there: i32 = self.zone.offset_for(week_on);
        let same_reading: i64 = week_on + (here as i64) - (there as i64);
        if self.zone.offset_for(same_reading) == there {
            same_reading
        } else {
            week_on
        }
    }
}

/// The window of a run whose zone keeps one offset lasts seven times 24
/// hours.
pub proof fn lemma_window_without_shift(clock: Clock)
    requires
        clock.zone().shifts().len() == 0,
    ensures
        clock.horizon() == clock.now() + WEEK,
{
}

/// The window ends where local clocks show, seven calendar days on, what
/// they show at its start; or, where they do not get to show that, after
/// seven times 24 hours.
pub proof fn lemma_window_ends_on_same_reading(clock: Clock)
    ensures
        ({
            let zone = clock.zone();
            let start = clock.now();
            let end = clock.horizon();
            ||| end + zone.offset_at(end) == start + zone.offset_at(start) + WEEK
            ||| end == start + WEEK
        }),
{
}

/// Whatever the zone, the window lasts seven days to within the two offsets
/// at its ends: more than five and less than nine times 24 hours.
pub proof fn lemma_window_length(clock: Clock)
    requires
        clock.wf(),
    ensures
        clock.now() + 5 * DAY < clock.horizon() < clock.now() + 9 * DAY,
{
    let zone = clock.zone();
    lemma_offset_bounded(zone.base(), zone.shifts(), clock.now());
    lemma_offset_bounded(zone.base(), zone.shifts(), clock.now() + WEEK);
}

} // verus!
