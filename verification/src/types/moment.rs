//! Points in time, as instants with the local offset in force at them.

use chrono::DateTime;
use chrono::FixedOffset;
use vstd::prelude::*;

use crate::types::DayOfWeek;

verus! {

/// The first second that a [`Moment`] can hold: the start of year 0000, in
/// seconds since 1970-01-01T00:00:00Z.
pub const EARLIEST: i64 = -62_167_219_200;

/// The last second that a [`Moment`] can hold: the end of year 9999.
pub const LATEST: i64 = 253_402_300_799;

/// The hour of the day (0-23) that a wall clock shows at `utc` seconds since
/// the epoch, where it runs `offset` seconds ahead of UTC.
pub open spec fn hour_of(utc: int, offset: int) -> int {
    ((utc + offset) % 86400) / 3600
}

/// The day of the week, counted from zero for Monday, that a calendar shows
/// at `utc` seconds since the epoch, where local time runs `offset` seconds
/// ahead of UTC. The epoch fell on a Thursday.
pub open spec fn weekday_of(utc: int, offset: int) -> int {
    ((utc + offset) / 86400 + 3) % 7
}

/// The RFC 3339 text that `chrono` writes for the instant `utc` seconds
/// since the epoch, seen `offset` seconds ahead of UTC.
pub uninterp spec fn rfc3339_text(utc: int, offset: int) -> Seq<char>;

/// Whether an instant and an offset are within what a [`Moment`] holds.
pub open spec fn representable(utc: int, offset: int) -> bool {
    EARLIEST <= utc <= LATEST && -86400 < offset < 86400
}

/// The seconds of 719529 days, one day more than lie between the first
/// moment and the epoch: added to the local time of any moment, they give a
/// count of seconds that is not negative and starts at a midnight.
const BEFORE_EPOCH: i64 = 62_167_305_600;

/// Calls `chrono::DateTime::to_rfc3339` on the `DateTime<FixedOffset>` that
/// `chrono` makes of the instant and the offset. Within the precondition
/// both exist and the call does not panic. Of the text the contract says
/// only that it is what `chrono` writes for these two values: it depends on
/// them alone.
#[verifier::external_body]
fn write_rfc3339(secs: i64, offset: i32) -> (text: String)
    requires
        representable(secs as int, offset as int),
    ensures
        text@ == rfc3339_text(secs as int, offset as int),
{
    let zone = FixedOffset::east_opt(offset).unwrap();
    DateTime::from_timestamp(secs, 0).unwrap().with_timezone(&zone).to_rfc3339()
}

/// What a [`Moment`] holds: an instant, in seconds since
/// 1970-01-01T00:00:00Z, and the seconds that local time runs ahead of UTC
/// at it.
pub struct MomentView {
    pub utc: int,
    pub east: int,
}

impl MomentView {
    /// The local hour of the day, 0-23.
    pub open spec fn hour(self) -> int {
        hour_of(self.utc, self.east)
    }

    /// The local day of the week.
    pub open spec fn weekday(self) -> DayOfWeek {
        DayOfWeek::of_rank(weekday_of(self.utc, self.east))
    }

    /// The RFC 3339 text of the moment, in its local time.
    pub open spec fn text(self) -> Seq<char> {
        rfc3339_text(self.utc, self.east)
    }
}

/// A point in time together with the offset from UTC that local clocks
/// show at it.
#[derive(Debug, PartialEq, Eq, Clone, Copy, Structural)]
pub struct Moment {
    secs: i64,
    offset: i32,
}

impl View for Moment {
    type V = MomentView;

    closed spec fn view(&self) -> MomentView {
        MomentView { utc: self.secs as int, east: self.offset as int }
    }
}

impl Moment {
    /// Every moment lies in the years 0000 to 9999, with an offset of less
    /// than a day.
    #[verifier::type_invariant]
    pub closed spec fn wf(self) -> bool {
        representable(self.secs as int, self.offset as int)
    }

    /// The moment `secs` seconds after the epoch, seen `offset` seconds ahead
    /// of UTC, if both are within range.
    pub fn new(secs: i64, offset: i32) -> (moment: Option<Self>)
        ensures
            moment is Some <==> representable(secs as int, offset as int),
            moment matches Some(m) ==> m@ == (MomentView { utc: secs as int, east: offset as int }),
    {
        if EARLIEST <= secs && secs <= LATEST && -86400 < offset && offset < 86400 {
            Some(Moment { secs, offset })
        } else {
            None
        }
    }

    /// Seconds since 1970-01-01T00:00:00Z.
    pub fn timestamp(&self) -> (secs: i64)
        ensures
            secs == self@.utc,
            EARLIEST <= secs <= LATEST,
    {
        proof {
            use_type_invariant(self);
        }
        self.secs
    }

    /// Seconds that local time runs ahead of UTC.
    pub fn offset(&self) -> (offset: i32)
        ensures
            offset == self@.east,
            -86400 < offset < 86400,
    {
        proof {
            use_type_invariant(self);
        }
        self.offset
    }

    /// The local hour of the day.
    pub fn hour(&self) -> (hour: u8)
        ensures
            hour == self@.hour(),
            hour < 24,
    {
        proof {
            use_type_invariant(self);
        }
        let since: i64 = self.secs + (self.offset as i64) + BEFORE_EPOCH;
        ((since % 86400) / 3600) as u8
    }

    /// The local day of the week.
    pub fn weekday(&self) -> (day: DayOfWeek)
        ensures
            day == self@.weekday(),
    {
        proof {
            use_type_invariant(self);
        }
        let since: i64 = self.secs + (self.offset as i64) + BEFORE_EPOCH;
        let days: i64 = since / 86400;
        // The count of days starts on a Friday.
        let position: i64 = (days + 4) % 7;
        assert(position == weekday_of(self.secs as int, self.offset as int)) by {
            let local = self.secs + self.offset;
            assert(since == local + 719529 * 86400);
            assert(days == local / 86400 + 719529) by {
                vstd::arithmetic::div_mod::lemma_fundamental_div_mod(local, 86400);
                vstd::arithmetic::div_mod::lemma_fundamental_div_mod_converse(
                    since as int,
                    86400,
                    local / 86400 + 719529,
                    local % 86400,
                );
            }
        }
        DayOfWeek::from_position(position as u8)
    }

    /// Renders the moment in its local time, as in `2026-10-23T08:00:00+02:00`.
    pub fn to_rfc3339(&self) -> (text: String)
        ensures
            text@ == self@.text(),
    {
        proof {
            use_type_invariant(self);
        }
        write_rfc3339(self.secs, self.offset)
    }
}

} // verus!
