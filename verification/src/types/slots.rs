mod week_slots;

pub use week_slots::lemma_day_range_wraps;
pub use week_slots::WeekSlot;

use vstd::prelude::*;
use vstd::string::StringExecFns;

use crate::types::moment::Moment;
use crate::types::moment::MomentView;
use crate::types::text::padded;
use crate::types::text::push_padded;

verus! {

/// Represents a specific hour or hour range in a day (0-23).
///
/// Used to specify when a [`Blueprint`](crate::types::Blueprint) has
/// affinity and should be materialized on particular hours of the day.
#[derive(Debug, PartialEq, Eq, Clone, Copy, Structural)]
pub enum HourSlot {
    /// A specific hour of the day.
    Fixed { hour: u8 },
    /// An inclusive range of hours `[start, end]`; with `start > end` it
    /// wraps across midnight.
    Range { start: u8, end: u8 },
}

impl HourSlot {
    /// Whether `hour` falls within the slot. A range whose start lies after
    /// its end covers the hours from the start to midnight and from midnight
    /// to the end.
    pub open spec fn contains(self, hour: int) -> bool {
        match self {
            HourSlot::Fixed { hour: h } => h == hour,
            HourSlot::Range { start, end } => if start <= end {
                start <= hour <= end
            } else {
                hour >= start || hour <= end
            },
        }
    }

    /// Whether all hours of the slot are within 0-23.
    pub open spec fn valid(self) -> bool {
        match self {
            HourSlot::Fixed { hour } => hour < 24,
            HourSlot::Range { start, end } => start < 24 && end < 24,
        }
    }

    /// The hour at which occurrences are placed: the fixed hour, or the
    /// first hour of a range.
    pub open spec fn anchor(self) -> int {
        match self {
            HourSlot::Fixed { hour } => hour as int,
            HourSlot::Range { start, .. } => start as int,
        }
    }

    /// The rendered form: `HH:00` or `HH:00-HH:00`.
    pub open spec fn text(self) -> Seq<char> {
        match self {
            HourSlot::Fixed { hour } => padded(hour as nat) + ":00"@,
            HourSlot::Range { start, end } => padded(start as nat) + ":00-"@ + padded(end as nat)
                + ":00"@,
        }
    }

    /// Returns true if the given hour (0-23) falls within this slot.
    pub fn matches(&self, hour: u8) -> (hit: bool)
        ensures
            hit == self.contains(hour as int),
    {
        match self {
            HourSlot::Fixed { hour: h } => *h == hour,
            HourSlot::Range { start, end } => {
                if *start <= *end {
                    *start <= hour && hour <= *end
                } else {
                    hour >= *start || hour <= *end
                }
            },
        }
    }

    /// Validates that all hours are within 0-23.
    pub fn is_valid(&self) -> (ok: bool)
        ensures
            ok == self.valid(),
    {
        match self {
            HourSlot::Fixed { hour } => *hour < 24,
            HourSlot::Range { start, end } => *start < 24 && *end < 24,
        }
    }

    /// The hour at which occurrences are placed.
    pub fn anchor_hour(&self) -> (hour: u8)
        ensures
            hour == self.anchor(),
    {
        match self {
            HourSlot::Fixed { hour } => *hour,
            HourSlot::Range { start, .. } => *start,
        }
    }

    /// Renders the slot, as in `08:00-12:00`.
    pub fn to_string(&self) -> (s: String)
        ensures
            s@ == self.text(),
    {
        let mut out = String::new();
        match self {
            HourSlot::Fixed { hour } => {
                push_padded(&mut out, *hour as u64);
                out.append(":00");
            },
            HourSlot::Range { start, end } => {
                push_padded(&mut out, *start as u64);
                out.append(":00-");
                push_padded(&mut out, *end as u64);
                out.append(":00");
            },
        }
        out
    }
}

/// The time affinity of a blueprint: an hour of the day or a day of the week.
#[derive(Debug, PartialEq, Eq, Clone, Copy, Structural)]
pub enum Slot {
    Hour(HourSlot),
    Week(WeekSlot),
}

impl Slot {
    /// The rendered form of the slot that it wraps.
    pub open spec fn text(self) -> Seq<char> {
        match self {
            Slot::Hour(slot) => slot.text(),
            Slot::Week(slot) => slot.text(),
        }
    }

    /// Whether a moment falls within the slot: by its local hour for an hour
    /// slot, by its local day of the week for a week slot.
    pub open spec fn contains(self, moment: MomentView) -> bool {
        match self {
            Slot::Hour(slot) => slot.contains(moment.hour()),
            Slot::Week(slot) => slot.contains(moment.weekday()),
        }
    }

    /// Whether the slot names only hours and days that exist.
    pub open spec fn valid(self) -> bool {
        match self {
            Slot::Hour(slot) => slot.valid(),
            Slot::Week(_) => true,
        }
    }

    /// Returns true if the given moment falls within this slot.
    pub fn matches(&self, moment: &Moment) -> (hit: bool)
        ensures
            hit == self.contains(moment@),
    {
        match self {
            Slot::Hour(slot) => slot.matches(moment.hour()),
            Slot::Week(slot) => slot.matches(moment.weekday()),
        }
    }

    /// Validates the slot: hours must be within 0-23; every day is valid.
    pub fn is_valid(&self) -> (ok: bool)
        ensures
            ok == self.valid(),
    {
        match self {
            Slot::Hour(slot) => slot.is_valid(),
            Slot::Week(_) => true,
        }
    }

    /// Renders the slot, as in `08:00` or `Mon-Fri`.
    pub fn to_string(&self) -> (s: String)
        ensures
            s@ == self.text(),
    {
        match self {
            Slot::Hour(slot) => slot.to_string(),
            Slot::Week(slot) => slot.to_string(),
        }
    }
}

/// A wrapping hour range covers the hours from its start up to midnight and
/// from midnight up to its end, and no others; a range that starts and ends
/// on one hour covers that hour alone.
pub proof fn lemma_hour_range_wraps(start: u8, end: u8, hour: int)
    requires
        0 <= hour < 24,
        start < 24,
        end < 24,
    ensures
        start > end ==> ((HourSlot::Range { start, end }).contains(hour) <==> (start <= hour < 24
            || 0 <= hour <= end)),
        start == end ==> ((HourSlot::Range { start, end }).contains(hour) <==> hour == start),
{
}

} // verus!
