use vstd::prelude::*;
use vstd::string::StringExecFns;

use crate::types::days::DayOfWeek;

verus! {

/// Represents a specific day or a range of days in a week.
#[derive(Debug, PartialEq, Eq, Clone, Copy, Structural)]
pub enum WeekSlot {
    /// A specific day of the week.
    Fixed { day: DayOfWeek },
    /// An inclusive range of days; with `from` after `to` it wraps across
    /// the end of the week.
    Range { from: DayOfWeek, to: DayOfWeek },
}

impl WeekSlot {
    /// Whether `day` falls within the slot. A range whose first day lies
    /// after its last covers the days from the first to Sunday and from
    /// Monday to the last.
    pub open spec fn contains(self, day: DayOfWeek) -> bool {
        match self {
            WeekSlot::Fixed { day: d } => d == day,
            WeekSlot::Range { from, to } => if from.rank() <= to.rank() {
                from.rank() <= day.rank() <= to.rank()
            } else {
                day.rank() >= from.rank() || day.rank() <= to.rank()
            },
        }
    }

    /// The rendered form: `Day` or `Day-Day`.
    pub open spec fn text(self) -> Seq<char> {
        match self {
            WeekSlot::Fixed { day } => day.label(),
            WeekSlot::Range { from, to } => from.label() + "-"@ + to.label(),
        }
    }

    /// Returns a range that covers all working days.
    pub fn workdays() -> (slot: Self)
        ensures
            slot == (WeekSlot::Range { from: DayOfWeek::Mon, to: DayOfWeek::Fri }),
    {
        Self::Range { from: DayOfWeek::Mon, to: DayOfWeek::Fri }
    }

    /// Returns a range that covers the weekend.
    pub fn weekend() -> (slot: Self)
        ensures
            slot == (WeekSlot::Range { from: DayOfWeek::Sat, to: DayOfWeek::Sun }),
    {
        Self::Range { from: DayOfWeek::Sat, to: DayOfWeek::Sun }
    }

    /// Returns a range that spans a full week.
    pub fn full() -> (slot: Self)
        ensures
            slot == (WeekSlot::Range { from: DayOfWeek::Mon, to: DayOfWeek::Sun }),
    {
        Self::Range { from: DayOfWeek::Mon, to: DayOfWeek::Sun }
    }

    /// Returns true if the given day falls within this slot.
    pub fn matches(&self, day: DayOfWeek) -> (hit: bool)
        ensures
            hit == self.contains(day),
    {
        let at: u8 = day.ordinal();
        match self {
            WeekSlot::Fixed { day: d } => d.ordinal() == at,
            WeekSlot::Range { from, to } => {
                let first: u8 = from.ordinal();
                let last: u8 = to.ordinal();
                if first <= last {
                    first <= at && at <= last
                } else {
                    at >= first || at <= last
                }
            },
        }
    }

    /// Renders the slot, as in `Mon-Fri`.
    pub fn to_string(&self) -> (s: String)
        ensures
            s@ == self.text(),
    {
        match self {
            WeekSlot::Fixed { day } => day.to_string(),
            WeekSlot::Range { from, to } => {
                let mut out = from.to_string();
                out.append("-");
                out.append(to.as_str());
                out
            },
        }
    }
}

/// A wrapping day range covers the days from its first day up to Sunday and
/// from Monday up to its last day, and no others; a range that starts and
/// ends on one day covers that day alone.
pub proof fn lemma_day_range_wraps(from: DayOfWeek, to: DayOfWeek, day: DayOfWeek)
    ensures
        from.rank() > to.rank() ==> ((WeekSlot::Range { from, to }).contains(day) <==> (
        from.rank() <= day.rank() <= 6 || 0 <= day.rank() <= to.rank())),
        from == to ==> ((WeekSlot::Range { from, to }).contains(day) <==> day == from),
{
}

} // verus!
