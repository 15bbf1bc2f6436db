use chrono::Weekday;
use std::cmp::Ordering;
use vstd::prelude::*;
use vstd::std_specs::cmp::PartialOrdSpecImpl;
use vstd::std_specs::convert::FromSpecImpl;
use vstd::string::StringExecFns;

verus! {

/// `chrono::Weekday`, with its seven variants in view.
#[verifier::external_type_specification]
pub struct ExWeekday(Weekday);

/// Models the days of the week.
///
/// The declared order is `Mon < Tue < ... < Sun`. It does not wrap: ranges
/// that cross the end of the week are handled where they are matched.
#[derive(Debug, PartialEq, Eq, Ord, Clone, Copy, Structural)]
pub enum DayOfWeek {
    Mon,
    Tue,
    Wed,
    Thu,
    Fri,
    Sat,
    Sun,
}

impl DayOfWeek {
    /// Position in the week, starting at zero for Monday.
    pub open spec fn rank(self) -> int {
        match self {
            DayOfWeek::Mon => 0,
            DayOfWeek::Tue => 1,
            DayOfWeek::Wed => 2,
            DayOfWeek::Thu => 3,
            DayOfWeek::Fri => 4,
            DayOfWeek::Sat => 5,
            DayOfWeek::Sun => 6,
        }
    }

    /// The day at a position in the week; positions beyond six stand for
    /// Sunday.
    pub open spec fn of_rank(rank: int) -> DayOfWeek {
        if rank <= 0 {
            DayOfWeek::Mon
        } else if rank == 1 {
            DayOfWeek::Tue
        } else if rank == 2 {
            DayOfWeek::Wed
        } else if rank == 3 {
            DayOfWeek::Thu
        } else if rank == 4 {
            DayOfWeek::Fri
        } else if rank == 5 {
            DayOfWeek::Sat
        } else {
            DayOfWeek::Sun
        }
    }

    /// The three-letter name that stands for the day in rendered text.
    pub open spec fn label(self) -> Seq<char> {
        match self {
            DayOfWeek::Mon => "Mon"@,
            DayOfWeek::Tue => "Tue"@,
            DayOfWeek::Wed => "Wed"@,
            DayOfWeek::Thu => "Thu"@,
            DayOfWeek::Fri => "Fri"@,
            DayOfWeek::Sat => "Sat"@,
            DayOfWeek::Sun => "Sun"@,
        }
    }

    pub fn as_str(&self) -> (s: &'static str)
        ensures
            s@ == self.label(),
    {
        match self {
            DayOfWeek::Mon => "Mon",
            DayOfWeek::Tue => "Tue",
            DayOfWeek::Wed => "Wed",
            DayOfWeek::Thu => "Thu",
            DayOfWeek::Fri => "Fri",
            DayOfWeek::Sat => "Sat",
            DayOfWeek::Sun => "Sun",
        }
    }

    /// Renders the day as its name.
    pub fn to_string(&self) -> (s: String)
        ensures
            s@ == self.label(),
    {
        String::from_str(self.as_str())
    }

    /// The day at a position in the week, starting at zero for Monday;
    /// positions beyond six stand for Sunday.
    pub fn from_position(position: u8) -> (day: Self)
        ensures
            day == Self::of_rank(position as int),
            position < 7 ==> day.rank() == position,
    {
        match position {
            0 => DayOfWeek::Mon,
            1 => DayOfWeek::Tue,
            2 => DayOfWeek::Wed,
            3 => DayOfWeek::Thu,
            4 => DayOfWeek::Fri,
            5 => DayOfWeek::Sat,
            _ => DayOfWeek::Sun,
        }
    }

    /// Position in the week, starting at zero for Monday.
    pub fn ordinal(&self) -> (n: u8)
        ensures
            n == self.rank(),
    {
        match self {
            DayOfWeek::Mon => 0,
            DayOfWeek::Tue => 1,
            DayOfWeek::Wed => 2,
            DayOfWeek::Thu => 3,
            DayOfWeek::Fri => 4,
            DayOfWeek::Sat => 5,
            DayOfWeek::Sun => 6,
        }
    }
}

impl From<Weekday> for DayOfWeek {
    fn from(value: Weekday) -> (day: Self) {
        match value {
            Weekday::Mon => Self::Mon,
            Weekday::Tue => Self::Tue,
            Weekday::Wed => Self::Wed,
            Weekday::Thu => Self::Thu,
            Weekday::Fri => Self::Fri,
            Weekday::Sat => Self::Sat,
            Weekday::Sun => Self::Sun,
        }
    }
}

impl FromSpecImpl<Weekday> for DayOfWeek {
    open spec fn obeys_from_spec() -> bool {
        true
    }

    /// The day of the same name.
    open spec fn from_spec(value: Weekday) -> DayOfWeek {
        match value {
            Weekday::Mon => DayOfWeek::Mon,
            Weekday::Tue => DayOfWeek::Tue,
            Weekday::Wed => DayOfWeek::Wed,
            Weekday::Thu => DayOfWeek::Thu,
            Weekday::Fri => DayOfWeek::Fri,
            Weekday::Sat => DayOfWeek::Sat,
            Weekday::Sun => DayOfWeek::Sun,
        }
    }
}

impl PartialOrd for DayOfWeek {
    fn partial_cmp(&self, other: &Self) -> (r: Option<Ordering>) {
        let a: u8 = self.ordinal();
        let b: u8 = other.ordinal();
        if a < b {
            Some(Ordering::Less)
        } else if a == b {
            Some(Ordering::Equal)
        } else {
            Some(Ordering::Greater)
        }
    }
}

impl PartialOrdSpecImpl for DayOfWeek {
    open spec fn obeys_partial_cmp_spec() -> bool {
        true
    }

    open spec fn partial_cmp_spec(&self, other: &Self) -> Option<Ordering> {
        if self.rank() < other.rank() {
            Some(Ordering::Less)
        } else if self.rank() == other.rank() {
            Some(Ordering::Equal)
        } else {
            Some(Ordering::Greater)
        }
    }
}

} // verus!
