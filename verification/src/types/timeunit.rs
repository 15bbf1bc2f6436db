use std::cmp::Ordering;
use vstd::prelude::*;
use vstd::std_specs::cmp::PartialOrdSpecImpl;
use vstd::string::StringExecFns;

verus! {

/// Models the unit of time.
///
/// The declared order corresponds to duration magnitude:
/// `Second < Minute < Hour < Day < Month < Year`.
#[derive(Debug, PartialEq, Eq, Ord, Clone, Copy, Structural)]
pub enum TimeUnit {
    /// Represents a 1 second duration.
    Second,
    /// Represents a 60 second duration.
    Minute,
    /// Represents a 60 minute duration.
    Hour,
    /// Represents a 24 hour duration.
    Day,
    /// Represents a 30 day duration.
    Month,
    /// Represents a 365 day duration.
    Year,
}

impl TimeUnit {
    /// The suffix that stands for the unit in rendered text.
    pub open spec fn suffix(self) -> Seq<char> {
        match self {
            TimeUnit::Second => "s"@,
            TimeUnit::Minute => "min"@,
            TimeUnit::Hour => "h"@,
            TimeUnit::Day => "d"@,
            TimeUnit::Month => "mo"@,
            TimeUnit::Year => "y"@,
        }
    }

    /// The fixed number of seconds that one unit spans.
    pub open spec fn span(self) -> int {
        match self {
            TimeUnit::Second => 1,
            TimeUnit::Minute => 60,
            TimeUnit::Hour => 3600,
            TimeUnit::Day => 86400,
            TimeUnit::Month => 2592000,
            TimeUnit::Year => 31536000,
        }
    }

    pub fn as_str(&self) -> (s: &'static str)
        ensures
            s@ == self.suffix(),
    {
        match self {
            TimeUnit::Second => "s",
            TimeUnit::Minute => "min",
            TimeUnit::Hour => "h",
            TimeUnit::Day => "d",
            TimeUnit::Month => "mo",
            TimeUnit::Year => "y",
        }
    }

    /// Renders the unit as its suffix.
    pub fn to_string(&self) -> (s: String)
        ensures
            s@ == self.suffix(),
    {
        String::from_str(self.as_str())
    }

    pub fn seconds(&self) -> (n: i64)
        ensures
            n == self.span(),
    {
        match self {
            TimeUnit::Second => 1,
            TimeUnit::Minute => 60,
            TimeUnit::Hour => 3600,
            TimeUnit::Day => 86400,
            TimeUnit::Month => 2592000,
            TimeUnit::Year => 31536000,
        }
    }
}

impl PartialOrd for TimeUnit {
    fn partial_cmp(&self, other: &Self) -> (r: Option<Ordering>) {
        let a: i64 = self.seconds();
        let b: i64 = other.seconds();
        if a < b {
            Some(Ordering::Less)
        } else if a == b {
            Some(Ordering::Equal)
        } else {
            Some(Ordering::Greater)
        }
    }
}

impl PartialOrdSpecImpl for TimeUnit {
    open spec fn obeys_partial_cmp_spec() -> bool {
        true
    }

    /// Units are ordered by the time they span.
    open spec fn partial_cmp_spec(&self, other: &Self) -> Option<Ordering> {
        if self.span() < other.span() {
            Some(Ordering::Less)
        } else if self.span() == other.span() {
            Some(Ordering::Equal)
        } else {
            Some(Ordering::Greater)
        }
    }
}

} // verus!
