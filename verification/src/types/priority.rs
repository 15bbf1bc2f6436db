use std::cmp::Ordering;
use vstd::prelude::*;
use vstd::std_specs::cmp::PartialOrdSpecImpl;
use vstd::string::StringExecFns;

verus! {

/// Urgency of a blueprint, from least to most urgent:
/// `Idle < Norm < High < Crit`.
#[derive(Debug, PartialEq, Eq, Ord, Clone, Copy, Structural)]
pub enum Priority {
    Idle,
    Norm,
    High,
    Crit,
}

impl Priority {
    /// Position in the order of urgency, starting at zero for `Idle`.
    pub open spec fn rank(self) -> int {
        match self {
            Priority::Idle => 0,
            Priority::Norm => 1,
            Priority::High => 2,
            Priority::Crit => 3,
        }
    }

    /// The upper-case tag that stands for the priority in rendered text.
    pub open spec fn label(self) -> Seq<char> {
        match self {
            Priority::Idle => "IDLE"@,
            Priority::Norm => "NORM"@,
            Priority::High => "HIGH"@,
            Priority::Crit => "CRIT"@,
        }
    }

    pub fn as_str(&self) -> (s: &'static str)
        ensures
            s@ == self.label(),
    {
        match self {
            Priority::Idle => "IDLE",
            Priority::Norm => "NORM",
            Priority::High => "HIGH",
            Priority::Crit => "CRIT",
        }
    }

    /// Renders the priority as its tag.
    pub fn to_string(&self) -> (s: String)
        ensures
            s@ == self.label(),
    {
        String::from_str(self.as_str())
    }

    fn level(&self) -> (n: u8)
        ensures
            n == self.rank(),
    {
        match self {
            Priority::Idle => 0,
            Priority::Norm => 1,
            Priority::High => 2,
            Priority::Crit => 3,
        }
    }
}

impl PartialOrd for Priority {
    fn partial_cmp(&self, other: &Self) -> (r: Option<Ordering>) {
        let a: u8 = self.level();
        let b: u8 = other.level();
        if a < b {
            Some(Ordering::Less)
        } else if a == b {
            Some(Ordering::Equal)
        } else {
            Some(Ordering::Greater)
        }
    }
}

impl PartialOrdSpecImpl for Priority {
    open spec fn obeys_partial_cmp_spec() -> bool {
        true
    }

    open spec fn partial_cmp_spec(&self, other: &Self) -> Option<Ordering> {
        if self.rank() < other.rank() {
            Some(Ordering::Less)
        } else if self.rank() == other.rank() {
            Some(Ordering::Equal)
        } else {
            Some(Ordering::Greater)
        }
    }
}

} // verus!
