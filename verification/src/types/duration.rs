use chrono::TimeDelta;
use std::ops::Add;
use vstd::prelude::*;
use vstd::std_specs::ops::AddSpec;
use vstd::std_specs::ops::AddSpecImpl;
use vstd::string::StringExecFns;

use crate::types::text::decimal;
use crate::types::text::push_decimal;
use crate::types::TimeUnit;

verus! {

/// `chrono::TimeDelta`, carried through as it is: contracts see nothing
/// inside it.
#[verifier::external_type_specification]
#[verifier::external_body]
pub struct ExTimeDelta(TimeDelta);

/// Represents a fixed amount of time in a given unit (e.g. hours, minutes).
#[derive(Debug, PartialEq, Eq, Clone, Copy, Structural)]
pub struct Duration {
    pub amount: u64,
    pub unit: TimeUnit,
}

/// The `TimeDelta` that `chrono` makes of a number of seconds.
pub uninterp spec fn timedelta_of(seconds: int) -> TimeDelta;

/// The longest span, in seconds, that a [`chrono::TimeDelta`] can hold:
/// `i64::MAX` milliseconds.
pub const LONGEST_TIMEDELTA: u64 = 9_223_372_036_854_775;

/// Calls `chrono::TimeDelta::seconds`, which panics where the seconds lie
/// more than `i64::MAX / 1000` from zero; the precondition leaves those
/// out. Of what comes back the contract says only that it is what `chrono`
/// makes of that number of seconds: the same number gives the same value.
#[verifier::external_body]
fn delta_of_seconds(seconds: i64) -> (delta: TimeDelta)
    requires
        -LONGEST_TIMEDELTA <= seconds <= LONGEST_TIMEDELTA,
    ensures
        delta == timedelta_of(seconds as int),
{
    TimeDelta::seconds(seconds)
}

impl Duration {
    /// The span of elapsed time in seconds: the amount times what one unit spans.
    pub open spec fn span(self) -> nat {
        (self.amount * self.unit.span()) as nat
    }

    /// The rendered form: the amount in decimal, then the unit's suffix.
    pub open spec fn text(self) -> Seq<char> {
        decimal(self.amount as nat) + self.unit.suffix()
    }

    /// Creates a new Duration with the given amount and unit.
    pub fn of(amount: u64, unit: TimeUnit) -> (d: Self)
        ensures
            d == (Duration { amount, unit }),
    {
        Self { amount, unit }
    }

    /// Creates a new Duration in days.
    pub fn days(amount: u64) -> (d: Self)
        ensures
            d == (Duration { amount, unit: TimeUnit::Day }),
    {
        Self::of(amount, TimeUnit::Day)
    }

    /// Creates a new Duration in hours.
    pub fn hours(amount: u64) -> (d: Self)
        ensures
            d == (Duration { amount, unit: TimeUnit::Hour }),
    {
        Self::of(amount, TimeUnit::Hour)
    }

    /// Creates a new Duration in minutes.
    pub fn minutes(amount: u64) -> (d: Self)
        ensures
            d == (Duration { amount, unit: TimeUnit::Minute }),
    {
        Self::of(amount, TimeUnit::Minute)
    }

    /// The span in seconds, where it fits in 64 bits.
    pub fn checked_seconds(&self) -> (n: Option<u64>)
        ensures
            n == if self.span() <= u64::MAX {
                Some(self.span() as u64)
            } else {
                None
            },
    {
        let per_unit: i64 = self.unit.seconds();
        self.amount.checked_mul(per_unit as u64)
    }

    /// The span in seconds.
    pub fn seconds(&self) -> (n: u64)
        requires
            self.span() <= u64::MAX,
        ensures
            n == self.span(),
    {
        let per_unit: i64 = self.unit.seconds();
        self.amount * (per_unit as u64)
    }

    /// Returns a [`chrono::TimeDelta`] reflecting the duration: what
    /// `chrono` makes of the span in seconds. It depends on the span alone,
    /// not on the unit.
    pub fn timedelta(&self) -> (delta: TimeDelta)
        requires
            self.span() <= LONGEST_TIMEDELTA,
        ensures
            delta == timedelta_of(self.span() as int),
    {
        let seconds: u64 = self.seconds();
        delta_of_seconds(seconds as i64)
    }

    /// Returns a [`chrono::TimeDelta`] reflecting the duration, where one
    /// can hold a span of that length.
    pub fn checked_timedelta(&self) -> (delta: Option<TimeDelta>)
        ensures
            delta == if self.span() <= LONGEST_TIMEDELTA {
                Some(timedelta_of(self.span() as int))
            } else {
                None
            },
    {
        match self.checked_seconds() {
            Some(seconds) => {
                if seconds <= LONGEST_TIMEDELTA {
                    Some(delta_of_seconds(seconds as i64))
                } else {
                    None
                }
            },
            None => None,
        }
    }

    /// Renders the duration, as in `3mo`.
    pub fn to_string(&self) -> (s: String)
        ensures
            s@ == self.text(),
    {
        let mut out = String::new();
        push_decimal(&mut out, self.amount);
        out.append(self.unit.as_str());
        out
    }
}

impl Add for Duration {
    type Output = Duration;

    /// The sum of two durations, expressed in seconds.
    fn add(self, rhs: Self) -> (sum: Duration) {
        Duration::of(rhs.seconds() + self.seconds(), TimeUnit::Second)
    }
}

impl AddSpecImpl for Duration {
    open spec fn obeys_add_spec() -> bool {
        true
    }

    open spec fn add_req(self, rhs: Duration) -> bool {
        self.span() + rhs.span() <= u64::MAX
    }

    open spec fn add_spec(self, rhs: Duration) -> Duration {
        Duration { amount: (self.span() + rhs.span()) as u64, unit: TimeUnit::Second }
    }
}

/// Addition keeps the elapsed time: the sum spans as many seconds as both
/// operands together, whatever their units.
pub proof fn lemma_add_spans(a: Duration, b: Duration)
    requires
        a.span() + b.span() <= u64::MAX,
    ensures
        AddSpec::add_req(a, b),
        AddSpec::add_spec(a, b).span() == a.span() + b.span(),
        AddSpec::add_spec(a, b).unit == TimeUnit::Second,
{
    let sum = AddSpec::add_spec(a, b);
    assert(sum.amount == a.span() + b.span());
    assert(sum.unit.span() == 1);
    assert(sum.amount * 1 == sum.amount);
}

} // verus!
