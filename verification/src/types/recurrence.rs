use vstd::prelude::*;
use vstd::string::StringExecFns;

use crate::types::text::decimal;
use crate::types::text::push_decimal;
use crate::types::Duration;

verus! {

/// Recurrence of an event.
#[derive(Debug, PartialEq, Eq, Clone, Copy, Structural)]
pub enum Recurrence {
    /// Occurs exactly once, does not repeat.
    Once,
    /// Repeats a fixed number of times at regular intervals.
    ///
    /// The event occurs `count` times, with each occurrence spaced
    /// by `spacing`. Stops automatically after the final occurrence.
    Times { count: usize, spacing: Duration },
    /// Repeats indefinitely at regular intervals.
    ///
    /// The event repeats forever, with each occurrence spaced by
    /// `spacing`. Only the planning window ends it.
    Period { spacing: Duration },
}

impl Recurrence {
    /// The rendered form: `^1`, `^{count,spacing}` or `^spacing`.
    pub open spec fn text(self) -> Seq<char> {
        match self {
            Recurrence::Once => "^1"@,
            Recurrence::Times { count, spacing } => "^{"@ + decimal(count as nat) + ","@
                + spacing.text() + "}"@,
            Recurrence::Period { spacing } => "^"@ + spacing.text(),
        }
    }

    /// Seconds between one occurrence and the cursor for the next; zero for `Once`.
    pub open spec fn step(self) -> nat {
        match self {
            Recurrence::Once => 0,
            Recurrence::Times { spacing, .. } => spacing.span(),
            Recurrence::Period { spacing } => spacing.span(),
        }
    }

    /// The number of occurrences that the recurrence allows by itself, where
    /// it sets one: one for `Once`, `count` for `Times`, none for `Period`.
    pub open spec fn limit(self) -> Option<nat> {
        match self {
            Recurrence::Once => Some(1nat),
            Recurrence::Times { count, .. } => Some(count as nat),
            Recurrence::Period { .. } => None,
        }
    }

    /// Renders the recurrence, as in `^{3,2d}`.
    pub fn to_string(&self) -> (s: String)
        ensures
            s@ == self.text(),
    {
        match self {
            Recurrence::Once => String::from_str("^1"),
            Recurrence::Times { count, spacing } => {
                let mut out = String::from_str("^{");
                push_decimal(&mut out, *count as u64);
                out.append(",");
                let spaced = spacing.to_string();
                out.append(spaced.as_str());
                out.append("}");
                out
            },
            Recurrence::Period { spacing } => {
                let mut out = String::from_str("^");
                let spaced = spacing.to_string();
                out.append(spaced.as_str());
                out
            },
        }
    }
}

} // verus!
