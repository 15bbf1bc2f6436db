use vstd::prelude::*;
use vstd::string::StringExecFns;

use crate::types::Duration;
use crate::types::Priority;
use crate::types::Recurrence;
use crate::types::Slot;

verus! {

/// A template for creating recurring tasks or events.
///
/// Blueprints define the core properties of a recurring item:
/// - How long it takes (`estimated_duration`)
/// - When it's preferred to be scheduled (`preferred_slot`)
/// - How often it repeats (`recurrence`)
/// - Its urgency level (`priority`)
#[derive(Debug, PartialEq, Eq, Clone)]
pub struct Blueprint {
    id: String,
    description: String,
    estimated_duration: Duration,
    priority: Priority,
    recurrence: Recurrence,
    preferred_slot: Slot,
}

/// What a [`Blueprint`] holds, with its texts as sequences of characters.
pub struct BlueprintView {
    pub id: Seq<char>,
    pub description: Seq<char>,
    pub estimated_duration: Duration,
    pub priority: Priority,
    pub recurrence: Recurrence,
    pub preferred_slot: Slot,
}

impl BlueprintView {
    /// The rendered line: id, priority, recurrence, duration and slot,
    /// separated by single spaces.
    pub open spec fn text(self) -> Seq<char> {
        self.id + " "@ + self.priority.label() + " "@ + self.recurrence.text() + " "@
            + self.estimated_duration.text() + " "@ + self.preferred_slot.text()
    }
}

impl View for Blueprint {
    type V = BlueprintView;

    closed spec fn view(&self) -> BlueprintView {
        BlueprintView {
            id: self.id@,
            description: self.description@,
            estimated_duration: self.estimated_duration,
            priority: self.priority,
            recurrence: self.recurrence,
            preferred_slot: self.preferred_slot,
        }
    }
}

impl Blueprint {
    pub fn new(
        id: &str,
        description: &str,
        estimated_duration: Duration,
        priority: Priority,
        recurrence: Recurrence,
        preferred_slot: Slot,
    ) -> (blueprint: Self)
        ensures
            blueprint@ == (BlueprintView {
                id: id@,
                description: description@,
                estimated_duration,
                priority,
                recurrence,
                preferred_slot,
            }),
    {
        Self {
            id: String::from_str(id),
            description: String::from_str(description),
            estimated_duration,
            priority,
            recurrence,
            preferred_slot,
        }
    }

    pub fn id(&self) -> (id: &str)
        ensures
            id@ == self@.id,
    {
        self.id.as_str()
    }

    pub fn description(&self) -> (description: &str)
        ensures
            description@ == self@.description,
    {
        self.description.as_str()
    }

    pub fn estimated_duration(&self) -> (duration: Duration)
        ensures
            duration == self@.estimated_duration,
    {
        self.estimated_duration
    }

    pub fn priority(&self) -> (priority: Priority)
        ensures
            priority == self@.priority,
    {
        self.priority
    }

    pub fn recurrence(&self) -> (recurrence: Recurrence)
        ensures
            recurrence == self@.recurrence,
    {
        self.recurrence
    }

    pub fn preferred_slot(&self) -> (slot: Slot)
        ensures
            slot == self@.preferred_slot,
    {
        self.preferred_slot
    }

    /// Renders the blueprint as one line, as in `1 CRIT ^3mo 1h Mon-Fri`.
    pub fn to_string(&self) -> (s: String)
        ensures
            s@ == self@.text(),
    {
        let mut out = String::from_str(self.id());
        out.append(" ");
        out.append(self.priority.as_str());
        out.append(" ");
        let recurrence = self.recurrence.to_string();
        out.append(recurrence.as_str());
        out.append(" ");
        let duration = self.estimated_duration.to_string();
        out.append(duration.as_str());
        out.append(" ");
        let slot = self.preferred_slot.to_string();
        out.append(slot.as_str());
        out
    }
}

} // verus!
