//! The values that the planner works on: blueprints and what they are made
//! of, the book and the journal that go into a run, the clock that starts
//! it, and the plan that comes out.

mod blueprint;
mod days;
mod duration;
mod moment;
mod priority;
mod recurrence;
mod slots;
mod text;
mod timeunit;
mod zone;

pub use blueprint::Blueprint;
pub use blueprint::BlueprintView;
pub use days::DayOfWeek;
pub use duration::lemma_add_spans;
pub use duration::LONGEST_TIMEDELTA;
pub use duration::timedelta_of;
pub use duration::Duration;
pub use moment::hour_of;
pub use moment::representable;
pub use moment::rfc3339_text;
pub use moment::weekday_of;
pub use moment::Moment;
pub use moment::MomentView;
pub use moment::EARLIEST;
pub use moment::LATEST;
pub use priority::Priority;
pub use recurrence::Recurrence;
pub use slots::lemma_day_range_wraps;
pub use slots::lemma_hour_range_wraps;
pub use slots::HourSlot;
pub use slots::Slot;
pub use slots::WeekSlot;
pub use text::decimal;
pub use text::digit;
pub use text::padded;
pub use timeunit::TimeUnit;
pub use zone::lemma_offset_bounded;
pub use zone::lemma_offset_in_force;
pub use zone::lemma_window_ends_on_same_reading;
pub use zone::lemma_window_length;
pub use zone::lemma_window_without_shift;
pub use zone::offset_in;
pub use zone::rules_valid;
pub use zone::Clock;
pub use zone::Shift;
pub use zone::Zone;
pub use zone::DAY;
pub use zone::LAST_START;
pub use zone::WEEK;

use vstd::prelude::*;
use vstd::string::StringExecFns;

verus! {

/// Models a collection of blueprints. The order of the entries is kept: where
/// two occurrences fall on one instant, the blueprint that stands first here
/// is planned first.
#[derive(Debug, PartialEq, Eq, Clone)]
pub struct BlueprintBook {
    entries: Vec<Blueprint>,
}

/// The rendered lines of a sequence of blueprints, each ended by a line feed.
pub open spec fn blueprint_lines(blueprints: Seq<BlueprintView>) -> Seq<char>
    decreases blueprints.len(),
{
    if blueprints.len() == 0 {
        Seq::empty()
    } else {
        blueprint_lines(blueprints.drop_last()) + blueprints.last().text() + "\n"@
    }
}

impl View for BlueprintBook {
    type V = Seq<BlueprintView>;

    closed spec fn view(&self) -> Seq<BlueprintView> {
        self.entries@.map_values(|blueprint: Blueprint| blueprint@)
    }
}

impl BlueprintBook {
    /// The blueprints of the book, in their order.
    pub closed spec fn blueprints(&self) -> Seq<Blueprint> {
        self.entries@
    }

    pub fn from(entries: Vec<Blueprint>) -> (book: Self)
        ensures
            book.blueprints() == entries@,
            book@ == entries@.map_values(|blueprint: Blueprint| blueprint@),
    {
        Self { entries }
    }

    pub fn entries(&self) -> (entries: &[Blueprint])
        ensures
            entries@ == self.blueprints(),
            entries@.map_values(|blueprint: Blueprint| blueprint@) == self@,
    {
        self.entries.as_slice()
    }

    /// Renders the book: one line for each blueprint, in order.
    pub fn to_string(&self) -> (s: String)
        ensures
            s@ == blueprint_lines(self@),
    {
        let mut out = String::new();
        let mut i: usize = 0;
        while i < self.entries.len()
            invariant
                i <= self.entries.len(),
                out@ == blueprint_lines(self@.take(i as int)),
            decreases self.entries.len() - i,
        {
            let line = self.entries[i].to_string();
            out.append(line.as_str());
            out.append("\n");
            proof {
                let done = self@.take(i as int + 1);
                assert(done.drop_last() == self@.take(i as int));
                assert(done.last() == self.entries@[i as int]@);
            }
            i += 1;
        }
        assert(self@.take(i as int) == self@);
        out
    }
}

/// Models an instance of a blueprint: one occurrence, planned for a moment.
#[derive(Debug, PartialEq, Eq, Clone)]
pub struct PlanEntry {
    blueprint_id: String,
    planned_for: Moment,
}

/// What a [`PlanEntry`] holds, with its id as a sequence of characters.
pub struct PlanEntryView {
    pub blueprint_id: Seq<char>,
    pub planned_for: MomentView,
}

impl PlanEntryView {
    /// The rendered line, without its line feed: the id, a space, and the
    /// moment in RFC 3339.
    pub open spec fn text(self) -> Seq<char> {
        self.blueprint_id + " "@ + self.planned_for.text()
    }
}

impl View for PlanEntry {
    type V = PlanEntryView;

    closed spec fn view(&self) -> PlanEntryView {
        PlanEntryView { blueprint_id: self.blueprint_id@, planned_for: self.planned_for@ }
    }
}

impl PlanEntry {
    /// The line of a plan for an entry of `blueprint_id` whose moment is
    /// written as `stamp`: the id, a space, the stamp, and a line feed.
    pub fn line(blueprint_id: &str, stamp: &str) -> (line: String)
        ensures
            line@ == blueprint_id@ + " "@ + stamp@ + "\n"@,
    {
        let mut out = String::from_str(blueprint_id);
        out.append(" ");
        out.append(stamp);
        out.append("\n");
        out
    }

    pub fn new(blueprint_id: &str, planned_for: Moment) -> (entry: Self)
        ensures
            entry@ == (PlanEntryView { blueprint_id: blueprint_id@, planned_for: planned_for@ }),
    {
        Self { blueprint_id: String::from_str(blueprint_id), planned_for }
    }

    pub fn blueprint_id(&self) -> (id: &str)
        ensures
            id@ == self@.blueprint_id,
    {
        self.blueprint_id.as_str()
    }

    pub fn planned_for(&self) -> (moment: Moment)
        ensures
            moment@ == self@.planned_for,
    {
        self.planned_for
    }
}

/// The outcome of a planning run: occurrences in the order of their moments.
#[derive(Debug, PartialEq, Eq)]
pub struct Plan {
    entries: Vec<PlanEntry>,
}

/// The rendered lines of a sequence of plan entries, each ended by a line
/// feed.
pub open spec fn plan_lines(entries: Seq<PlanEntryView>) -> Seq<char>
    decreases entries.len(),
{
    if entries.len() == 0 {
        Seq::empty()
    } else {
        plan_lines(entries.drop_last()) + entries.last().text() + "\n"@
    }
}

impl View for Plan {
    type V = Seq<PlanEntryView>;

    closed spec fn view(&self) -> Seq<PlanEntryView> {
        self.entries@.map_values(|entry: PlanEntry| entry@)
    }
}

impl Plan {
    /// The entries of the plan, in their order.
    pub closed spec fn planned(&self) -> Seq<PlanEntry> {
        self.entries@
    }

    pub fn from(entries: Vec<PlanEntry>) -> (plan: Self)
        ensures
            plan.planned() == entries@,
            plan@ == entries@.map_values(|entry: PlanEntry| entry@),
    {
        Self { entries }
    }

    /// The entries of the plan, in their order.
    pub fn entries(&self) -> (entries: &[PlanEntry])
        ensures
            entries@ == self.planned(),
            entries@.map_values(|entry: PlanEntry| entry@) == self@,
    {
        self.entries.as_slice()
    }

    /// Renders the plan: one line for each entry, in order.
    pub fn as_str(&self) -> (s: String)
        ensures
            s@ == plan_lines(self@),
    {
        let mut out = String::new();
        let mut i: usize = 0;
        while i < self.entries.len()
            invariant
                i <= self.entries.len(),
                out@ == plan_lines(self@.take(i as int)),
            decreases self.entries.len() - i,
        {
            let entry = &self.entries[i];
            let stamp = entry.planned_for.to_rfc3339();
            let line = PlanEntry::line(entry.blueprint_id(), stamp.as_str());
            out.append(line.as_str());
            proof {
                let done = self@.take(i as int + 1);
                assert(done.drop_last() == self@.take(i as int));
                assert(done.last() == self.entries@[i as int]@);
            }
            i += 1;
        }
        assert(self@.take(i as int) == self@);
        out
    }
}

/// A plan holds the views of its entries, one for one and in order.
pub proof fn lemma_plan_view(plan: Plan)
    ensures
        plan@.len() == plan.planned().len(),
        forall|i: int| 0 <= i < plan@.len() ==> plan@[i] == #[trigger] plan.planned()[i]@,
{
}

/// Models a journal entry for a task that has been completed.
#[derive(Debug, PartialEq, Eq, Clone)]
pub struct CompletedEntry {
    blueprint_id: String,
    journaled_at: Moment,
}

/// Models a journal entry for a task that has been postponed.
#[derive(Debug, PartialEq, Eq, Clone)]
pub struct PostponedEntry {
    blueprint_id: String,
    journaled_at: Moment,
}

/// What a journal entry records: the blueprint, and when it was journaled.
pub struct JournalRecord {
    pub blueprint_id: Seq<char>,
    pub journaled_at: MomentView,
}

impl View for CompletedEntry {
    type V = JournalRecord;

    closed spec fn view(&self) -> JournalRecord {
        JournalRecord { blueprint_id: self.blueprint_id@, journaled_at: self.journaled_at@ }
    }
}

impl View for PostponedEntry {
    type V = JournalRecord;

    closed spec fn view(&self) -> JournalRecord {
        JournalRecord { blueprint_id: self.blueprint_id@, journaled_at: self.journaled_at@ }
    }
}

impl CompletedEntry {
    pub fn new(blueprint_id: &str, journaled_at: Moment) -> (entry: Self)
        ensures
            entry@ == (JournalRecord { blueprint_id: blueprint_id@, journaled_at: journaled_at@ }),
    {
        Self { blueprint_id: String::from_str(blueprint_id), journaled_at }
    }

    pub fn blueprint_id(&self) -> (id: &str)
        ensures
            id@ == self@.blueprint_id,
    {
        self.blueprint_id.as_str()
    }

    pub fn journaled_at(&self) -> (moment: Moment)
        ensures
            moment@ == self@.journaled_at,
    {
        self.journaled_at
    }
}

impl PostponedEntry {
    pub fn new(blueprint_id: &str, journaled_at: Moment) -> (entry: Self)
        ensures
            entry@ == (JournalRecord { blueprint_id: blueprint_id@, journaled_at: journaled_at@ }),
    {
        Self { blueprint_id: String::from_str(blueprint_id), journaled_at }
    }

    pub fn blueprint_id(&self) -> (id: &str)
        ensures
            id@ == self@.blueprint_id,
    {
        self.blueprint_id.as_str()
    }

    pub fn journaled_at(&self) -> (moment: Moment)
        ensures
            moment@ == self@.journaled_at,
    {
        self.journaled_at
    }
}

/// Models an entry in the journal of entries.
#[allow(inconsistent_fields)]
#[derive(Debug, PartialEq, Eq, Clone)]
pub enum JournalEntry {
    Completed { entry: CompletedEntry },
    Postponed { entry: PostponedEntry },
}

/// A record of occurrences that were completed or postponed, in the order
/// in which they were journaled.
#[derive(Debug, PartialEq, Eq, Clone)]
pub struct Journal {
    entries: Vec<JournalEntry>,
}

impl Journal {
    /// The entries of the journal, in their order.
    pub closed spec fn journaled(&self) -> Seq<JournalEntry> {
        self.entries@
    }

    pub fn from(entries: Vec<JournalEntry>) -> (journal: Self)
        ensures
            journal.journaled() == entries@,
    {
        Self { entries }
    }

    pub fn entries(&self) -> (entries: &[JournalEntry])
        ensures
            entries@ == self.journaled(),
    {
        self.entries.as_slice()
    }
}

/// A book holds the views of its blueprints, one for one and in order.
pub proof fn lemma_book_view(book: BlueprintBook)
    ensures
        book@.len() == book.blueprints().len(),
        forall|i: int| 0 <= i < book@.len() ==> book@[i] == #[trigger] book.blueprints()[i]@,
{
}

} // verus!
