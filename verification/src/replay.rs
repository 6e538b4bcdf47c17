//! The bookkeeping of a replay run: what to do with each capture entry, what a
//! finished decoding means for the run, and which template each observed object has.

use crate::classifier::category_of;
use crate::classifier::MessageCategory;
use crate::classifier::RuleTable;
use crate::text::decimal;
use crate::text::push_decimal;
use crate::wire::DecodeError;
use std::collections::HashMap;
use vstd::prelude::*;
use vstd::string::StringExecFns;

verus! {

broadcast use vstd::std_specs::hash::group_hash_axioms;

/// One recorded message of an archive: its tag, its bytes, and the size that the
/// archive records for it.
#[derive(Clone, Debug, PartialEq, Eq)]
pub struct CaptureEntry {
    pub tag: String,
    pub payload: Vec<u8>,
    pub size: u64,
}

impl CaptureEntry {
    /// Where this entry is found: in the archive `archive`, under its tag, with its size.
    pub fn context(&self, archive: &str) -> (context: EntryContext)
        ensures
            context.archive@ == archive@,
            context.tag@ == self.tag@,
            context.size == self.size,
    {
        EntryContext { archive: archive.to_owned(), tag: self.tag.clone(), size: self.size }
    }
}

/// What a run does with an entry.
#[derive(Clone, Copy, Debug, PartialEq, Eq, Structural)]
pub enum Step {
    /// Pass over the entry without decoding it.
    Skip,
    /// Decode the entry's bytes as a message of this category.
    Decode(MessageCategory),
}

/// The step for an entry of category `category`: ignored entries are passed over,
/// all others are decoded.
pub open spec fn step_for(category: MessageCategory) -> Step {
    if category == MessageCategory::Ignored {
        Step::Skip
    } else {
        Step::Decode(category)
    }
}

/// What to do with the entry tagged `tag` under `rules`.
pub fn plan(rules: &RuleTable, tag: &str) -> (step: Step)
    ensures
        step == step_for(category_of(tag@, rules@)),
{
    match rules.classify(tag) {
        MessageCategory::Ignored => Step::Skip,
        MessageCategory::AuthServer => Step::Decode(MessageCategory::AuthServer),
        MessageCategory::WorldServer => Step::Decode(MessageCategory::WorldServer),
        MessageCategory::WorldClient => Step::Decode(MessageCategory::WorldClient),
    }
}

/// Where a failure happened: the archive, the entry's tag, and the entry's size.
#[derive(Clone, Debug, PartialEq, Eq)]
pub struct EntryContext {
    pub archive: String,
    pub tag: String,
    pub size: u64,
}

impl EntryContext {
    /// The line that names the archive, the entry and its size.
    pub open spec fn description(&self) -> Seq<char> {
        "Zip: "@ + self.archive@ + ", Filename: "@ + self.tag@ + ", "@ + decimal(self.size as nat)
            + " bytes"@
    }

    /// The line that names the archive, the entry and its size.
    pub fn describe(&self) -> (text: String)
        ensures
            text@ == self.description(),
    {
        let mut text = String::from_str("Zip: ");
        text.append(self.archive.as_str());
        text.append(", Filename: ");
        text.append(self.tag.as_str());
        text.append(", ");
        push_decimal(&mut text, self.size);
        text.append(" bytes");
        text
    }
}

/// Why a run stopped.
#[derive(Clone, Debug, PartialEq, Eq)]
pub enum ReplayError {
    /// An entry's bytes could not be decoded.
    Decode { context: EntryContext, error: DecodeError },
    /// An entry was decoded and bytes were left over.
    TrailingBytes { context: EntryContext, remaining: usize },
}

/// What the decoding of an entry means for the run: a failed decoding stops it, and
/// so do bytes left over where full consumption is checked; anything else counts.
pub open spec fn verdict(
    context: EntryContext,
    outcome: Result<usize, DecodeError>,
    check_consumed: bool,
) -> Result<(), ReplayError> {
    match outcome {
        Err(error) => Err(ReplayError::Decode { context, error }),
        Ok(remaining) => if check_consumed && remaining > 0 {
            Err(ReplayError::TrailingBytes { context, remaining })
        } else {
            Ok(())
        },
    }
}

/// The count of entries that a run has decoded so far.
pub struct ReplayRun {
    processed: usize,
}

impl View for ReplayRun {
    type V = nat;

    closed spec fn view(&self) -> nat {
        self.processed as nat
    }
}

impl ReplayRun {
    /// A run that has decoded nothing yet.
    pub fn new() -> (run: ReplayRun)
        ensures
            run@ == 0,
    {
        ReplayRun { processed: 0 }
    }

    /// The number of entries decoded so far.
    pub fn processed(&self) -> (count: usize)
        ensures
            count == self@,
    {
        self.processed
    }

    /// Whether the run can count one more entry.
    pub fn has_room(&self) -> (room: bool)
        ensures
            room == (self@ < usize::MAX),
    {
        self.processed < usize::MAX
    }

    /// Takes in the outcome of decoding one entry: the number of bytes that the
    /// decoding left over, or its failure. The entry is counted if its verdict is
    /// good; otherwise the count stays and the failure is returned with its context.
    pub fn record(
        &mut self,
        context: EntryContext,
        outcome: Result<usize, DecodeError>,
        check_consumed: bool,
    ) -> (r: Result<(), ReplayError>)
        requires
            old(self)@ < usize::MAX,
        ensures
            r == verdict(context, outcome, check_consumed),
            r is Ok ==> final(self)@ == old(self)@ + 1,
            r is Err ==> final(self)@ == old(self)@,
    {
        match outcome {
            Err(error) => Err(ReplayError::Decode { context, error }),
            Ok(remaining) => {
                if check_consumed && remaining > 0 {
                    Err(ReplayError::TrailingBytes { context, remaining })
                } else {
                    self.processed = self.processed + 1;
                    Ok(())
                }
            },
        }
    }
}

/// The template of each object that the messages of an archive have introduced.
pub struct ObjectTable {
    templates: HashMap<u64, u32>,
}

impl View for ObjectTable {
    type V = Map<u64, u32>;

    closed spec fn view(&self) -> Map<u64, u32> {
        self.templates@
    }
}

impl ObjectTable {
    /// A table for an archive of which nothing was replayed yet.
    pub fn new() -> (table: ObjectTable)
        ensures
            table@ == Map::<u64, u32>::empty(),
    {
        ObjectTable { templates: HashMap::new() }
    }

    /// Records that `object` was introduced with template `template`. A later
    /// introduction of the same object replaces the earlier one.
    pub fn introduce(&mut self, object: u64, template: u32)
        ensures
            final(self)@ == old(self)@.insert(object, template),
    {
        self.templates.insert(object, template);
    }

    /// The template that `object` was introduced with, if it was introduced.
    pub fn template_of(&self, object: u64) -> (found: Option<u32>)
        ensures
            self@.contains_key(object) ==> found == Some(self@[object]),
            !self@.contains_key(object) ==> found is None,
    {
        match self.templates.get(&object) {
            Some(template) => Some(*template),
            None => None,
        }
    }
}

} // verus!
