//! The order of steps in which a partition table is rebuilt.
//!
//! Rebuilding a table is a conversation with the device: each step asks for
//! one thing to be done, and what comes back decides the next step. A
//! `Rewriter` holds the place in that conversation. It never touches the
//! device itself: `step` takes what the last step gave and answers with the
//! next thing to do.

use crate::device::{
    capacity_spec, needs_sector_count, parse_sector_count, protective_size, protective_size_spec,
    resolve_capacity, sector_count_spec,
};
use crate::partitions::{
    parse_partitions, parse_partitions_spec, plan, plan_spec, planned_views, texts, PartitionType,
    PlannedPartition, PlannedPartitionView,
};
use crate::util::Error;
use vstd::prelude::*;

verus! {

/// The flags of every partition that a rebuild adds: none.
pub const PARTITION_FLAGS: u64 = 0;

/// One thing to do to the device or to the table bound to it.
#[derive(Debug)]
pub enum Action {
    /// Open the device for reading and writing.
    OpenDevice,
    /// Report the length of the device as a file.
    QueryLength,
    /// Report what the host's block-device metadata says of the sector count.
    QuerySectorCount,
    /// Write a protective record of this size, in sectors, at the start.
    WriteProtectiveRecord { sectors: u32 },
    /// Bind an empty table with sectors of 512 bytes to the device.
    InitializeTable,
    /// Report the number and the GUID of every entry of the table.
    ListEntries,
    /// Remove the entry with this number and GUID.
    RemoveEntry { number: u32, guid: u128 },
    /// Add this partition behind those that the table holds, with these
    /// flags and this alignment in sectors; `None` for the table's own.
    AddPartition { partition: PlannedPartition, flags: u64, alignment: Option<u64> },
    /// Write the table to the device.
    Persist,
    /// Stop: the rebuild has ended, this way.
    Finish(Result<(), Error>),
}

/// An `Action` as plain values.
pub enum ActionView {
    OpenDevice,
    QueryLength,
    QuerySectorCount,
    WriteProtectiveRecord { sectors: u32 },
    InitializeTable,
    ListEntries,
    RemoveEntry { number: u32, guid: u128 },
    AddPartition { partition: PlannedPartitionView, flags: u64, alignment: Option<u64> },
    Persist,
    Finish(Result<(), Error>),
}

impl View for Action {
    type V = ActionView;

    open spec fn view(&self) -> ActionView {
        match *self {
            Action::OpenDevice => ActionView::OpenDevice,
            Action::QueryLength => ActionView::QueryLength,
            Action::QuerySectorCount => ActionView::QuerySectorCount,
            Action::WriteProtectiveRecord { sectors } => ActionView::WriteProtectiveRecord {
                sectors,
            },
            Action::InitializeTable => ActionView::InitializeTable,
            Action::ListEntries => ActionView::ListEntries,
            Action::RemoveEntry { number, guid } => ActionView::RemoveEntry { number, guid },
            Action::AddPartition { partition, flags, alignment } => ActionView::AddPartition {
                partition: partition@,
                flags,
                alignment,
            },
            Action::Persist => ActionView::Persist,
            Action::Finish(outcome) => ActionView::Finish(outcome),
        }
    }
}

/// What doing an `Action` gave.
#[derive(Debug)]
pub enum Event {
    /// The action is done and has nothing to report.
    Done,
    /// The length of the device as a file.
    Length(u64),
    /// The text that the host's block-device metadata holds for the sector
    /// count, or `None` where the host has no such metadata for the device.
    SectorCount(Option<String>),
    /// The number and the GUID of every entry of the table.
    Entries(Vec<(u32, u128)>),
    /// The action failed.
    Failed(std::io::Error),
}

/// An `Event` as plain values.
pub enum EventView {
    Done,
    Length(u64),
    SectorCount(Option<Seq<char>>),
    Entries(Seq<(u32, u128)>),
    Failed(std::io::Error),
}

impl View for Event {
    type V = EventView;

    open spec fn view(&self) -> EventView {
        match *self {
            Event::Done => EventView::Done,
            Event::Length(length) => EventView::Length(length),
            Event::SectorCount(text) => EventView::SectorCount(
                match text {
                    Some(text) => Some(text@),
                    None => None,
                },
            ),
            Event::Entries(entries) => EventView::Entries(entries@),
            Event::Failed(error) => EventView::Failed(error),
        }
    }
}

/// The place in a rebuild: which action is under way, and what is known.
#[derive(Debug)]
pub enum Rewriter {
    /// `OpenDevice` is under way.
    Opening { specs: Vec<String> },
    /// `QueryLength` is under way.
    Measuring { specs: Vec<String> },
    /// `QuerySectorCount` is under way.
    CountingSectors { specs: Vec<String> },
    /// `WriteProtectiveRecord` is under way; the capacity is resolved.
    Protecting { specs: Vec<String>, capacity: u64 },
    /// `InitializeTable` is under way; the layout is planned.
    Initializing { plan: Vec<PlannedPartition> },
    /// `ListEntries` is under way.
    Listing { plan: Vec<PlannedPartition> },
    /// `RemoveEntry` is under way for the entry `stale[next]`.
    Clearing { plan: Vec<PlannedPartition>, stale: Vec<(u32, u128)>, next: usize },
    /// `AddPartition` is under way for `plan[next]`.
    Adding { plan: Vec<PlannedPartition>, next: usize },
    /// `Persist` is under way.
    Persisting,
    /// The rebuild has ended.
    Finished,
}

/// A `Rewriter` as plain values.
pub enum RewriterView {
    Opening { specs: Seq<Seq<char>> },
    Measuring { specs: Seq<Seq<char>> },
    CountingSectors { specs: Seq<Seq<char>> },
    Protecting { specs: Seq<Seq<char>>, capacity: u64 },
    Initializing { plan: Seq<PlannedPartitionView> },
    Listing { plan: Seq<PlannedPartitionView> },
    Clearing { plan: Seq<PlannedPartitionView>, stale: Seq<(u32, u128)>, next: int },
    Adding { plan: Seq<PlannedPartitionView>, next: int },
    Persisting,
    Finished,
}

impl View for Rewriter {
    type V = RewriterView;

    open spec fn view(&self) -> RewriterView {
        match *self {
            Rewriter::Opening { specs } => RewriterView::Opening { specs: texts(specs@) },
            Rewriter::Measuring { specs } => RewriterView::Measuring { specs: texts(specs@) },
            Rewriter::CountingSectors { specs } => RewriterView::CountingSectors {
                specs: texts(specs@),
            },
            Rewriter::Protecting { specs, capacity } => RewriterView::Protecting {
                specs: texts(specs@),
                capacity,
            },
            Rewriter::Initializing { plan } => RewriterView::Initializing {
                plan: planned_views(plan@),
            },
            Rewriter::Listing { plan } => RewriterView::Listing { plan: planned_views(plan@) },
            Rewriter::Clearing { plan, stale, next } => RewriterView::Clearing {
                plan: planned_views(plan@),
                stale: stale@,
                next: next as int,
            },
            Rewriter::Adding { plan, next } => RewriterView::Adding {
                plan: planned_views(plan@),
                next: next as int,
            },
            Rewriter::Persisting => RewriterView::Persisting,
            Rewriter::Finished => RewriterView::Finished,
        }
    }
}

/// The layout that a list of partition requests asks for on a device that
/// holds `capacity` bytes: every request read, then every size resolved.
pub open spec fn layout_spec(specs: Seq<Seq<char>>, capacity: u64) -> Result<
    Seq<PlannedPartitionView>,
    Error,
> {
    match parse_partitions_spec(specs) {
        Ok(partitions) => plan_spec(partitions, capacity as nat),
        Err(e) => Err(e),
    }
}

/// Reads the partition requests and plans their layout.
pub fn layout(specs: &Vec<String>, capacity: u64) -> (r: Result<Vec<PlannedPartition>, Error>)
    ensures
        match r {
            Ok(plan) => layout_spec(texts(specs@), capacity) == Ok::<
                Seq<PlannedPartitionView>,
                Error,
            >(planned_views(plan@)),
            Err(e) => layout_spec(texts(specs@), capacity) == Err::<
                Seq<PlannedPartitionView>,
                Error,
            >(e),
        },
{
    match parse_partitions(specs) {
        Ok(partitions) => plan(&partitions, capacity),
        Err(e) => Err(e),
    }
}

impl RewriterView {
    /// Whether `event` can be what the action under way gave. A failure
    /// can follow every action; each action has one way to succeed.
    pub open spec fn accepts(self, event: EventView) -> bool {
        match (self, event) {
            (RewriterView::Finished, _) => false,
            (_, EventView::Failed(_)) => true,
            (RewriterView::Measuring { .. }, e) => e is Length,
            (RewriterView::CountingSectors { .. }, e) => e is SectorCount,
            (RewriterView::Listing { .. }, e) => e is Entries,
            (_, e) => e is Done,
        }
    }

    /// The rebuild ends with `outcome`.
    pub open spec fn finish(outcome: Result<(), Error>) -> (RewriterView, ActionView) {
        (RewriterView::Finished, ActionView::Finish(outcome))
    }

    /// The capacity is resolved or cannot be: with a capacity the protective
    /// record comes next, without one the rebuild ends.
    pub open spec fn measured(specs: Seq<Seq<char>>, capacity: Result<u64, Error>) -> (
        RewriterView,
        ActionView,
    ) {
        match capacity {
            Ok(capacity) => RewriterView::protect(specs, capacity),
            Err(e) => RewriterView::finish(Err(e)),
        }
    }

    /// The capacity is known: the protective record comes next.
    pub open spec fn protect(specs: Seq<Seq<char>>, capacity: u64) -> (RewriterView, ActionView) {
        (
            RewriterView::Protecting { specs, capacity },
            ActionView::WriteProtectiveRecord { sectors: protective_size_spec(capacity) },
        )
    }

    /// The request to add `partition`: a partition is added without flags
    /// and with the table's own alignment, so that the table alone decides
    /// where it comes to lie. No start is handed on.
    pub open spec fn addition(partition: PlannedPartitionView) -> ActionView {
        ActionView::AddPartition { partition, flags: PARTITION_FLAGS, alignment: None }
    }

    /// The partitions of `plan` before `next` are added: the one at `next`
    /// comes next, and after the last the table is written.
    pub open spec fn add_from(plan: Seq<PlannedPartitionView>, next: int) -> (
        RewriterView,
        ActionView,
    ) {
        if 0 <= next < plan.len() {
            (RewriterView::Adding { plan, next }, RewriterView::addition(plan[next]))
        } else {
            (RewriterView::Persisting, ActionView::Persist)
        }
    }

    /// The entries of `stale` before `next` are removed: the one at `next`
    /// comes next, and after the last the first partition is added.
    pub open spec fn clear_from(
        plan: Seq<PlannedPartitionView>,
        stale: Seq<(u32, u128)>,
        next: int,
    ) -> (RewriterView, ActionView) {
        if 0 <= next < stale.len() {
            (
                RewriterView::Clearing { plan, stale, next },
                ActionView::RemoveEntry { number: stale[next].0, guid: stale[next].1 },
            )
        } else {
            RewriterView::add_from(plan, 0)
        }
    }

    /// The first place of a rebuild for the partition requests `specs`, and
    /// the first thing to do.
    pub open spec fn start(specs: Seq<Seq<char>>) -> (RewriterView, ActionView) {
        (RewriterView::Opening { specs }, ActionView::OpenDevice)
    }

    /// The place after an event that the place accepts, and the next thing
    /// to do. A failure ends the rebuild at once with the failure as its
    /// outcome, and so does every error that the library finds itself.
    /// Otherwise the steps follow in one order: open the device; resolve its
    /// capacity from its length and, where that is zero, from its sector
    /// count; write the protective record; read the requests and plan the
    /// layout; bind an empty table; list its entries and remove each; add
    /// each planned partition; write the table.
    pub open spec fn step(self, event: EventView) -> (RewriterView, ActionView)
        recommends
            self.accepts(event),
    {
        match (self, event) {
            (_, EventView::Failed(error)) => RewriterView::finish(Err(Error::IOError(error))),
            (RewriterView::Opening { specs }, _) => (
                RewriterView::Measuring { specs },
                ActionView::QueryLength,
            ),
            (RewriterView::Measuring { specs }, EventView::Length(length)) => if length == 0 {
                (RewriterView::CountingSectors { specs }, ActionView::QuerySectorCount)
            } else {
                RewriterView::measured(specs, capacity_spec(length, None))
            },
            (RewriterView::CountingSectors { specs }, EventView::SectorCount(None)) => {
                RewriterView::measured(specs, capacity_spec(0, None))
            },
            (RewriterView::CountingSectors { specs }, EventView::SectorCount(Some(text))) => {
                match sector_count_spec(text) {
                    Ok(sectors) => RewriterView::measured(specs, capacity_spec(0, Some(sectors))),
                    Err(e) => RewriterView::finish(Err(e)),
                }
            },
            (RewriterView::Protecting { specs, capacity }, _) => match layout_spec(
                specs,
                capacity,
            ) {
                Ok(plan) => (RewriterView::Initializing { plan }, ActionView::InitializeTable),
                Err(e) => RewriterView::finish(Err(e)),
            },
            (RewriterView::Initializing { plan }, _) => (
                RewriterView::Listing { plan },
                ActionView::ListEntries,
            ),
            (RewriterView::Listing { plan }, EventView::Entries(stale)) => RewriterView::clear_from(
                plan,
                stale,
                0,
            ),
            (RewriterView::Clearing { plan, stale, next }, _) => RewriterView::clear_from(
                plan,
                stale,
                next + 1,
            ),
            (RewriterView::Adding { plan, next }, _) => RewriterView::add_from(plan, next + 1),
            (RewriterView::Persisting, _) => RewriterView::finish(Ok(())),
            _ => arbitrary(),
        }
    }
}

/// A copy of `partition`.
fn copy_planned(partition: &PlannedPartition) -> (copy: PlannedPartition)
    ensures
        copy@ == partition@,
{
    PlannedPartition {
        name: partition.name.clone(),
        size_bytes: partition.size_bytes,
        partition_type: PartitionType { guid: partition.partition_type.guid.clone() },
    }
}

impl Rewriter {
    /// Begins a rebuild for the partition requests `specs`.
    pub fn new(specs: Vec<String>) -> (r: (Rewriter, Action))
        ensures
            (r.0@, r.1@) == RewriterView::start(texts(specs@)),
    {
        (Rewriter::Opening { specs }, Action::OpenDevice)
    }

    /// Whether `event` can be what the action under way gave.
    pub fn accepts(&self, event: &Event) -> (b: bool)
        ensures
            b == self@.accepts(event@),
    {
        match (self, event) {
            (Rewriter::Finished, _) => false,
            (_, Event::Failed(_)) => true,
            (Rewriter::Measuring { .. }, Event::Length(_)) => true,
            (Rewriter::Measuring { .. }, _) => false,
            (Rewriter::CountingSectors { .. }, Event::SectorCount(_)) => true,
            (Rewriter::CountingSectors { .. }, _) => false,
            (Rewriter::Listing { .. }, Event::Entries(_)) => true,
            (Rewriter::Listing { .. }, _) => false,
            (_, Event::Done) => true,
            _ => false,
        }
    }

    fn finish(outcome: Result<(), Error>) -> (r: (Rewriter, Action))
        ensures
            (r.0@, r.1@) == RewriterView::finish(outcome),
    {
        (Rewriter::Finished, Action::Finish(outcome))
    }

    fn measured(specs: Vec<String>, capacity: Result<u64, Error>) -> (r: (Rewriter, Action))
        ensures
            (r.0@, r.1@) == RewriterView::measured(texts(specs@), capacity),
    {
        match capacity {
            Ok(capacity) => Rewriter::protect(specs, capacity),
            Err(e) => Rewriter::finish(Err(e)),
        }
    }

    fn protect(specs: Vec<String>, capacity: u64) -> (r: (Rewriter, Action))
        ensures
            (r.0@, r.1@) == RewriterView::protect(texts(specs@), capacity),
    {
        let sectors = protective_size(capacity);
        (Rewriter::Protecting { specs, capacity }, Action::WriteProtectiveRecord { sectors })
    }

    fn add_from(plan: Vec<PlannedPartition>, next: usize) -> (r: (Rewriter, Action))
        ensures
            (r.0@, r.1@) == RewriterView::add_from(planned_views(plan@), next as int),
    {
        if next < plan.len() {
            let partition = copy_planned(&plan[next]);
            let action = Action::AddPartition {
                partition,
                flags: PARTITION_FLAGS,
                alignment: None,
            };
            (Rewriter::Adding { plan, next }, action)
        } else {
            (Rewriter::Persisting, Action::Persist)
        }
    }

    fn clear_from(plan: Vec<PlannedPartition>, stale: Vec<(u32, u128)>, next: usize) -> (r: (
        Rewriter,
        Action,
    ))
        ensures
            (r.0@, r.1@) == RewriterView::clear_from(planned_views(plan@), stale@, next as int),
    {
        if next < stale.len() {
            let (number, guid) = stale[next];
            (Rewriter::Clearing { plan, stale, next }, Action::RemoveEntry { number, guid })
        } else {
            Rewriter::add_from(plan, 0)
        }
    }

    /// Takes what the action under way gave and answers with the place
    /// after it and the next thing to do; `None` for an event that the
    /// action under way cannot have given, and after the end.
    pub fn step(self, event: Event) -> (r: Option<(Rewriter, Action)>)
        ensures
            match r {
                Some((next, action)) => self@.accepts(event@) && (next@, action@) == self@.step(
                    event@,
                ),
                None => !self@.accepts(event@),
            },
    {
        if !self.accepts(&event) {
            return None;
        }
        let answer = match (self, event) {
            (_, Event::Failed(error)) => Rewriter::finish(Err(Error::IOError(error))),
            (Rewriter::Opening { specs }, _) => (Rewriter::Measuring { specs }, Action::QueryLength),
            (Rewriter::Measuring { specs }, Event::Length(length)) => {
                if needs_sector_count(length) {
                    (Rewriter::CountingSectors { specs }, Action::QuerySectorCount)
                } else {
                    Rewriter::measured(specs, resolve_capacity(length, None))
                }
            },
            (Rewriter::CountingSectors { specs }, Event::SectorCount(text)) => {
                match text {
                    None => Rewriter::measured(specs, resolve_capacity(0, None)),
                    Some(text) => match parse_sector_count(text.as_str()) {
                        Ok(sectors) => Rewriter::measured(specs, resolve_capacity(0, Some(sectors))),
                        Err(e) => Rewriter::finish(Err(e)),
                    },
                }
            },
            (Rewriter::Protecting { specs, capacity }, _) => match layout(&specs, capacity) {
                Ok(plan) => (Rewriter::Initializing { plan }, Action::InitializeTable),
                Err(e) => Rewriter::finish(Err(e)),
            },
            (Rewriter::Initializing { plan }, _) => (
                Rewriter::Listing { plan },
                Action::ListEntries,
            ),
            (Rewriter::Listing { plan }, Event::Entries(stale)) => Rewriter::clear_from(
                plan,
                stale,
                0,
            ),
            (Rewriter::Clearing { plan, stale, next }, _) => {
                if next < stale.len() {
                    Rewriter::clear_from(plan, stale, next + 1)
                } else {
                    Rewriter::add_from(plan, 0)
                }
            },
            (Rewriter::Adding { plan, next }, _) => {
                if next < plan.len() {
                    Rewriter::add_from(plan, next + 1)
                } else {
                    (Rewriter::Persisting, Action::Persist)
                }
            },
            (Rewriter::Persisting, _) => Rewriter::finish(Ok(())),
            _ => unreached(),
        };
        Some(answer)
    }
}

} // verus!
