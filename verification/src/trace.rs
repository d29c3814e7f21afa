//! What a rebuild asks for, seen over a whole run: the order of its steps,
//! its end at the first failure, and the actions of a run that meets none.

use crate::device::{protective_size_spec, sector_count_spec};
use crate::partitions::PlannedPartitionView;
use crate::rewrite::{layout_spec, ActionView, EventView, RewriterView};
use crate::util::Error;
use vstd::prelude::*;

verus! {

impl RewriterView {
    /// The number of the step that is under way, in the order of a
    /// rebuild: 1 opening the device, 2 resolving its capacity, 3 writing
    /// the protective record, 4 binding an empty table, 5 clearing it, 6
    /// adding partitions, 7 writing the table; 8 after the end.
    pub open spec fn phase(self) -> nat {
        match self {
            RewriterView::Opening { .. } => 1,
            RewriterView::Measuring { .. } => 2,
            RewriterView::CountingSectors { .. } => 2,
            RewriterView::Protecting { .. } => 3,
            RewriterView::Initializing { .. } => 4,
            RewriterView::Listing { .. } => 5,
            RewriterView::Clearing { .. } => 5,
            RewriterView::Adding { .. } => 6,
            RewriterView::Persisting => 7,
            RewriterView::Finished => 8,
        }
    }

    /// The action that is under way in this place; none after the end.
    pub open spec fn under_way(self) -> Option<ActionView> {
        match self {
            RewriterView::Opening { .. } => Some(ActionView::OpenDevice),
            RewriterView::Measuring { .. } => Some(ActionView::QueryLength),
            RewriterView::CountingSectors { .. } => Some(ActionView::QuerySectorCount),
            RewriterView::Protecting { capacity, .. } => Some(
                ActionView::WriteProtectiveRecord { sectors: protective_size_spec(capacity) },
            ),
            RewriterView::Initializing { .. } => Some(ActionView::InitializeTable),
            RewriterView::Listing { .. } => Some(ActionView::ListEntries),
            RewriterView::Clearing { stale, next, .. } => Some(
                ActionView::RemoveEntry { number: stale[next].0, guid: stale[next].1 },
            ),
            RewriterView::Adding { plan, next } => Some(RewriterView::addition(plan[next])),
            RewriterView::Persisting => Some(ActionView::Persist),
            RewriterView::Finished => None,
        }
    }

    /// Where a rebuild is after the events `events`, each taken in turn,
    /// and the actions that it asked for on the way.
    pub open spec fn run(self, events: Seq<EventView>) -> (RewriterView, Seq<ActionView>)
        decreases events.len(),
    {
        if events.len() == 0 {
            (self, Seq::empty())
        } else {
            let (before, actions) = self.run(events.drop_last());
            let (after, action) = before.step(events.last());
            (after, actions.push(action))
        }
    }
}

/// `n` times the event `Done`.
pub open spec fn dones(n: nat) -> Seq<EventView> {
    Seq::new(n, |i: int| EventView::Done)
}

/// The removal of each entry of `stale`, in order.
pub open spec fn removals(stale: Seq<(u32, u128)>) -> Seq<ActionView> {
    Seq::new(stale.len(), |i: int| ActionView::RemoveEntry { number: stale[i].0, guid: stale[i].1 })
}

/// The addition of each partition of `plan`, in order.
pub open spec fn additions(plan: Seq<PlannedPartitionView>) -> Seq<ActionView> {
    Seq::new(plan.len(), |i: int| RewriterView::addition(plan[i]))
}

/// What a rebuild asks for once the table is clear: the addition of each
/// planned partition, then the writing of the table.
pub open spec fn completion(plan: Seq<PlannedPartitionView>) -> Seq<ActionView> {
    additions(plan).push(ActionView::Persist)
}

/// Running over one more event is one more step.
pub proof fn lemma_run_push(state: RewriterView, events: Seq<EventView>, event: EventView)
    ensures
        state.run(events.push(event)) == (
            state.run(events).0.step(event).0,
            state.run(events).1.push(state.run(events).0.step(event).1),
        ),
{
    assert(events.push(event).drop_last() == events);
}

/// Running over one event is one step.
pub proof fn lemma_run_one(state: RewriterView, event: EventView)
    ensures
        state.run(seq![event]) == (state.step(event).0, seq![state.step(event).1]),
{
    let one = seq![event];
    assert(one.drop_last() == Seq::<EventView>::empty());
    assert(state.run(one.drop_last()) == (state, Seq::<ActionView>::empty()));
    assert(Seq::<ActionView>::empty().push(state.step(event).1) == seq![state.step(event).1]);
}

/// Running over two lists of events in a row is running over the first
/// and, from where that ends, over the second.
pub proof fn lemma_run_append(state: RewriterView, first: Seq<EventView>, second: Seq<EventView>)
    ensures
        state.run(first + second) == ({
            let (middle, actions) = state.run(first);
            let (end, more) = middle.run(second);
            (end, actions + more)
        }),
    decreases second.len(),
{
    let (middle, actions) = state.run(first);
    if second.len() == 0 {
        assert(first + second == first);
        assert(actions + Seq::<ActionView>::empty() == actions);
    } else {
        assert((first + second).drop_last() == first + second.drop_last());
        assert((first + second).last() == second.last());
        lemma_run_append(state, first, second.drop_last());
        let (before, more) = middle.run(second.drop_last());
        let (after, action) = before.step(second.last());
        assert(actions + more.push(action) == (actions + more).push(action));
    }
}

/// Running over three lists of events in a row passes through the places
/// where the first and the second end.
pub proof fn lemma_run_in_three(
    state: RewriterView,
    events: (Seq<EventView>, Seq<EventView>, Seq<EventView>),
    places: (RewriterView, RewriterView, RewriterView),
    actions: (Seq<ActionView>, Seq<ActionView>, Seq<ActionView>),
)
    requires
        state.run(events.0) == (places.0, actions.0),
        places.0.run(events.1) == (places.1, actions.1),
        places.1.run(events.2) == (places.2, actions.2),
    ensures
        state.run(events.0 + events.1 + events.2) == (
            places.2,
            actions.0 + actions.1 + actions.2,
        ),
{
    lemma_run_append(state, events.0, events.1);
    lemma_run_append(state, events.0 + events.1, events.2);
}

/// The first failure ends a rebuild: whatever is under way, a failure is
/// answered with `Finish` and the failure as an I/O error, and after the
/// end no event is accepted.
pub proof fn lemma_failure_ends(state: RewriterView, error: std::io::Error, event: EventView)
    ensures
        !(state is Finished) ==> state.accepts(EventView::Failed(error)) && state.step(
            EventView::Failed(error),
        ) == RewriterView::finish(Err(Error::IOError(error))),
        !RewriterView::Finished.accepts(event),
{
}

/// Every answer names the action that is then under way, and `Finish`
/// comes exactly at the end.
pub proof fn lemma_answer_is_under_way(state: RewriterView, event: EventView)
    requires
        state.accepts(event),
    ensures
        ({
            let (after, action) = state.step(event);
            &&& after is Finished <==> action is Finish
            &&& !(after is Finished) ==> after.under_way() == Some(action)
        }),
{
}

/// The steps follow in their order: no event leads back to an earlier
/// step. Only resolving the capacity, clearing and adding take more than
/// one event; each other step is left for a later one by every event.
pub proof fn lemma_steps_in_order(state: RewriterView, event: EventView)
    requires
        state.accepts(event),
    ensures
        state.step(event).0.phase() >= state.phase(),
        state.step(event).0.phase() == state.phase() ==> state is Measuring || state is Listing
            || state is Clearing || state is Adding,
{
}

/// The capacity of a target with a file length above zero is that length.
/// A length of zero has the sector count looked up; where the host has no
/// metadata for the device, the rebuild ends with `InvalidDevice`, and else
/// the capacity is the sector count times 512.
pub proof fn lemma_capacity_resolution(specs: Seq<Seq<char>>, length: u64, text: Seq<char>)
    ensures
        ({
            let measuring = (RewriterView::Measuring { specs });
            let counting = (RewriterView::CountingSectors { specs });
            let found = EventView::SectorCount(Some(text));
            &&& length > 0 ==> measuring.step(EventView::Length(length)).0 == (
            RewriterView::Protecting { specs, capacity: length })
            &&& measuring.step(EventView::Length(0)) == (counting, ActionView::QuerySectorCount)
            &&& counting.step(EventView::SectorCount(None)) == RewriterView::finish(
                Err(Error::InvalidDevice),
            )
            &&& sector_count_spec(text) matches Ok(sectors) ==> counting.step(found)
                == if sectors * 512 <= u64::MAX {
                RewriterView::protect(specs, (sectors * 512) as u64)
            } else {
                RewriterView::finish(Err(Error::RangeError))
            }
            &&& sector_count_spec(text) matches Err(e) ==> counting.step(found)
                == RewriterView::finish(Err(e))
        }),
{
}

/// Clearing removes the entries that the table reported, each once and in
/// the order of the report.
pub proof fn lemma_clearing(plan: Seq<PlannedPartitionView>, stale: Seq<(u32, u128)>, k: nat)
    requires
        k < stale.len(),
    ensures
        (RewriterView::Listing { plan }).run(seq![EventView::Entries(stale)] + dones(k)) == (
            (RewriterView::Clearing { plan, stale, next: k as int }),
            removals(stale).subrange(0, k as int + 1),
        ),
    decreases k,
{
    let listing = RewriterView::Listing { plan };
    let first = seq![EventView::Entries(stale)];
    assert(first.drop_last() == Seq::<EventView>::empty());
    assert(listing.run(first.drop_last()) == (listing, Seq::<ActionView>::empty()));
    assert(listing.run(first) == (
        RewriterView::Clearing { plan, stale, next: 0 },
        Seq::<ActionView>::empty().push(removals(stale)[0]),
    ));
    if k == 0 {
        assert(first + dones(0) == first);
        assert(Seq::<ActionView>::empty().push(removals(stale)[0]) == removals(stale).subrange(
            0,
            1,
        ));
    } else {
        lemma_clearing(plan, stale, (k - 1) as nat);
        let events = first + dones(k);
        assert(events.drop_last() == first + dones((k - 1) as nat));
        assert(events.last() == EventView::Done);
        assert(removals(stale).subrange(0, k as int).push(removals(stale)[k as int]) == removals(
            stale,
        ).subrange(0, k as int + 1));
    }
}

/// Once the table is clear, the planned partitions are added, each once
/// and in the order of the plan; the table is written after the last.
pub proof fn lemma_adding(plan: Seq<PlannedPartitionView>, j: nat)
    requires
        j <= plan.len(),
    ensures
        RewriterView::add_from(plan, j as int).1 == completion(plan)[j as int],
        RewriterView::add_from(plan, 0).0.run(dones(j)) == (
            RewriterView::add_from(plan, j as int).0,
            completion(plan).subrange(1, j as int + 1),
        ),
    decreases j,
{
    let first = RewriterView::add_from(plan, 0).0;
    if j == 0 {
        assert(dones(0).len() == 0);
        assert(completion(plan).subrange(1, 1) == Seq::<ActionView>::empty());
    } else {
        lemma_adding(plan, (j - 1) as nat);
        assert(dones(j).drop_last() == dones((j - 1) as nat));
        assert(dones(j).last() == EventView::Done);
        let (before, actions) = first.run(dones((j - 1) as nat));
        assert(before == RewriterView::Adding { plan, next: j - 1 });
        assert(before.step(EventView::Done) == RewriterView::add_from(plan, j as int));
        assert(completion(plan).subrange(1, j as int).push(completion(plan)[j as int])
            == completion(plan).subrange(1, j as int + 1));
    }
}

/// Whatever the table held before, a rebuild leaves it with the planned
/// partitions and no others: from the report of the entries on, it asks for
/// the removal of every reported entry, then for the addition of every
/// planned partition in the order of the plan, then for the table to be
/// written. What it asks to add does not depend on what was there.
pub proof fn lemma_rebuild_clears_then_adds(
    plan: Seq<PlannedPartitionView>,
    stale: Seq<(u32, u128)>,
)
    ensures
        (RewriterView::Listing { plan }).run(
            seq![EventView::Entries(stale)] + dones(stale.len() + plan.len()),
        ) == (RewriterView::Persisting, removals(stale) + completion(plan)),
{
    let listing = RewriterView::Listing { plan };
    let first = seq![EventView::Entries(stale)];
    let (adding, add_action) = RewriterView::add_from(plan, 0);
    let cleared = first + dones(stale.len());
    assert(listing.run(cleared) == (adding, removals(stale).push(add_action))) by {
        if stale.len() == 0 {
            assert(cleared == first);
            lemma_run_one(listing, EventView::Entries(stale));
            assert(removals(stale) == Seq::<ActionView>::empty());
        } else {
            let k = (stale.len() - 1) as nat;
            lemma_clearing(plan, stale, k);
            assert(cleared.drop_last() == first + dones(k));
            assert(cleared.last() == EventView::Done);
            assert(removals(stale).subrange(0, k as int + 1) == removals(stale));
        }
    }
    lemma_adding(plan, 0);
    lemma_adding(plan, plan.len());
    assert(cleared + dones(plan.len()) == first + dones(stale.len() + plan.len()));
    lemma_run_append(listing, cleared, dones(plan.len()));
    let rest = completion(plan).subrange(1, plan.len() as int + 1);
    assert(removals(stale).push(completion(plan)[0]) + rest == removals(stale) + completion(plan));
}

/// The first steps of a rebuild, one by one, where the length is above
/// zero and the requests give a layout: the length is asked for, then the
/// protective record, then an empty table, then its entries.
pub proof fn lemma_first_steps(specs: Seq<Seq<char>>, length: u64)
    requires
        length > 0,
        layout_spec(specs, length) is Ok,
    ensures
        ({
            let plan = layout_spec(specs, length)->Ok_0;
            let measuring = (RewriterView::Measuring { specs });
            let protecting = (RewriterView::Protecting { specs, capacity: length });
            let initializing = (RewriterView::Initializing { plan });
            let listing = (RewriterView::Listing { plan });
            &&& RewriterView::start(specs).0.step(EventView::Done) == (
                measuring,
                ActionView::QueryLength,
            )
            &&& measuring.step(EventView::Length(length)) == RewriterView::protect(specs, length)
            &&& RewriterView::protect(specs, length).0 == protecting
            &&& protecting.step(EventView::Done) == (initializing, ActionView::InitializeTable)
            &&& initializing.step(EventView::Done) == (listing, ActionView::ListEntries)
        }),
{
}

/// Up to the listing of the entries a rebuild asks, after opening the
/// device, for its length, for the protective record and for an empty
/// table, where the length is above zero and the requests give a layout.
#[verifier::rlimit(50)]
pub proof fn lemma_rebuild_begins(specs: Seq<Seq<char>>, length: u64)
    requires
        length > 0,
        layout_spec(specs, length) is Ok,
    ensures
        RewriterView::start(specs).0.run(
            seq![EventView::Done, EventView::Length(length), EventView::Done, EventView::Done],
        ) == (
            (RewriterView::Listing { plan: layout_spec(specs, length)->Ok_0 }),
            seq![
                ActionView::QueryLength,
                RewriterView::protect(specs, length).1,
                ActionView::InitializeTable,
                ActionView::ListEntries,
            ],
        ),
{
    let plan = layout_spec(specs, length)->Ok_0;
    let opening = RewriterView::start(specs).0;
    let listing = RewriterView::Listing { plan };
    let protect = RewriterView::protect(specs, length).1;
    let none = Seq::<EventView>::empty();
    let one = none.push(EventView::Done);
    let two = one.push(EventView::Length(length));
    let three = two.push(EventView::Done);
    let four = three.push(EventView::Done);
    let a4 = Seq::<ActionView>::empty().push(ActionView::QueryLength).push(protect).push(
        ActionView::InitializeTable,
    ).push(ActionView::ListEntries);
    lemma_first_steps(specs, length);
    assert(opening.run(none) == (opening, Seq::<ActionView>::empty()));
    lemma_run_push(opening, none, EventView::Done);
    lemma_run_push(opening, one, EventView::Length(length));
    lemma_run_push(opening, two, EventView::Done);
    lemma_run_push(opening, three, EventView::Done);
    assert(opening.run(four) == (listing, a4));
    assert(four == seq![
        EventView::Done,
        EventView::Length(length),
        EventView::Done,
        EventView::Done,
    ]);
    assert(a4 == seq![
        ActionView::QueryLength,
        protect,
        ActionView::InitializeTable,
        ActionView::ListEntries,
    ]);
}

/// A rebuild that meets no failure, on a target with a file length above
/// zero and requests that give a layout, asks for these actions and no
/// others, in this order: after opening the device, the length; the
/// protective record; an empty table; its entries; the removal of each; the
/// addition of each planned partition; the writing of the table; and the
/// end, with success.
pub proof fn lemma_rebuild_in_full(specs: Seq<Seq<char>>, length: u64, stale: Seq<(u32, u128)>)
    requires
        length > 0,
        layout_spec(specs, length) is Ok,
    ensures
        ({
            let plan = layout_spec(specs, length)->Ok_0;
            let events = seq![
                EventView::Done,
                EventView::Length(length),
                EventView::Done,
                EventView::Done,
            ] + (seq![EventView::Entries(stale)] + dones(stale.len() + plan.len()))
                + seq![EventView::Done];
            RewriterView::start(specs).0.run(events) == (
                RewriterView::Finished,
                seq![
                    ActionView::QueryLength,
                    RewriterView::protect(specs, length).1,
                    ActionView::InitializeTable,
                    ActionView::ListEntries,
                ] + (removals(stale) + completion(plan)) + seq![ActionView::Finish(Ok(()))],
            )
        }),
{
    let plan = layout_spec(specs, length)->Ok_0;
    let opening = RewriterView::start(specs).0;
    let head = seq![
        EventView::Done,
        EventView::Length(length),
        EventView::Done,
        EventView::Done,
    ];
    let middle = seq![EventView::Entries(stale)] + dones(stale.len() + plan.len());
    let last = seq![EventView::Done];
    let listing = RewriterView::Listing { plan };
    let asked = seq![
        ActionView::QueryLength,
        RewriterView::protect(specs, length).1,
        ActionView::InitializeTable,
        ActionView::ListEntries,
    ];
    let rebuilt = removals(stale) + completion(plan);
    let ended = seq![ActionView::Finish(Ok(()))];
    assert(opening.run(head) == (listing, asked)) by {
        lemma_rebuild_begins(specs, length);
    }
    assert(listing.run(middle) == (RewriterView::Persisting, rebuilt)) by {
        lemma_rebuild_clears_then_adds(plan, stale);
    }
    assert(RewriterView::Persisting.run(last) == (RewriterView::Finished, ended)) by {
        lemma_run_one(RewriterView::Persisting, EventView::Done);
    }
    lemma_run_in_three(
        opening,
        (head, middle, last),
        (listing, RewriterView::Persisting, RewriterView::Finished),
        (asked, rebuilt, ended),
    );
}

} // verus!
