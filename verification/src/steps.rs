//! The order of the steps of a piece of work on a descriptor: what is found or
//! intended is stored before anything is done about it.

use vstd::prelude::*;

verus! {

/// A piece of work on a descriptor.
#[derive(Clone, Copy, Debug, PartialEq, Eq, Structural)]
pub enum Work {
    /// A registration, with its first scan.
    Registration,
    /// A rescan.
    Rescan,
    /// A change of the lookahead or of the depth.
    Update,
    /// An address that is given out.
    Address,
    /// A deposit that was just found.
    Deposit,
    /// A deposit that a scan of history found.
    HistoricalDeposit,
    /// A spend that was found.
    Spend,
    /// A reconciliation of the watches.
    Reconciliation,
    /// A removal.
    Removal,
}

/// How far a piece of work has come.
#[derive(Clone, Copy, Debug, PartialEq, Eq, Structural)]
pub enum Phase {
    /// Its record is planned, and not stored.
    Planned,
    /// Its record is stored.
    Stored,
    /// History was scanned and what was found is applied.
    Scanned,
    /// The first scan is stored as complete.
    Completed,
    /// The watches are those that must be there.
    Watched,
    /// The record is stored as active.
    Active,
    /// The watches are removed.
    Unwatched,
    /// The issued addresses are removed.
    Unissued,
    /// Nothing is left to do.
    Finished,
    /// A step failed.
    Stopped,
}

/// What is to be done next.
#[derive(Clone, Copy, Debug, PartialEq, Eq, Structural)]
pub enum Action {
    /// Store the record that was planned.
    Store,
    /// Scan history and apply what is found.
    Scan,
    /// Store that the first scan is complete.
    Complete,
    /// Register the watches that are missing.
    Watch,
    /// Store the record as active, unless it is stored so.
    Activate,
    /// Tell Bookkeeper of the movements that are due.
    Deliver,
    /// Remove the watches.
    Unwatch,
    /// Remove the issued addresses from the store.
    RemoveAddresses,
    /// Remove the record from the store.
    RemoveRecord,
    /// Answer that the work is done.
    Finish,
    /// Answer that a step failed.
    Stop,
}

/// How an action ended.
#[derive(Clone, Copy, Debug, PartialEq, Eq, Structural)]
pub enum Event {
    Done,
    Failed,
}

/// What is to be done in a phase of a piece of work.
pub open spec fn action_in(work: Work, phase: Phase) -> Action {
    match phase {
        Phase::Planned => Action::Store,
        Phase::Stored => match work {
            Work::Registration | Work::Rescan => Action::Scan,
            Work::Update | Work::Address | Work::Deposit | Work::Reconciliation => Action::Watch,
            Work::HistoricalDeposit | Work::Spend => Action::Deliver,
            Work::Removal => Action::Unwatch,
        },
        Phase::Scanned => match work {
            Work::Registration => Action::Complete,
            _ => Action::Watch,
        },
        Phase::Completed => Action::Watch,
        Phase::Watched => Action::Activate,
        Phase::Active => match work {
            Work::Update | Work::Deposit | Work::Reconciliation => Action::Deliver,
            _ => Action::Finish,
        },
        Phase::Unwatched => Action::RemoveAddresses,
        Phase::Unissued => Action::RemoveRecord,
        Phase::Finished => Action::Finish,
        Phase::Stopped => Action::Stop,
    }
}

/// The phase that a piece of work is in once an action is done.
pub open spec fn phase_after(action: Action) -> Phase {
    match action {
        Action::Store => Phase::Stored,
        Action::Scan => Phase::Scanned,
        Action::Complete => Phase::Completed,
        Action::Watch => Phase::Watched,
        Action::Activate => Phase::Active,
        Action::Deliver => Phase::Finished,
        Action::Unwatch => Phase::Unwatched,
        Action::RemoveAddresses => Phase::Unissued,
        Action::RemoveRecord => Phase::Finished,
        Action::Finish => Phase::Finished,
        Action::Stop => Phase::Stopped,
    }
}

/// The phase after the action of a phase has ended.
pub open spec fn next_phase(work: Work, phase: Phase, event: Event) -> Phase {
    match event {
        Event::Done => phase_after(action_in(work, phase)),
        Event::Failed => Phase::Stopped,
    }
}

/// What is to be done in a phase of a piece of work.
fn action_of(work: Work, phase: Phase) -> (r: Action)
    ensures
        r == action_in(work, phase),
{
    match phase {
        Phase::Planned => Action::Store,
        Phase::Stored => match work {
            Work::Registration | Work::Rescan => Action::Scan,
            Work::Update | Work::Address | Work::Deposit | Work::Reconciliation => Action::Watch,
            Work::HistoricalDeposit | Work::Spend => Action::Deliver,
            Work::Removal => Action::Unwatch,
        },
        Phase::Scanned => match work {
            Work::Registration => Action::Complete,
            _ => Action::Watch,
        },
        Phase::Completed => Action::Watch,
        Phase::Watched => Action::Activate,
        Phase::Active => match work {
            Work::Update | Work::Deposit | Work::Reconciliation => Action::Deliver,
            _ => Action::Finish,
        },
        Phase::Unwatched => Action::RemoveAddresses,
        Phase::Unissued => Action::RemoveRecord,
        Phase::Finished => Action::Finish,
        Phase::Stopped => Action::Stop,
    }
}

/// The phase in which a piece of work begins.
pub open spec fn first_phase(stored: bool) -> Phase {
    if stored {
        Phase::Stored
    } else {
        Phase::Planned
    }
}

/// Begins a piece of work: with the storing of its record, unless that was
/// stored before.
pub fn first_step(work: Work, stored: bool) -> (r: (Phase, Action))
    ensures
        r.0 == first_phase(stored),
        r.1 == action_in(work, r.0),
{
    let phase = if stored {
        Phase::Stored
    } else {
        Phase::Planned
    };
    (phase, action_of(work, phase))
}

/// Goes on with a piece of work, given how the action of its phase ended.
pub fn next_step(work: Work, phase: Phase, event: Event) -> (r: (Phase, Action))
    ensures
        r.0 == next_phase(work, phase, event),
        r.1 == action_in(work, r.0),
{
    let next = match event {
        Event::Failed => Phase::Stopped,
        Event::Done => match action_of(work, phase) {
            Action::Store => Phase::Stored,
            Action::Scan => Phase::Scanned,
            Action::Complete => Phase::Completed,
            Action::Watch => Phase::Watched,
            Action::Activate => Phase::Active,
            Action::Deliver => Phase::Finished,
            Action::Unwatch => Phase::Unwatched,
            Action::RemoveAddresses => Phase::Unissued,
            Action::RemoveRecord => Phase::Finished,
            Action::Finish => Phase::Finished,
            Action::Stop => Phase::Stopped,
        },
    };
    (next, action_of(work, next))
}

/// The phase of a piece of work that began with nothing stored, after the first
/// `count` of its actions have ended as `events` says.
pub open spec fn phase_at(work: Work, events: Seq<Event>, count: nat) -> Phase
    decreases count,
{
    if count == 0 {
        Phase::Planned
    } else {
        next_phase(work, phase_at(work, events, (count - 1) as nat), events[count - 1])
    }
}

/// The action that follows the first `count` ones.
pub open spec fn action_at(work: Work, events: Seq<Event>, count: nat) -> Action {
    action_in(work, phase_at(work, events, count))
}

/// An action that is seen outside of the store of the planned record: it scans,
/// registers or removes watches, tells Bookkeeper, or removes what is stored.
pub open spec fn is_effect(action: Action) -> bool {
    match action {
        Action::Store | Action::Finish | Action::Stop => false,
        _ => true,
    }
}

/// What is found or intended is stored before anything is done about it: the
/// first action of a piece of work is to store its record, and history is
/// scanned, watches are touched, Bookkeeper is told and things are removed only
/// after that was done.
pub proof fn nothing_is_done_before_the_store(work: Work, events: Seq<Event>, count: nat)
    requires
        count <= events.len(),
        is_effect(action_at(work, events, count)),
    ensures
        action_at(work, events, 0) == Action::Store,
        0 < count,
        events[0] == Event::Done,
{
    failure_is_final(work, events, 0, count);
}

/// A step that failed is the last one: nothing is done after it.
pub proof fn failure_is_final(work: Work, events: Seq<Event>, failed: nat, count: nat)
    requires
        failed < events.len(),
        count <= events.len(),
    ensures
        failed < count && events[failed as int] == Event::Failed ==> action_at(work, events, count)
            == Action::Stop,
    decreases count,
{
    if failed + 1 < count {
        failure_is_final(work, events, failed, (count - 1) as nat);
    }
}

/// Work is said to be done only where none of its steps failed, and the record
/// of what is watched was stored as active after its watches were registered.
pub proof fn finished_work_was_activated(work: Work, events: Seq<Event>, count: nat)
    requires
        count <= events.len(),
        action_at(work, events, count) == Action::Finish,
    ensures
        forall|i: int| 0 <= i < count ==> #[trigger] events[i] == Event::Done,
        work != Work::Removal && work != Work::Spend && work != Work::HistoricalDeposit ==> exists|
            i: int,
        |
            0 < i < count && #[trigger] action_at(work, events, i as nat) == Action::Activate
                && action_at(work, events, (i - 1) as nat) == Action::Watch,
{
    assert forall|i: int| 0 <= i < count implies #[trigger] events[i] == Event::Done by {
        failure_is_final(work, events, i as nat, count);
    }
    reveal_with_fuel(phase_at, 6);
    assert(phase_at(work, events, 0) == Phase::Planned);
    if count > 1 {
        assert(events[0] == Event::Done);
        assert(phase_at(work, events, 1) == Phase::Stored);
    }
    if work == Work::Registration {
        assert(count >= 5) by {
            short_run(work, events, count);
        }
        assert(action_at(work, events, 4) == Action::Activate) by {
            assert(events[1] == Event::Done && events[2] == Event::Done);
            assert(events[3] == Event::Done);
        }
    } else if work == Work::Rescan {
        assert(count >= 4) by {
            short_run(work, events, count);
        }
        assert(action_at(work, events, 3) == Action::Activate) by {
            assert(events[1] == Event::Done && events[2] == Event::Done);
        }
    } else if work != Work::Removal && work != Work::Spend && work != Work::HistoricalDeposit {
        assert(count >= 3) by {
            short_run(work, events, count);
        }
        assert(action_at(work, events, 2) == Action::Activate) by {
            assert(events[1] == Event::Done);
        }
    }
}

/// The first phases of work of which no step failed.
proof fn short_run(work: Work, events: Seq<Event>, count: nat)
    requires
        count <= events.len(),
        forall|i: int| 0 <= i < count ==> #[trigger] events[i] == Event::Done,
    ensures
        count == 0 ==> action_at(work, events, count) == Action::Store,
        count == 1 ==> action_at(work, events, count) == action_in(work, Phase::Stored),
        count == 2 ==> action_at(work, events, count) == action_in(
            work,
            phase_after(action_in(work, Phase::Stored)),
        ),
        count == 3 && work == Work::Rescan ==> action_at(work, events, count) == Action::Activate,
        count == 3 && work == Work::Registration ==> action_at(work, events, count)
            == Action::Watch,
        count == 4 && work == Work::Registration ==> action_at(work, events, count)
            == Action::Activate,
{
    reveal_with_fuel(phase_at, 6);
    if count > 0 {
        assert(events[0] == Event::Done);
    }
    if count > 1 {
        assert(events[1] == Event::Done);
    }
    if count > 2 {
        assert(events[2] == Event::Done);
    }
    if count > 3 {
        assert(events[3] == Event::Done);
    }
}

/// The actions of a piece of work of which no step fails, in order. Watches come
/// after the scan, the record is active once they are there, and Bookkeeper is told
/// last. A removal takes the watches and the addresses away before the record.
pub open spec fn actions_of(work: Work) -> Seq<Action> {
    match work {
        Work::Registration => seq![
            Action::Store,
            Action::Scan,
            Action::Complete,
            Action::Watch,
            Action::Activate,
            Action::Finish,
        ],
        Work::Rescan => seq![
            Action::Store,
            Action::Scan,
            Action::Watch,
            Action::Activate,
            Action::Finish,
        ],
        Work::Address => seq![Action::Store, Action::Watch, Action::Activate, Action::Finish],
        Work::Update | Work::Deposit | Work::Reconciliation => seq![
            Action::Store,
            Action::Watch,
            Action::Activate,
            Action::Deliver,
            Action::Finish,
        ],
        Work::HistoricalDeposit | Work::Spend => seq![
            Action::Store,
            Action::Deliver,
            Action::Finish,
        ],
        Work::Removal => seq![
            Action::Store,
            Action::Unwatch,
            Action::RemoveAddresses,
            Action::RemoveRecord,
            Action::Finish,
        ],
    }
}

/// A piece of work of which no step fails goes through its actions in order. Where
/// its record was stored before, it begins with the action after the store.
pub proof fn work_goes_in_order(work: Work, events: Seq<Event>, count: nat)
    requires
        count <= events.len(),
        count < actions_of(work).len(),
        forall|i: int| 0 <= i < count ==> #[trigger] events[i] == Event::Done,
    ensures
        action_at(work, events, count) == actions_of(work)[count as int],
        action_in(work, first_phase(true)) == actions_of(work)[1],
        action_in(work, first_phase(false)) == Action::Store,
        phase_at(work, events, 0) == first_phase(false),
        next_phase(work, first_phase(false), Event::Done) == first_phase(true),
    decreases count,
{
    reveal_with_fuel(phase_at, 7);
    if count > 0 {
        assert(events[0] == Event::Done);
    }
    if count > 1 {
        assert(events[1] == Event::Done);
    }
    if count > 2 {
        assert(events[2] == Event::Done);
    }
    if count > 3 {
        assert(events[3] == Event::Done);
    }
    if count > 4 {
        assert(events[4] == Event::Done);
    }
}

/// Whatever it is about, work stops where a step fails and stays stopped, and stays
/// finished once it is.
pub proof fn ended_work_stays_ended(work: Work, phase: Phase, event: Event)
    ensures
        next_phase(work, phase, Event::Failed) == Phase::Stopped,
        action_in(work, Phase::Stopped) == Action::Stop,
        next_phase(work, Phase::Stopped, event) == Phase::Stopped,
        action_in(work, Phase::Finished) == Action::Finish,
        next_phase(work, Phase::Finished, Event::Done) == Phase::Finished,
{
}

} // verus!
