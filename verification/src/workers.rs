//! What the background workers of a node decide.

use vstd::prelude::*;
use crate::cursor::Cursor;
use crate::store::engine::{due_of, read_due_rotations};
use crate::store::model::{Command, CommandView, SecretView};
use crate::store::sorting::list_view;
use crate::store::tables::Tables;
use crate::text::views;

verus! {

/// Whether a node does the work of the leader: alone it always does, in a cluster only while it
/// leads.
pub fn is_leader(clustered: bool, current_leader: Option<u64>, node_id: u64) -> (r: bool)
    ensures
        r == (!clustered || current_leader == Some(node_id)),
{
    if !clustered {
        return true;
    }
    match current_leader {
        Some(leader) => leader == node_id,
        None => false,
    }
}

/// How long a worker waits between two ticks: at least a second.
pub fn poll_period(poll_secs: u64) -> (r: u64)
    ensures
        r == (if poll_secs > 1 {
            poll_secs
        } else {
            1
        }),
{
    if poll_secs > 1 {
        poll_secs
    } else {
        1
    }
}

/// The command with which the rotation worker starts a tick: versions past their grace period go.
pub fn expire_command(now: i64) -> (r: Command)
    ensures
        r@ == (CommandView::ExpireGraceVersions { now }),
{
    Command::ExpireGraceVersions { now }
}

/// The names of the secrets that are due for rotation.
pub fn due_names(tables: &Tables, now: i64) -> (r: Vec<String>)
    ensures
        views(r@) == due_of(tables@, now as int).map_values(|secret: SecretView| secret.name),
{
    let due = read_due_rotations(tables, now);
    let ghost all = list_view(due@);
    let mut out: Vec<String> = Vec::new();
    let mut i: usize = 0;
    while i < due.len()
        invariant
            i <= due@.len() == all.len(),
            all == list_view(due@),
            out@.len() == i,
            forall|j: int| 0 <= j < i ==> (#[trigger] out@[j])@ == all[j].name,
        decreases due@.len() - i,
    {
        out.push(due[i].name.clone());
        i = i + 1;
    }
    assert(views(out@) =~= all.map_values(|secret: SecretView| secret.name));
    out
}

/// How far the rotation worker is within a tick: versions past their grace period go first, then
/// the secrets that are due are listed and rotated one after the other.
pub enum RotationTick {
    Expiring,
    Listing,
    Rotating { names: Cursor<String> },
    Done,
    Failed,
}

/// What the worker does next within a tick.
pub enum RotationAction {
    Apply { command: Command },
    ListDue,
    Rotate { name: String },
    Finish,
    Fail,
}

/// What came of an action.
pub enum RotationEvent {
    Applied { ok: bool },
    Listed { names: Vec<String> },
    Rotated { ok: bool },
}

pub enum TickView {
    Expiring,
    Listing,
    Rotating { left: Seq<Seq<char>> },
    Done,
    Failed,
}

pub enum ActionView {
    Apply { command: CommandView },
    ListDue,
    Rotate { name: Seq<char> },
    Finish,
    Fail,
}

pub enum EventView {
    Applied { ok: bool },
    Listed { names: Seq<Seq<char>> },
    Rotated { ok: bool },
}

impl View for RotationTick {
    type V = TickView;

    open spec fn view(&self) -> TickView {
        match self {
            RotationTick::Expiring => TickView::Expiring,
            RotationTick::Listing => TickView::Listing,
            RotationTick::Rotating { names } => TickView::Rotating {
                left: views(names.items()).skip(names.done()),
            },
            RotationTick::Done => TickView::Done,
            RotationTick::Failed => TickView::Failed,
        }
    }
}

impl View for RotationAction {
    type V = ActionView;

    open spec fn view(&self) -> ActionView {
        match self {
            RotationAction::Apply { command } => ActionView::Apply { command: command@ },
            RotationAction::ListDue => ActionView::ListDue,
            RotationAction::Rotate { name } => ActionView::Rotate { name: name@ },
            RotationAction::Finish => ActionView::Finish,
            RotationAction::Fail => ActionView::Fail,
        }
    }
}

impl View for RotationEvent {
    type V = EventView;

    open spec fn view(&self) -> EventView {
        match self {
            RotationEvent::Applied { ok } => EventView::Applied { ok: *ok },
            RotationEvent::Listed { names } => EventView::Listed { names: views(names@) },
            RotationEvent::Rotated { ok } => EventView::Rotated { ok: *ok },
        }
    }
}

/// How a tick starts: a node that does not lead has nothing to do.
pub open spec fn first_tick(leader: bool) -> TickView {
    if leader {
        TickView::Expiring
    } else {
        TickView::Done
    }
}

/// What a tick does next.
pub open spec fn action_of(tick: TickView, now: i64) -> ActionView {
    match tick {
        TickView::Expiring => ActionView::Apply {
            command: CommandView::ExpireGraceVersions { now },
        },
        TickView::Listing => ActionView::ListDue,
        TickView::Rotating { left } => if left.len() > 0 {
            ActionView::Rotate { name: left[0] }
        } else {
            ActionView::Finish
        },
        TickView::Done => ActionView::Finish,
        TickView::Failed => ActionView::Fail,
    }
}

/// Where an event leaves a tick. A command that is not applied ends it; a rotation that fails does
/// not. An event that is not the answer to the tick's action changes nothing.
pub open spec fn after_event(tick: TickView, event: EventView) -> TickView {
    match (tick, event) {
        (TickView::Expiring, EventView::Applied { ok }) => if ok {
            TickView::Listing
        } else {
            TickView::Failed
        },
        (TickView::Listing, EventView::Listed { names }) => TickView::Rotating { left: names },
        (TickView::Rotating { left }, EventView::Rotated { ok }) => if left.len() > 0 {
            TickView::Rotating { left: left.skip(1) }
        } else {
            tick
        },
        _ => tick,
    }
}

impl RotationTick {
    /// Starts a tick.
    pub fn begin(leader: bool) -> (r: RotationTick)
        ensures
            r@ == first_tick(leader),
    {
        if leader {
            RotationTick::Expiring
        } else {
            RotationTick::Done
        }
    }

    /// What to do next.
    pub fn action(&self, now: i64) -> (r: RotationAction)
        ensures
            r@ == action_of(self@, now),
    {
        match self {
            RotationTick::Expiring => RotationAction::Apply { command: expire_command(now) },
            RotationTick::Listing => RotationAction::ListDue,
            RotationTick::Rotating { names } => match names.current() {
                Some(name) => RotationAction::Rotate { name: name.clone() },
                None => RotationAction::Finish,
            },
            RotationTick::Done => RotationAction::Finish,
            RotationTick::Failed => RotationAction::Fail,
        }
    }

    /// Goes on after an action.
    pub fn note(self, event: RotationEvent) -> (r: RotationTick)
        ensures
            r@ == after_event(self@, event@),
    {
        match (self, event) {
            (RotationTick::Expiring, RotationEvent::Applied { ok }) => if ok {
                RotationTick::Listing
            } else {
                RotationTick::Failed
            },
            (RotationTick::Listing, RotationEvent::Listed { names }) => {
                assert(views(names@).skip(0) =~= views(names@));
                RotationTick::Rotating { names: Cursor::new(names) }
            },
            (RotationTick::Rotating { names }, RotationEvent::Rotated { ok }) => {
                let mut names = names;
                let ghost left = self@->left;
                names.advance();
                assert(left.len() > 0 ==> left.skip(1) =~= views(names.items()).skip(
                    names.done(),
                ));
                RotationTick::Rotating { names }
            },
            (tick, _) => tick,
        }
    }
}

/// Where rotations with the given outcomes leave a tick.
pub open spec fn after_rotations(tick: TickView, outcomes: Seq<bool>) -> TickView
    decreases outcomes.len(),
{
    if outcomes.len() == 0 {
        tick
    } else {
        after_event(
            after_rotations(tick, outcomes.drop_last()),
            EventView::Rotated { ok: outcomes.last() },
        )
    }
}

/// Each due secret is rotated, once and in turn, and the tick then ends without an error, whatever
/// came of the rotations before.
pub proof fn law_failed_rotations_stop_nothing(
    names: Seq<Seq<char>>,
    outcomes: Seq<bool>,
    now: i64,
)
    requires
        outcomes.len() <= names.len(),
    ensures
        action_of(after_rotations(TickView::Rotating { left: names }, outcomes), now) == (
        if outcomes.len() < names.len() {
            ActionView::Rotate { name: names[outcomes.len() as int] }
        } else {
            ActionView::Finish
        }),
{
    lemma_names_left(names, outcomes);
}

proof fn lemma_names_left(names: Seq<Seq<char>>, outcomes: Seq<bool>)
    requires
        outcomes.len() <= names.len(),
    ensures
        after_rotations(TickView::Rotating { left: names }, outcomes) == (TickView::Rotating {
            left: names.skip(outcomes.len() as int),
        }),
    decreases outcomes.len(),
{
    if outcomes.len() > 0 {
        let done = outcomes.len() - 1;
        lemma_names_left(names, outcomes.drop_last());
        assert(names.skip(done).skip(1) =~= names.skip(done + 1));
    } else {
        assert(names.skip(0) =~= names);
    }
}

/// A node that leads expires versions first, then rotates the secrets that are due: those it lists
/// after versions have expired.
pub proof fn law_leader_tick(names: Seq<Seq<char>>, now: i64)
    ensures
        ({
            let start = first_tick(true);
            let expired = after_event(start, EventView::Applied { ok: true });
            let listed = after_event(expired, EventView::Listed { names });
            &&& action_of(start, now) == (ActionView::Apply {
                command: CommandView::ExpireGraceVersions { now },
            })
            &&& action_of(expired, now) == ActionView::ListDue
            &&& listed == (TickView::Rotating { left: names })
        }),
{
}

} // verus!
