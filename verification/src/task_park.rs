//! The one-slot rendezvous cell through which the two ends of a queue wake
//! each other.

use vstd::prelude::*;

verus! {

/// The handle by which a suspended task is woken.
pub type TaskId = usize;

/// The state of a task park.
#[derive(Debug, Clone, Copy, PartialEq, Eq, Structural)]
pub enum TaskParkState {
    /// Nobody is parked and no wake-up is pending.
    Empty,
    /// One task is waiting to be notified.
    Parked(TaskId),
    /// A wake-up was raised while nobody was parked; whoever parks next
    /// notifies itself instead.
    IndirectNotify,
    /// The peer has terminated. This state is never left.
    Dead,
}

/// What becomes of a park in state `state` when task `me` parks in it, and
/// which task is to be notified.
///
/// A task parked before gives way to `me` and is notified. On a pending
/// wake-up or a dead peer `me` does not stay parked: it is notified itself.
pub open spec fn park_transition(state: TaskParkState, me: TaskId) -> (TaskParkState, Option<TaskId>) {
    match state {
        TaskParkState::Empty => (TaskParkState::Parked(me), None),
        TaskParkState::Parked(other) => if other == me {
            (TaskParkState::Parked(me), None)
        } else {
            (TaskParkState::Parked(me), Some(other))
        },
        TaskParkState::IndirectNotify => (TaskParkState::Empty, Some(me)),
        TaskParkState::Dead => (TaskParkState::Dead, Some(me)),
    }
}

/// What becomes of a park in state `state` when a wake-up is raised, and
/// which task is to be notified.
pub open spec fn unpark_transition(state: TaskParkState) -> (TaskParkState, Option<TaskId>) {
    match state {
        TaskParkState::Empty => (TaskParkState::IndirectNotify, None),
        TaskParkState::Parked(other) => (TaskParkState::Empty, Some(other)),
        TaskParkState::IndirectNotify => (TaskParkState::IndirectNotify, None),
        TaskParkState::Dead => (TaskParkState::Dead, None),
    }
}

/// What becomes of a park in state `state` when an end of its queue
/// terminates, and which task is to be notified.
pub open spec fn die_transition(state: TaskParkState) -> (TaskParkState, Option<TaskId>) {
    match state {
        TaskParkState::Parked(other) => (TaskParkState::Dead, Some(other)),
        _ => (TaskParkState::Dead, None),
    }
}

/// The task to notify, if any, as a list.
pub open spec fn woken(wake: Option<TaskId>) -> Seq<TaskId> {
    match wake {
        Some(task) => seq![task],
        None => Seq::empty(),
    }
}

/// A one-slot cell that holds at most one parked task.
pub struct TaskPark {
    state: TaskParkState,
}

impl View for TaskPark {
    type V = TaskParkState;

    closed spec fn view(&self) -> TaskParkState {
        self.state
    }
}

impl TaskPark {
    /// A park in which nobody waits.
    pub fn new() -> (park: Self)
        ensures
            park@ == TaskParkState::Empty,
    {
        TaskPark { state: TaskParkState::Empty }
    }

    /// The state of the park.
    pub fn state(&self) -> (state: TaskParkState)
        ensures
            state == self@,
    {
        self.state
    }

    /// Whether the peer has terminated.
    pub fn is_dead(&self) -> (dead: bool)
        ensures
            dead == (self@ == TaskParkState::Dead),
    {
        match self.state {
            TaskParkState::Dead => true,
            _ => false,
        }
    }
}

/// Parks task `me` in `park` and returns the task to notify, if any.
pub fn park_and_notify(park: &mut TaskPark, me: TaskId) -> (wake: Option<TaskId>)
    ensures
        (final(park)@, wake) == park_transition(old(park)@, me),
{
    match park.state {
        TaskParkState::Empty => {
            park.state = TaskParkState::Parked(me);
            None
        },
        TaskParkState::Parked(other) => {
            park.state = TaskParkState::Parked(me);
            if other == me {
                None
            } else {
                Some(other)
            }
        },
        TaskParkState::IndirectNotify => {
            park.state = TaskParkState::Empty;
            Some(me)
        },
        TaskParkState::Dead => Some(me),
    }
}

/// Raises a wake-up on `park` and returns the task to notify, if one was
/// parked.
pub fn unpark_and_notify(park: &mut TaskPark) -> (wake: Option<TaskId>)
    ensures
        (final(park)@, wake) == unpark_transition(old(park)@),
{
    match park.state {
        TaskParkState::Empty => {
            park.state = TaskParkState::IndirectNotify;
            None
        },
        TaskParkState::Parked(other) => {
            park.state = TaskParkState::Empty;
            Some(other)
        },
        TaskParkState::IndirectNotify => None,
        TaskParkState::Dead => None,
    }
}

/// Marks `park` dead and returns the task to release, if one was parked.
pub fn die_and_notify(park: &mut TaskPark) -> (wake: Option<TaskId>)
    ensures
        (final(park)@, wake) == die_transition(old(park)@),
{
    let wake = match park.state {
        TaskParkState::Parked(other) => Some(other),
        _ => None,
    };
    park.state = TaskParkState::Dead;
    wake
}

/// `Dead` is terminal: no parking and no wake-up leaves it.
pub proof fn lemma_dead_is_terminal(me: TaskId)
    ensures
        park_transition(TaskParkState::Dead, me).0 == TaskParkState::Dead,
        unpark_transition(TaskParkState::Dead).0 == TaskParkState::Dead,
        die_transition(TaskParkState::Dead).0 == TaskParkState::Dead,
{
}

/// No wake-up is lost: a task that parks is notified at once, or it is the
/// task that the next wake-up or the peer's death notifies.
pub proof fn lemma_no_lost_wakeup(state: TaskParkState, me: TaskId)
    ensures
        ({
            let (parked, at_once) = park_transition(state, me);
            at_once == Some(me) || (unpark_transition(parked).1 == Some(me) && die_transition(
                parked,
            ).1 == Some(me))
        }),
{
}

/// A wake-up raised while nobody is parked is kept: the task that parks next
/// is notified at once.
pub proof fn lemma_early_wakeup_is_kept(state: TaskParkState, me: TaskId)
    requires
        state == TaskParkState::Empty || state == TaskParkState::IndirectNotify,
    ensures
        park_transition(unpark_transition(state).0, me).1 == Some(me),
{
}

/// A wake-up notifies a task at most once: after it nobody is parked.
pub proof fn lemma_wakeup_empties(state: TaskParkState)
    ensures
        !(unpark_transition(state).0 is Parked),
        !(die_transition(state).0 is Parked),
        unpark_transition(unpark_transition(state).0).1.is_none(),
{
}

} // verus!
