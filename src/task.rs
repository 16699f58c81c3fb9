//! The lifecycle of one hologram's task, as a machine from state and event to
//! next state and the step to take.
//!
//! A provisioned task serves: it waits for a reader to open the pipe, then runs
//! one producer into it and waits for that producer to exit, over and over.
//! Cancellation, or a failed open, ends serving; a producer already running is
//! not killed. Draining reads the pipe once, to release any reader still
//! waiting, after which the pipe node is deleted and the task is done.

use vstd::prelude::*;

verus! {

#[derive(PartialEq, Eq, Structural, Clone, Copy, Debug)]
pub enum TaskState {
    /// Serving, waiting for a reader to open the pipe.
    Waiting,
    /// Serving, with a producer writing into the pipe.
    Producing,
    /// Serving is over; the pipe is being read once.
    Draining,
    /// The pipe node is gone; nothing follows.
    Removed,
}

#[derive(PartialEq, Eq, Structural, Clone, Copy, Debug)]
pub enum TaskEvent {
    /// A reader opened the pipe, and the write end is open.
    Opened,
    /// Opening the pipe for writing failed.
    OpenFailed,
    /// The producer of the current open exited.
    ProducerExited,
    /// The task was asked to end.
    Cancelled,
    /// The pipe was read to its end.
    Drained,
}

#[derive(PartialEq, Eq, Structural, Clone, Copy, Debug)]
pub enum TaskStep {
    /// Open the pipe for writing, waiting for a reader.
    OpenForWrite,
    /// Run the command with its output going to the open write end.
    SpawnProducer,
    /// Read the pipe to its end.
    ReadAll,
    /// Delete the pipe node.
    DeletePipe,
    /// Nothing: the event has no bearing in this state.
    Nothing,
}

/// The phases that a task goes through in order: serving (0), draining
/// (1), removed (2).
pub open spec fn phase(s: TaskState) -> int {
    match s {
        TaskState::Waiting => 0,
        TaskState::Producing => 0,
        TaskState::Draining => 1,
        TaskState::Removed => 2,
    }
}

/// The transition for `event` in state `s`.
pub open spec fn transition(s: TaskState, event: TaskEvent) -> (TaskState, TaskStep) {
    match (s, event) {
        (TaskState::Waiting, TaskEvent::Opened) => (TaskState::Producing, TaskStep::SpawnProducer),
        (TaskState::Waiting, TaskEvent::OpenFailed) => (TaskState::Draining, TaskStep::ReadAll),
        (TaskState::Waiting, TaskEvent::Cancelled) => (TaskState::Draining, TaskStep::ReadAll),
        (TaskState::Producing, TaskEvent::ProducerExited) => (
            TaskState::Waiting,
            TaskStep::OpenForWrite,
        ),
        (TaskState::Producing, TaskEvent::Cancelled) => (TaskState::Draining, TaskStep::ReadAll),
        (TaskState::Draining, TaskEvent::Drained) => (TaskState::Removed, TaskStep::DeletePipe),
        _ => (s, TaskStep::Nothing),
    }
}

impl TaskState {
    /// The state of a task whose pipe node was just created, and its first step.
    pub fn start() -> (r: (TaskState, TaskStep))
        ensures
            r == (TaskState::Waiting, TaskStep::OpenForWrite),
    {
        (TaskState::Waiting, TaskStep::OpenForWrite)
    }

    /// The next state and the step to take on `event`.
    pub fn next(self, event: TaskEvent) -> (r: (TaskState, TaskStep))
        ensures
            r == transition(self, event),
    {
        match (self, event) {
            (TaskState::Waiting, TaskEvent::Opened) => (
                TaskState::Producing,
                TaskStep::SpawnProducer,
            ),
            (TaskState::Waiting, TaskEvent::OpenFailed) => (TaskState::Draining, TaskStep::ReadAll),
            (TaskState::Waiting, TaskEvent::Cancelled) => (TaskState::Draining, TaskStep::ReadAll),
            (TaskState::Producing, TaskEvent::ProducerExited) => (
                TaskState::Waiting,
                TaskStep::OpenForWrite,
            ),
            (TaskState::Producing, TaskEvent::Cancelled) => (
                TaskState::Draining,
                TaskStep::ReadAll,
            ),
            (TaskState::Draining, TaskEvent::Drained) => (TaskState::Removed, TaskStep::DeletePipe),
            _ => (self, TaskStep::Nothing),
        }
    }

    /// Whether the task has reached its end.
    pub fn is_removed(self) -> (r: bool)
        ensures
            r == (self == TaskState::Removed),
    {
        self == TaskState::Removed
    }
}

/// A task only moves forward: no event takes it back to an earlier phase, and
/// a removed task stays removed and does nothing.
pub proof fn lemma_lifecycle_forward(s: TaskState, event: TaskEvent)
    ensures
        phase(transition(s, event).0) >= phase(s),
        s == TaskState::Removed ==> transition(s, event) == (s, TaskStep::Nothing),
{
}

/// Once serving is over, no event opens the pipe for writing or starts a
/// producer again.
pub proof fn lemma_no_production_after_serving(s: TaskState, event: TaskEvent)
    requires
        phase(s) >= 1,
    ensures
        transition(s, event).1 != TaskStep::OpenForWrite,
        transition(s, event).1 != TaskStep::SpawnProducer,
{
}

/// Serving repeats: after a reader's open has run its producer to the end, the
/// task waits for the next open and runs a fresh producer for it.
pub proof fn lemma_serving_repeats()
    ensures
        transition(TaskState::Waiting, TaskEvent::Opened) == (
            TaskState::Producing,
            TaskStep::SpawnProducer,
        ),
        transition(TaskState::Producing, TaskEvent::ProducerExited) == (
            TaskState::Waiting,
            TaskStep::OpenForWrite,
        ),
{
}

/// Ending a serving task takes it, through one read of its pipe, to removal,
/// with the pipe node deleted last. Nothing in between kills a producer that
/// is running: the read ends when it has finished writing.
pub proof fn lemma_end_reaches_removed(s: TaskState)
    requires
        phase(s) == 0,
    ensures
        ({
            let (d, first) = transition(s, TaskEvent::Cancelled);
            &&& first == TaskStep::ReadAll
            &&& transition(d, TaskEvent::Drained) == (TaskState::Removed, TaskStep::DeletePipe)
        }),
{
}

} // verus!
