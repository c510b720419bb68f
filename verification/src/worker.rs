//! One worker of the pool: the messages it is sent, and what it does with
//! them.

use vstd::prelude::*;

verus! {

/// What goes through the dispatch channel: a job to run, or the order to
/// stop.
pub enum Message<J> {
    NewJob(J),
    Terminate,
}

impl<J> Message<J> {
    /// Whether the message carries a job.
    pub open spec fn is_job(self) -> bool {
        self is NewJob
    }
}

/// Where a worker stands in its loop.
#[derive(Clone, Copy, Debug, PartialEq, Eq, Structural)]
pub enum WorkerState {
    /// Between two messages, not holding the receive lock.
    Idle,
    /// Holding the receive lock and waiting for the next message.
    Dequeuing,
    /// Running a job; the receive lock is released.
    Running,
    /// Told to stop; the thread has left its loop.
    Terminated,
}

/// What happened to a worker.
pub enum Event<J> {
    /// It was granted the receive lock.
    LockTaken,
    /// It received a message and released the lock.
    Received(Message<J>),
    /// The job it was running came to its end.
    JobDone,
}

/// What a worker does next.
pub enum Action<J> {
    /// Ask for the receive lock.
    TakeLock,
    /// Wait for the next message.
    Receive,
    /// Run the job, once.
    Run(J),
    /// Leave the loop.
    Exit,
}

impl WorkerState {
    /// The state that follows `self` when a worker in it is granted the
    /// receive lock, if it may be.
    pub open spec fn after_lock(self) -> Option<WorkerState> {
        if self == WorkerState::Idle {
            Some(WorkerState::Dequeuing)
        } else {
            None
        }
    }

    /// The state that follows `self` when a worker in it receives a message
    /// that is, or is not, a job.
    pub open spec fn after_message(self, is_job: bool) -> Option<WorkerState> {
        if self == WorkerState::Dequeuing {
            if is_job {
                Some(WorkerState::Running)
            } else {
                Some(WorkerState::Terminated)
            }
        } else {
            None
        }
    }

    /// The state that follows `self` when the job of a worker in it ends.
    pub open spec fn after_job(self) -> Option<WorkerState> {
        if self == WorkerState::Running {
            Some(WorkerState::Idle)
        } else {
            None
        }
    }

    /// The state that follows `self` on `event`, if there is such a
    /// transition.
    pub open spec fn next<J>(self, event: Event<J>) -> Option<WorkerState> {
        match event {
            Event::LockTaken => self.after_lock(),
            Event::Received(message) => self.after_message(message.is_job()),
            Event::JobDone => self.after_job(),
        }
    }

    /// What a worker does on `event`.
    pub open spec fn action<J>(event: Event<J>) -> Action<J> {
        match event {
            Event::LockTaken => Action::Receive,
            Event::Received(Message::NewJob(job)) => Action::Run(job),
            Event::Received(Message::Terminate) => Action::Exit,
            Event::JobDone => Action::TakeLock,
        }
    }

    /// The state in which a worker starts.
    pub fn start() -> (s: WorkerState)
        ensures
            s == WorkerState::Idle,
    {
        WorkerState::Idle
    }

    /// One turn of the worker's loop: the state that follows and what the
    /// worker is to do, or, where no transition leaves `self` on `event`,
    /// the event as it came.
    pub fn step<J>(self, event: Event<J>) -> (r: Result<(WorkerState, Action<J>), Event<J>>)
        ensures
            match self.next(event) {
                Some(state) => r == Ok::<(WorkerState, Action<J>), Event<J>>(
                    (state, WorkerState::action(event)),
                ),
                None => r == Err::<(WorkerState, Action<J>), Event<J>>(event),
            },
    {
        match (self, event) {
            (WorkerState::Idle, Event::LockTaken) => Ok((WorkerState::Dequeuing, Action::Receive)),
            (WorkerState::Dequeuing, Event::Received(Message::NewJob(job))) => Ok(
                (WorkerState::Running, Action::Run(job)),
            ),
            (WorkerState::Dequeuing, Event::Received(Message::Terminate)) => Ok(
                (WorkerState::Terminated, Action::Exit),
            ),
            (WorkerState::Running, Event::JobDone) => Ok((WorkerState::Idle, Action::TakeLock)),
            (_, event) => Err(event),
        }
    }
}

} // verus!
