//! The life of a session: begun, started, stopped. It only goes forward.

use vstd::prelude::*;

verus! {

/// Where a session stands in its life.
#[derive(Clone, Copy, Debug, PartialEq, Eq, Structural)]
pub enum CoreStatus {
    /// Set up, and not started yet.
    Initiated,
    /// At work.
    Started,
    /// Stopped, for good.
    Stopped,
}

impl CoreStatus {
    /// How far the session has come: 0, 1 or 2.
    pub open spec fn rank(self) -> nat {
        match self {
            CoreStatus::Initiated => 0,
            CoreStatus::Started => 1,
            CoreStatus::Stopped => 2,
        }
    }

    /// The status after a start, where a start is in order: only a session
    /// that was set up and never started can start.
    pub open spec fn started(self) -> Option<CoreStatus> {
        match self {
            CoreStatus::Initiated => Some(CoreStatus::Started),
            _ => None,
        }
    }

    /// Starts the session, or gives nothing for a session that was started
    /// before: to start twice, or after a stop, is an error of the caller.
    pub fn start(self) -> (next: Option<CoreStatus>)
        ensures
            next == self.started(),
    {
        match self {
            CoreStatus::Initiated => Some(CoreStatus::Started),
            _ => None,
        }
    }

    /// Stops the session, wherever it stands.
    pub fn stop(self) -> (next: CoreStatus)
        ensures
            next == CoreStatus::Stopped,
    {
        CoreStatus::Stopped
    }

    /// Whether the session was stopped: the loops then end.
    pub fn is_stopped(self) -> (b: bool)
        ensures
            b == (self == CoreStatus::Stopped),
    {
        match self {
            CoreStatus::Stopped => true,
            _ => false,
        }
    }

    /// A session only goes forward: a start brings it further, a stop never
    /// brings it back, and nothing starts what was stopped.
    pub proof fn lemma_forward(self)
        ensures
            self.started() is Some ==> self.started()->0.rank() > self.rank(),
            CoreStatus::Stopped.rank() >= self.rank(),
            CoreStatus::Stopped.started() is None,
    {
    }
}

} // verus!
