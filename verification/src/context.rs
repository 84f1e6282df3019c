use vstd::prelude::*;

verus! {

/// Lifecycle states of a ZeroMQ context.
#[derive(Clone, Copy, Debug, PartialEq, Eq, Structural)]
pub enum ContextState {
    Running,
    ShuttingDown,
    Terminating,
    Terminated,
}

impl ContextState {
    /// State reached by a shutdown request: a running context starts shutting
    /// down, every other state is left as it is.
    pub open spec fn spec_shutdown(self) -> ContextState {
        match self {
            ContextState::Running => ContextState::ShuttingDown,
            other => other,
        }
    }

    /// State reached by a terminate request: everything but an already
    /// terminated context moves to `Terminating`.
    pub open spec fn spec_terminate(self) -> ContextState {
        match self {
            ContextState::Terminated => ContextState::Terminated,
            _ => ContextState::Terminating,
        }
    }

    pub fn shutdown(self) -> (next: Self)
        ensures
            next == self.spec_shutdown(),
    {
        match self {
            ContextState::Running => ContextState::ShuttingDown,
            other => other,
        }
    }

    pub fn terminate(self) -> (next: Self)
        ensures
            next == self.spec_terminate(),
    {
        match self {
            ContextState::Terminated => ContextState::Terminated,
            _ => ContextState::Terminating,
        }
    }
}

/// A second shutdown request changes nothing: shutdown is idempotent.
pub proof fn lemma_shutdown_idempotent(s: ContextState)
    ensures
        s.spec_shutdown().spec_shutdown() == s.spec_shutdown(),
{
}

/// A second terminate request changes nothing: terminate is idempotent.
pub proof fn lemma_terminate_idempotent(s: ContextState)
    ensures
        s.spec_terminate().spec_terminate() == s.spec_terminate(),
{
}

/// Shutting down first does not change where a terminate request leads.
pub proof fn lemma_terminate_after_shutdown(s: ContextState)
    ensures
        s.spec_shutdown().spec_terminate() == s.spec_terminate(),
{
}

/// No request ever leads a context back to `Running`, and a terminated
/// context stays terminated.
pub proof fn lemma_no_return_to_running(s: ContextState)
    ensures
        s.spec_shutdown() != ContextState::Running,
        s.spec_terminate() != ContextState::Running,
        s == ContextState::Terminated ==> s.spec_shutdown() == ContextState::Terminated
            && s.spec_terminate() == ContextState::Terminated,
{
}

} // verus!
