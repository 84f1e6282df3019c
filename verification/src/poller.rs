//! Kinds of targets a poller waits on.
use vstd::prelude::*;

verus! {

/// Readiness classes the poller must preserve at the C ABI boundary.
#[derive(Clone, Copy, Debug, PartialEq, Eq, Structural)]
pub enum PollTargetKind {
    Socket,
    FileDescriptor,
}

} // verus!
