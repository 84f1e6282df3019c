//! Socket families served by the in-process transport.
use vstd::prelude::*;

verus! {

/// Socket families targeted first by the inproc transport.
#[derive(Clone, Copy, Debug, PartialEq, Eq, Structural)]
pub enum SocketMigrationFamily {
    Pair,
    ReqRep,
    PubSub,
    DealerRouter,
    PushPull,
}

pub const INPROC_FIRST_FAMILIES: [SocketMigrationFamily; 5] = [
    SocketMigrationFamily::Pair,
    SocketMigrationFamily::ReqRep,
    SocketMigrationFamily::PubSub,
    SocketMigrationFamily::DealerRouter,
    SocketMigrationFamily::PushPull,
];

} // verus!
