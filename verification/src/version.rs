//! The libzmq version, as in `include/zmq.h`.
use vstd::prelude::*;

verus! {

pub const VERSION_MAJOR: i32 = 4;

pub const VERSION_MINOR: i32 = 3;

pub const VERSION_PATCH: i32 = 6;

#[derive(Clone, Copy, Debug, PartialEq, Eq, Structural)]
pub struct Version {
    pub major: i32,
    pub minor: i32,
    pub patch: i32,
}

pub fn version() -> (v: Version)
    ensures
        v.major == VERSION_MAJOR,
        v.minor == VERSION_MINOR,
        v.patch == VERSION_PATCH,
{
    Version { major: VERSION_MAJOR, minor: VERSION_MINOR, patch: VERSION_PATCH }
}

} // verus!
