//! Verified core of the ZeroMQ library in Rust: the Z85 text codec, the utility
//! counter, context lifecycle transitions and message planning.

pub mod atomic_counter;
pub mod context;
pub mod inproc;
pub mod message;
pub mod poller;
pub mod socket;
pub mod version;
pub mod z85;
pub mod z85_spec;
pub mod zmtp;

use vstd::prelude::*;

verus! {

/// Version number reported by the link probe symbol.
pub const RUST_REWRITE_PROBE_VERSION: u32 = 1;

} // verus!
