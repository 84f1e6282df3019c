//! The in-process transport.
use vstd::prelude::*;

verus! {

/// URI scheme of the in-process transport.
pub const INPROC_SCHEME: &'static str = "inproc";

} // verus!
