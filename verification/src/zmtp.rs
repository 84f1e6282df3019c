//! ZMTP wire protocol versions.
use vstd::prelude::*;

verus! {

/// ZMTP versions (major, minor) that stay wire-compatible.
pub const SUPPORTED_ZMTP_VERSIONS: [(u8, u8); 4] = [(1, 0), (2, 0), (3, 0), (3, 1)];

} // verus!
