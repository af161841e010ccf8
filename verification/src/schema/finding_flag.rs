//! Finding common-row `flags:u8` bits (finding record offset 14).

use vstd::prelude::*;

verus! {

/// Set = anchor-only fidelity; clear = exact.
pub const ANCHOR_ONLY: u8 = 1;
/// Set = the finding has no SID at all.
pub const NO_ANCHOR: u8 = 2;
/// Set = the row's range-end byte is meaningful (a verse bridge).
pub const RANGE: u8 = 4;
pub const RELATED: u8 = 8;
pub const PAYLOAD: u8 = 16;
pub const FIX: u8 = 32;
/// Set = the overflow-span sidecar supersedes the row's `u16` offset and length.
pub const OVERFLOW: u8 = 64;

/// Bit 7 is reserved and zero in v1.
pub const KNOWN: u8 = 0x7f;

} // verus!
