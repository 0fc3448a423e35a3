//! Demand-population of a memory region on first access.
//!
//! The library models the protocol behind lazily-backed memory: a guarded
//! region whose pages become readable only after a fault has been resolved,
//! either by zero-filling or by exposing bytes staged through a shadow
//! mapping of the same backing store. The fault monitor's decisions are
//! verified here; the harness that talks to the kernel lives outside.

use vstd::prelude::*;

pub mod config;
pub mod errors;
pub mod event;
pub mod monitor;
pub mod region;

verus! {

/// Size of one page in bytes.
pub const PAGE_SIZE: usize = 4096;

/// Checks that a size is a positive whole multiple of the page size.
pub fn is_valid_region_size(size: usize) -> (r: bool)
    ensures
        r == crate::region::valid_size(size as int),
{
    size > 0 && size % PAGE_SIZE == 0
}

} // verus!
