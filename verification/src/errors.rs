//! The error taxonomy of the demand-paging core.
//!
//! Every error here is fatal except `ResolutionError::Busy`, which is
//! transient and must be retried by the fault monitor.

use vstd::prelude::*;

verus! {

/// Sizing the backing store failed; fatal, never retried.
#[derive(Clone, Copy, Debug, PartialEq, Eq)]
pub enum AllocationError {
    /// The requested size is not a positive whole multiple of the page size.
    InvalidSize,
}

/// Mapping the backing store into the address space failed; fatal.
///
/// The model never exhausts an address space, so this arises only in the
/// harness that performs real mappings.
#[derive(Clone, Copy, Debug, PartialEq, Eq)]
pub enum MappingError {
    /// The size cannot be mapped on this platform.
    UnsupportedSize,
    /// No free range of virtual addresses was large enough.
    AddressSpaceExhausted,
}

/// A requested fault class or feature flag the running kernel does not
/// offer; fatal at startup, by design: the system must not silently degrade
/// its fault semantics.
#[derive(Clone, Copy, Debug, PartialEq, Eq)]
pub struct UnsupportedFeatureError;

/// A resolution action failed.
#[derive(Clone, Copy, Debug, PartialEq, Eq)]
pub enum ResolutionError {
    /// Transient: the range is being resolved concurrently; retry.
    Busy,
    /// Permanent: the range is invalid, unregistered, or already resolved.
    Invalid,
}

} // verus!
