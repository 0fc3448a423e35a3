//! Fault registration: binding a guarded region to a fault channel with a
//! chosen set of fault classes and auxiliary event features.

use vstd::prelude::*;

use crate::errors::UnsupportedFeatureError;
use crate::region::valid_size;

verus! {

/// The auxiliary event deliveries a registration may request.
#[derive(Clone, Copy, Debug, PartialEq, Eq, Structural)]
pub struct FeatureFlags {
    pub event_remove: bool,
    pub event_remap: bool,
    pub event_fork: bool,
    pub event_unmap: bool,
    pub missing_shmem: bool,
    pub minor_shmem: bool,
    pub pagefault_flag_wp: bool,
}

/// The fault classes a registration may intercept.
#[derive(Clone, Copy, Debug, PartialEq, Eq, Structural)]
pub struct FaultClasses {
    /// First-touch faults on pages with no backing content.
    pub missing: bool,
    /// Faults on pages whose backing content exists but is not yet present.
    pub minor: bool,
    /// Writes to write-protected pages.
    pub write_protect: bool,
}

/// What the running kernel offers.
#[derive(Clone, Copy, Debug, PartialEq, Eq, Structural)]
pub struct KernelSupport {
    pub features: FeatureFlags,
    pub classes: FaultClasses,
}

/// Every feature of `req` is offered by `sup`.
pub open spec fn features_supported(req: FeatureFlags, sup: FeatureFlags) -> bool {
    &&& req.event_remove ==> sup.event_remove
    &&& req.event_remap ==> sup.event_remap
    &&& req.event_fork ==> sup.event_fork
    &&& req.event_unmap ==> sup.event_unmap
    &&& req.missing_shmem ==> sup.missing_shmem
    &&& req.minor_shmem ==> sup.minor_shmem
    &&& req.pagefault_flag_wp ==> sup.pagefault_flag_wp
}

/// Every fault class of `req` is offered by `sup`.
pub open spec fn classes_supported(req: FaultClasses, sup: FaultClasses) -> bool {
    &&& req.missing ==> sup.missing
    &&& req.minor ==> sup.minor
    &&& req.write_protect ==> sup.write_protect
}

/// A completed registration: the guarded range is bound to the fault
/// channel with these classes and features.
#[derive(Clone, Copy, Debug, PartialEq, Eq, Structural)]
pub struct Registration {
    /// Size in bytes of the registered range.
    pub size: usize,
    pub classes: FaultClasses,
    pub features: FeatureFlags,
}

/// Binds a guarded range of `size` bytes to the fault channel, intercepting
/// the given fault classes and requesting the given features. Fails, before
/// anything is exposed to consumers, when the kernel lacks any requested
/// class or feature.
pub fn register(
    support: KernelSupport,
    size: usize,
    classes: FaultClasses,
    features: FeatureFlags,
) -> (r: Result<Registration, UnsupportedFeatureError>)
    requires
        valid_size(size as int),
    ensures
        r is Ok <==> features_supported(features, support.features) && classes_supported(
            classes,
            support.classes,
        ),
        r matches Ok(reg) ==> reg == (Registration { size, classes, features }),
{
    let features_ok = (!features.event_remove || support.features.event_remove)
        && (!features.event_remap || support.features.event_remap)
        && (!features.event_fork || support.features.event_fork)
        && (!features.event_unmap || support.features.event_unmap)
        && (!features.missing_shmem || support.features.missing_shmem)
        && (!features.minor_shmem || support.features.minor_shmem)
        && (!features.pagefault_flag_wp || support.features.pagefault_flag_wp);
    let classes_ok = (!classes.missing || support.classes.missing)
        && (!classes.minor || support.classes.minor)
        && (!classes.write_protect || support.classes.write_protect);
    if features_ok && classes_ok {
        Ok(Registration { size, classes, features })
    } else {
        Err(UnsupportedFeatureError)
    }
}

} // verus!
