use demand_paging::config::register;
use demand_paging::config::FaultClasses;
use demand_paging::config::FeatureFlags;
use demand_paging::config::KernelSupport;
use demand_paging::config::Registration;
use demand_paging::errors::UnsupportedFeatureError;
use demand_paging::PAGE_SIZE;

const REGION_SIZE: usize = 4 * PAGE_SIZE;

fn all_features() -> FeatureFlags {
    FeatureFlags {
        event_remove: true,
        event_remap: true,
        event_fork: true,
        event_unmap: true,
        missing_shmem: true,
        minor_shmem: true,
        pagefault_flag_wp: true,
    }
}

fn all_classes() -> FaultClasses {
    FaultClasses { missing: true, minor: true, write_protect: true }
}

fn full_support() -> KernelSupport {
    KernelSupport { features: all_features(), classes: all_classes() }
}

#[test]
fn registration_with_supported_features_succeeds() {
    let reg = register(full_support(), REGION_SIZE, all_classes(), all_features()).unwrap();
    assert_eq!(
        reg,
        Registration { size: REGION_SIZE, classes: all_classes(), features: all_features() }
    );
}

#[test]
fn unsupported_feature_flag_is_rejected_before_anything_is_exposed() {
    let mut support = full_support();
    support.features.event_fork = false;
    let r = register(support, REGION_SIZE, all_classes(), all_features());
    assert_eq!(r, Err(UnsupportedFeatureError));
}

#[test]
fn unsupported_fault_class_is_rejected() {
    let mut support = full_support();
    support.classes.minor = false;
    let r = register(support, REGION_SIZE, all_classes(), all_features());
    assert_eq!(r, Err(UnsupportedFeatureError));
}

#[test]
fn unrequested_features_need_no_support() {
    let support = KernelSupport {
        features: FeatureFlags {
            event_remove: true,
            event_remap: false,
            event_fork: false,
            event_unmap: false,
            missing_shmem: true,
            minor_shmem: true,
            pagefault_flag_wp: false,
        },
        classes: FaultClasses { missing: true, minor: true, write_protect: false },
    };
    let requested_features = FeatureFlags {
        event_remove: true,
        event_remap: false,
        event_fork: false,
        event_unmap: false,
        missing_shmem: true,
        minor_shmem: false,
        pagefault_flag_wp: false,
    };
    let requested_classes = FaultClasses { missing: true, minor: false, write_protect: false };
    let reg = register(support, REGION_SIZE, requested_classes, requested_features).unwrap();
    assert_eq!(reg.size, REGION_SIZE);
    assert_eq!(reg.classes, requested_classes);
    assert_eq!(reg.features, requested_features);
}
