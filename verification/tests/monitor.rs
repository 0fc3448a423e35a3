use demand_paging::errors::ResolutionError;
use demand_paging::event::AccessKind;
use demand_paging::event::FaultEvent;
use demand_paging::event::FaultKind;
use demand_paging::event::Wake;
use demand_paging::monitor::after_resolution;
use demand_paging::monitor::decide;
use demand_paging::monitor::Action;
use demand_paging::monitor::FatalCause;
use demand_paging::monitor::Followup;
use demand_paging::monitor::Monitor;
use demand_paging::monitor::MonitorState;
use demand_paging::region::Region;
use demand_paging::region::TouchOutcome;
use demand_paging::PAGE_SIZE;

const REGION_SIZE: usize = 4 * PAGE_SIZE;

fn fresh_monitor() -> Monitor {
    Monitor::new(Region::create(REGION_SIZE).unwrap())
}

#[test]
fn missing_fault_is_resolved_by_zero_fill() {
    let mut monitor = fresh_monitor();
    monitor.handle(Wake::Event(FaultEvent::Pagefault {
        kind: FaultKind::Missing,
        access: AccessKind::Read,
        offset: 0,
    }));
    assert!(matches!(monitor.state, MonitorState::Waiting));
    match monitor.region.touch_guarded(0, 4) {
        TouchOutcome::Read(d) => assert_eq!(d, vec![0u8; 4]),
        TouchOutcome::Blocked { .. } => panic!("fault was not resolved"),
    }
}

#[test]
fn minor_fault_exposes_staged_bytes() {
    let mut monitor = fresh_monitor();
    monitor.region.write_shadow(0, &[1, 2, 3]);
    monitor.handle(Wake::Event(FaultEvent::Pagefault {
        kind: FaultKind::Minor,
        access: AccessKind::Read,
        offset: 0,
    }));
    assert!(matches!(monitor.state, MonitorState::Waiting));
    match monitor.region.touch_guarded(0, 3) {
        TouchOutcome::Read(d) => assert_eq!(d, vec![1, 2, 3]),
        TouchOutcome::Blocked { .. } => panic!("fault was not resolved"),
    }
}

#[test]
fn remove_event_is_recorded_and_monitor_keeps_waiting() {
    let mut monitor = fresh_monitor();
    monitor.handle(Wake::Event(FaultEvent::Remove { start: 0, end: PAGE_SIZE }));
    assert!(matches!(monitor.state, MonitorState::Waiting));
    // no resolution was issued: a touch still blocks
    assert!(matches!(
        monitor.region.touch_guarded(0, 1),
        TouchOutcome::Blocked { offset: 0, kind: FaultKind::Missing }
    ));
}

#[test]
fn unmap_event_is_fatal() {
    let mut monitor = fresh_monitor();
    monitor.handle(Wake::Event(FaultEvent::Unmap { start: 0, end: PAGE_SIZE }));
    assert!(matches!(
        monitor.state,
        MonitorState::Terminated { cause: FatalCause::UnexpectedEvent }
    ));
}

#[test]
fn fork_event_is_fatal() {
    let mut monitor = fresh_monitor();
    monitor.handle(Wake::Event(FaultEvent::Fork));
    assert!(matches!(
        monitor.state,
        MonitorState::Terminated { cause: FatalCause::UnexpectedEvent }
    ));
}

#[test]
fn channel_error_is_fatal() {
    let mut monitor = fresh_monitor();
    monitor.handle(Wake::ChannelError);
    assert!(matches!(
        monitor.state,
        MonitorState::Terminated { cause: FatalCause::ChannelError }
    ));
}

#[test]
fn resolution_failure_is_fatal() {
    let mut monitor = fresh_monitor();
    let missing = Wake::Event(FaultEvent::Pagefault {
        kind: FaultKind::Missing,
        access: AccessKind::Write,
        offset: 0,
    });
    monitor.handle(missing);
    assert!(matches!(monitor.state, MonitorState::Waiting));
    // the whole range is already resolved: the second attempt is invalid
    monitor.handle(missing);
    assert!(matches!(
        monitor.state,
        MonitorState::Terminated { cause: FatalCause::ResolutionFailed }
    ));
}

#[test]
fn decide_routes_each_event() {
    let pagefault = |kind: FaultKind| {
        Wake::Event(FaultEvent::Pagefault { kind, access: AccessKind::Read, offset: 42 })
    };
    assert_eq!(decide(&pagefault(FaultKind::Missing)), Action::ZeroFillRegion);
    assert_eq!(decide(&pagefault(FaultKind::Minor)), Action::ContinueRegion);
    assert_eq!(
        decide(&Wake::Event(FaultEvent::Remove { start: 0, end: 1 })),
        Action::Record
    );
    assert_eq!(
        decide(&Wake::Event(FaultEvent::Unmap { start: 0, end: 1 })),
        Action::Stop
    );
    assert_eq!(decide(&Wake::Event(FaultEvent::Fork)), Action::Stop);
    assert_eq!(decide(&Wake::ChannelError), Action::Stop);
}

#[test]
fn busy_continue_is_retried_and_everything_else_propagates() {
    assert_eq!(after_resolution(FaultKind::Minor, &Ok(())), Followup::Done);
    assert_eq!(
        after_resolution(FaultKind::Minor, &Err(ResolutionError::Busy)),
        Followup::Retry
    );
    assert_eq!(
        after_resolution(FaultKind::Minor, &Err(ResolutionError::Invalid)),
        Followup::Fatal
    );
    assert_eq!(
        after_resolution(FaultKind::Missing, &Err(ResolutionError::Busy)),
        Followup::Fatal
    );
    assert_eq!(
        after_resolution(FaultKind::Missing, &Err(ResolutionError::Invalid)),
        Followup::Fatal
    );
}
