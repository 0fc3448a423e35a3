//! The fault monitor: the dedicated context that reads one event at a time
//! from the fault channel and dispatches it to a resolution action.

use vstd::prelude::*;

use crate::errors::ResolutionError;
use crate::event::FaultEvent;
use crate::event::FaultKind;
use crate::event::Wake;
use crate::region::continue_rejected;
use crate::region::resolved;
use crate::region::wf;
use crate::region::zero_fill_rejected;
use crate::region::Region;

verus! {

/// Why the monitor stopped. Once it stops, no further fault on the guarded
/// region can ever be resolved; the cause is surfaced loudly.
#[derive(Clone, Copy, Debug, PartialEq, Eq)]
pub enum FatalCause {
    /// The fault channel reported an error condition while waiting.
    ChannelError,
    /// An event outside the planned set was delivered.
    UnexpectedEvent,
    /// A resolution action failed permanently.
    ResolutionFailed,
}

/// The monitor's state: blocked on the channel, or stopped for good.
#[derive(Clone, Copy, Debug, PartialEq, Eq)]
pub enum MonitorState {
    Waiting,
    Terminated { cause: FatalCause },
}

/// The resolution the monitor dispatches a wake-up to.
#[derive(Clone, Copy, Debug, PartialEq, Eq)]
pub enum Action {
    /// Resolve the whole registered range with zeros.
    ZeroFillRegion,
    /// Expose the staged bytes of the whole registered range.
    ContinueRegion,
    /// Bookkeeping only; keep waiting.
    Record,
    /// Fatal; stop the monitor.
    Stop,
}

/// What to do after a resolution action returned.
#[derive(Clone, Copy, Debug, PartialEq, Eq)]
pub enum Followup {
    /// The range is resolved; wait for the next event.
    Done,
    /// The action failed transiently; issue it again.
    Retry,
    /// The action failed permanently; stop the monitor.
    Fatal,
}

/// Routes one wake-up of the monitor to the action the protocol demands:
/// a missing fault is resolved by zero-filling the registered range, a minor
/// fault by exposing the bytes already staged for it, a removal is recorded,
/// and anything else — including an error condition on the channel — stops
/// the monitor, since ignoring it could leave a consumer blocked forever.
pub fn decide(wake: &Wake) -> (a: Action)
    ensures
        a is ZeroFillRegion <==> (*wake matches Wake::Event(
            FaultEvent::Pagefault { kind: FaultKind::Missing, .. },
        )),
        a is ContinueRegion <==> (*wake matches Wake::Event(
            FaultEvent::Pagefault { kind: FaultKind::Minor, .. },
        )),
        a is Record <==> (*wake matches Wake::Event(FaultEvent::Remove { .. })),
{
    match wake {
        Wake::ChannelError => Action::Stop,
        Wake::Event(ev) => match ev {
            FaultEvent::Pagefault { kind: FaultKind::Missing, .. } => Action::ZeroFillRegion,
            FaultEvent::Pagefault { kind: FaultKind::Minor, .. } => Action::ContinueRegion,
            FaultEvent::Remove { .. } => Action::Record,
            FaultEvent::Unmap { .. } => Action::Stop,
            FaultEvent::Fork => Action::Stop,
        },
    }
}

/// Decides what follows a resolution action's return: success is done, a
/// busy continue is retried — concurrent faults on overlapping ranges are
/// expected, the condition clears — and everything else is fatal.
pub fn after_resolution(kind: FaultKind, outcome: &Result<(), ResolutionError>) -> (f: Followup)
    ensures
        f is Done <==> outcome is Ok,
        f is Retry <==> (kind is Minor && *outcome matches Err(ResolutionError::Busy)),
        f is Fatal <==> (outcome is Err && !(kind is Minor && *outcome matches Err(
            ResolutionError::Busy,
        ))),
{
    match outcome {
        Ok(()) => Followup::Done,
        Err(ResolutionError::Busy) => match kind {
            FaultKind::Minor => Followup::Retry,
            FaultKind::Missing => Followup::Fatal,
        },
        Err(ResolutionError::Invalid) => Followup::Fatal,
    }
}

/// The fault monitor: owns the region it resolves faults on, and either
/// waits for the next event or has stopped for good.
pub struct Monitor {
    pub region: Region,
    pub state: MonitorState,
}

impl Monitor {
    /// A monitor over `region`, waiting for its first event.
    pub fn new(region: Region) -> (m: Monitor)
        ensures
            m.region@ == region@,
            m.state is Waiting,
    {
        Monitor { region, state: MonitorState::Waiting }
    }

    /// Services one wake-up: classifies it and issues exactly one resolution
    /// action. A missing fault zero-fills the whole registered range, a
    /// minor fault continues it, a removal is recorded with no action, and
    /// any other event — or an error condition on the channel, or a
    /// permanently failing resolution — terminates the monitor with its
    /// cause, never silently.
    pub fn handle(&mut self, wake: Wake)
        requires
            wf(old(self).region@),
            old(self).state is Waiting,
        ensures
            wf(final(self).region@),
            ({
                let v0 = old(self).region@;
                let sz = v0.bytes.len() as int;
                match wake {
                    Wake::ChannelError => final(self).region@ == v0 && final(self).state
                        == (MonitorState::Terminated { cause: FatalCause::ChannelError }),
                    Wake::Event(ev) => match ev {
                        FaultEvent::Pagefault { kind: FaultKind::Missing, .. } => if zero_fill_rejected(
                            v0,
                            0,
                            sz,
                        ) {
                            final(self).region@ == v0 && final(self).state
                                == (MonitorState::Terminated {
                                cause: FatalCause::ResolutionFailed,
                            })
                        } else {
                            final(self).region@ == resolved(v0, 0, sz) && final(self).state
                                is Waiting
                        },
                        FaultEvent::Pagefault { kind: FaultKind::Minor, .. } => if continue_rejected(
                            v0,
                            0,
                            sz,
                        ) {
                            final(self).region@ == v0 && final(self).state
                                == (MonitorState::Terminated {
                                cause: FatalCause::ResolutionFailed,
                            })
                        } else {
                            final(self).region@ == resolved(v0, 0, sz) && final(self).state
                                is Waiting
                        },
                        FaultEvent::Remove { .. } => final(self).region@ == v0 && final(self).state
                            is Waiting,
                        _ => final(self).region@ == v0 && final(self).state
                            == (MonitorState::Terminated { cause: FatalCause::UnexpectedEvent }),
                    },
                }
            }),
    {
        let size: usize = self.region.size();
        let action = decide(&wake);
        match action {
            Action::ZeroFillRegion => {
                let r = self.region.zero_fill(0, size);
                match after_resolution(FaultKind::Missing, &r) {
                    Followup::Done => {},
                    Followup::Retry => {
                        proof {
                            // a zero-fill is never reported busy
                            assert(false);
                        }
                    },
                    Followup::Fatal => {
                        self.state = MonitorState::Terminated {
                            cause: FatalCause::ResolutionFailed,
                        };
                    },
                }
            },
            Action::ContinueRegion => {
                let r = self.region.continue_range(0, size);
                match after_resolution(FaultKind::Minor, &r) {
                    Followup::Done => {},
                    Followup::Retry => {
                        proof {
                            // the model region resolves atomically: no
                            // concurrent resolution can make it busy
                            assert(false);
                        }
                    },
                    Followup::Fatal => {
                        self.state = MonitorState::Terminated {
                            cause: FatalCause::ResolutionFailed,
                        };
                    },
                }
            },
            Action::Record => {},
            Action::Stop => {
                match wake {
                    Wake::ChannelError => {
                        self.state = MonitorState::Terminated { cause: FatalCause::ChannelError };
                    },
                    Wake::Event(..) => {
                        self.state = MonitorState::Terminated { cause: FatalCause::UnexpectedEvent };
                    },
                }
            },
        }
    }
}

} // verus!
