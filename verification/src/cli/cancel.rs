//! How interrupt requests (`Ctrl+C`) are answered.
//!
//! Before a run starts reporting, the first interrupt ends the process at
//! once. Once reporting is under way, the first interrupt only requests
//! cancellation, so that the summary is still printed, and a second one
//! ends the process.

use vstd::prelude::*;

use crate::cli::report::EXIT_CANCELLED;

verus! {

/// What the interrupt handler does about one interrupt.
#[derive(Debug, Clone, Copy, PartialEq, Eq, Structural)]
pub enum InterruptEvent {
    /// End the process now with this exit code.
    ExitNow(i32),
    /// Cancellation is requested; the run finishes its summary.
    FirstCancellation,
}

/// The cancellation state that the interrupt handler drives.
#[derive(Debug, Clone, Copy, PartialEq, Eq, Structural)]
pub struct CancellationState {
    pub requested: bool,
    pub interrupt_count: usize,
    pub exit_immediately: bool,
}

impl CancellationState {
    /// Cancellation state before any interrupt, in the mode where an
    /// interrupt ends the process at once.
    pub fn new_uninstalled() -> (r: Self)
        ensures
            !r.requested,
            r.interrupt_count == 0,
            r.exit_immediately,
    {
        CancellationState { requested: false, interrupt_count: 0, exit_immediately: true }
    }

    /// The same as [`CancellationState::new_uninstalled`].
    pub fn uninstalled_for_test() -> (r: Self)
        ensures
            r == Self::spec_initial(),
    {
        Self::new_uninstalled()
    }

    /// The state before any interrupt.
    pub open spec fn spec_initial() -> Self {
        CancellationState { requested: false, interrupt_count: 0, exit_immediately: true }
    }

    /// The state after one more interrupt.
    pub open spec fn spec_interrupted(self) -> Self {
        CancellationState {
            requested: true,
            interrupt_count: if self.interrupt_count < usize::MAX {
                (self.interrupt_count + 1) as usize
            } else {
                self.interrupt_count
            },
            exit_immediately: self.exit_immediately,
        }
    }

    /// What the handler does about one more interrupt in this state.
    pub open spec fn spec_event(self) -> InterruptEvent {
        if self.exit_immediately || self.spec_interrupted().interrupt_count != 1 {
            InterruptEvent::ExitNow(EXIT_CANCELLED)
        } else {
            InterruptEvent::FirstCancellation
        }
    }

    /// The state in summary-owned mode.
    pub open spec fn spec_deferred(self) -> Self {
        CancellationState { exit_immediately: false, ..self }
    }

    /// Switches cancellation into summary-owned mode before proof or rules
    /// work starts.
    pub fn defer_exit_until_summary(&mut self)
        ensures
            *final(self) == old(self).spec_deferred(),
    {
        self.exit_immediately = false;
    }

    /// Records an interrupt and reports whether the handler should end the
    /// process now, with the notice it prints.
    pub fn record_interrupt_with_notice(&mut self) -> (r: (InterruptEvent, &'static str))
        ensures
            final(self).requested,
            final(self).exit_immediately == old(self).exit_immediately,
            final(self).interrupt_count == if old(self).interrupt_count < usize::MAX {
                old(self).interrupt_count + 1
            } else {
                old(self).interrupt_count as int
            },
            r.0 == if old(self).exit_immediately || final(self).interrupt_count != 1 {
                InterruptEvent::ExitNow(EXIT_CANCELLED)
            } else {
                InterruptEvent::FirstCancellation
            },
            r.1@ == if old(self).exit_immediately {
                "Cancellation requested."@
            } else if final(self).interrupt_count == 1 {
                "Cancellation requested. Press Ctrl+C again to force cancellation."@
            } else {
                "Force cancellation requested."@
            },
    {
        proof {
            reveal_strlit("Cancellation requested.");
            reveal_strlit("Cancellation requested. Press Ctrl+C again to force cancellation.");
            reveal_strlit("Force cancellation requested.");
        }
        if self.interrupt_count < usize::MAX {
            self.interrupt_count = self.interrupt_count + 1;
        }
        self.requested = true;
        if self.exit_immediately {
            return (InterruptEvent::ExitNow(EXIT_CANCELLED), "Cancellation requested.");
        }
        if self.interrupt_count == 1 {
            return (
                InterruptEvent::FirstCancellation,
                "Cancellation requested. Press Ctrl+C again to force cancellation.",
            );
        }
        (InterruptEvent::ExitNow(EXIT_CANCELLED), "Force cancellation requested.")
    }

    /// Records an interrupt and reports whether the handler should end the
    /// process now.
    pub fn record_interrupt(&mut self) -> (r: InterruptEvent)
        ensures
            *final(self) == old(self).spec_interrupted(),
            r == old(self).spec_event(),
            final(self).requested,
            final(self).exit_immediately == old(self).exit_immediately,
            r == if old(self).exit_immediately || final(self).interrupt_count != 1 {
                InterruptEvent::ExitNow(EXIT_CANCELLED)
            } else {
                InterruptEvent::FirstCancellation
            },
            final(self).interrupt_count == if old(self).interrupt_count < usize::MAX {
                old(self).interrupt_count + 1
            } else {
                old(self).interrupt_count as int
            },
    {
        self.record_interrupt_with_notice().0
    }

    /// Returns whether cancellation has been requested.
    pub fn is_requested(&self) -> (r: bool)
        ensures
            r == self.requested,
    {
        self.requested
    }
}

/// Interrupts are answered as the module promises: before reporting starts
/// the first interrupt ends the process; once the summary owns the exit, the
/// first interrupt only requests cancellation and the second ends the
/// process; and a requested cancellation stays requested.
pub proof fn lemma_interrupt_protocol(s: CancellationState)
    ensures
        CancellationState::spec_initial().spec_event() == InterruptEvent::ExitNow(EXIT_CANCELLED),
        CancellationState::spec_initial().spec_deferred().spec_event() == InterruptEvent::FirstCancellation,
        CancellationState::spec_initial().spec_deferred().spec_interrupted().spec_event() == InterruptEvent::ExitNow(
            EXIT_CANCELLED,
        ),
        s.spec_interrupted().requested,
        s.requested ==> s.spec_deferred().requested,
        s.interrupt_count >= 1 ==> s.spec_event() == InterruptEvent::ExitNow(EXIT_CANCELLED),
{
}

} // verus!
