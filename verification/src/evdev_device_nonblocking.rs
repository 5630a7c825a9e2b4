//! A pollable view of a strictly blocking event source.
//!
//! The source only supports blocking reads, so a worker thread owned
//! by the caller loops over them and sends every event into a
//! queue.  This module holds the consumer side: a non-blocking poll
//! over the queue, and the teardown protocol the worker's owner must
//! follow so that shutdown neither blocks forever nor releases the
//! source while the worker still reads it.

use vstd::prelude::*;

use crate::razer::OpenRazerError;

verus! {

/// One raw key event from the event source: the key code and its
/// state value (0 release, 1 press, 2 autorepeat).
#[derive(Debug, Clone, Copy, PartialEq, Eq, Structural)]
pub struct RawKeyEvent {
    pub code: u16,
    pub value: i32,
}

#[verifier::external_type_specification]
#[verifier::external_body]
#[verifier::reject_recursive_types(T)]
pub struct ExReceiver<T>(std::sync::mpsc::Receiver<T>);

/// What one poll of the queue found.
enum RecvOutcome {
    Item(RawKeyEvent),
    Empty,
    Disconnected,
}

/// Relies on std::sync::mpsc::Receiver::try_recv: it returns a
/// pending value without blocking, `Empty` when none is queued yet,
/// and `Disconnected` when the sending half is gone and the queue
/// is drained.  Which of the three comes back depends on the
/// producer thread, so nothing more is promised of the outcome.
#[verifier::external_body]
fn try_recv_raw(rx: &std::sync::mpsc::Receiver<RawKeyEvent>) -> RecvOutcome {
    match rx.try_recv() {
        Ok(e) => RecvOutcome::Item(e),
        Err(std::sync::mpsc::TryRecvError::Empty) => RecvOutcome::Empty,
        Err(std::sync::mpsc::TryRecvError::Disconnected) => RecvOutcome::Disconnected,
    }
}

/// The consumer side of the worker's queue, with non-blocking
/// polls.
pub struct EvdevDeviceNonblocking {
    rx: std::sync::mpsc::Receiver<RawKeyEvent>,
    shut_down: bool,
}

impl EvdevDeviceNonblocking {
    /// Whether the bridge was shut down.
    pub closed spec fn is_shut_down(&self) -> bool {
        self.shut_down
    }

    /// Wraps the consumer end of the worker's queue.
    pub fn new(rx: std::sync::mpsc::Receiver<RawKeyEvent>) -> (r: EvdevDeviceNonblocking)
        ensures
            !r.is_shut_down(),
    {
        EvdevDeviceNonblocking { rx, shut_down: false }
    }

    /// Polls for the next event without blocking.
    ///
    /// An empty queue yields `Ok(None)`.  A dead producer side is
    /// unrecoverable and surfaces as `ChannelFailure`; no other
    /// error can come back.  After shutdown every poll yields
    /// `Ok(None)` without touching the queue.
    pub fn try_next(&self) -> (r: Result<Option<RawKeyEvent>, OpenRazerError>)
        ensures
            self.is_shut_down() ==> r == Ok::<Option<RawKeyEvent>, OpenRazerError>(None),
            match r {
                Ok(_) => true,
                Err(e) => !self.is_shut_down() && (e matches OpenRazerError::ChannelFailure),
            },
    {
        if self.shut_down {
            return Ok(None);
        }
        match try_recv_raw(&self.rx) {
            RecvOutcome::Item(e) => Ok(Some(e)),
            RecvOutcome::Empty => Ok(None),
            RecvOutcome::Disconnected => Err(OpenRazerError::ChannelFailure),
        }
    }

    /// Marks the bridge as shut down: from here on no event is
    /// delivered, whatever still sits in the queue.
    pub fn shutdown(&mut self)
        ensures
            final(self).is_shut_down(),
    {
        self.shut_down = true;
    }
}

/// The phases of tearing the bridge down, in order.
#[derive(Debug, Clone, Copy, PartialEq, Eq, Structural)]
pub enum ShutdownPhase {
    /// The worker still reads and sends.
    Running,
    /// The cancellation flag is set; the worker may still sit in a
    /// blocking read.
    CancelSignalled,
    /// The event source was closed under the worker, so its pending
    /// read returns.
    ReadUnblocked,
    /// The worker has exited.
    WorkerJoined,
    /// The source's resources are released.
    Released,
}

/// What the worker's owner must do next.
#[derive(Debug, Clone, Copy, PartialEq, Eq, Structural)]
pub enum ShutdownAction {
    /// Set the cancellation flag the worker's loop checks.
    SetCancelFlag,
    /// Invalidate the event source so the blocked read errors out;
    /// a flag alone cannot interrupt a thread parked in a read.
    CloseEventSource,
    /// Join the worker, with a bounded wait.
    JoinWorker,
    /// Only now free the source's resources: earlier would race the
    /// worker's pending read.
    ReleaseEventSource,
    /// Nothing is left to do.
    Done,
}

/// The teardown protocol of the bridge, as a state machine its
/// owner drives.  Each [`ShutdownProtocol::advance`] names the one
/// action to perform next; the order — flag, force-unblock, join,
/// release — is fixed, so the owner can neither wait on an event
/// that never comes nor release the source while the worker still
/// reads it.
#[derive(Debug)]
pub struct ShutdownProtocol {
    phase: ShutdownPhase,
}

impl ShutdownProtocol {
    /// The phase the teardown has reached.
    pub closed spec fn spec_phase(&self) -> ShutdownPhase {
        self.phase
    }

    /// Starts the protocol with the worker running.
    pub fn new() -> (r: ShutdownProtocol)
        ensures
            r.spec_phase() == ShutdownPhase::Running,
    {
        ShutdownProtocol { phase: ShutdownPhase::Running }
    }

    /// The phase the teardown has reached.
    pub fn phase(&self) -> (r: ShutdownPhase)
        ensures
            r == self.spec_phase(),
    {
        self.phase
    }

    /// Steps the protocol and names the action to perform now.
    pub fn advance(&mut self) -> (a: ShutdownAction)
        ensures
            old(self).spec_phase() == ShutdownPhase::Running ==> a
                == ShutdownAction::SetCancelFlag && final(self).spec_phase()
                == ShutdownPhase::CancelSignalled,
            old(self).spec_phase() == ShutdownPhase::CancelSignalled ==> a
                == ShutdownAction::CloseEventSource && final(self).spec_phase()
                == ShutdownPhase::ReadUnblocked,
            old(self).spec_phase() == ShutdownPhase::ReadUnblocked ==> a
                == ShutdownAction::JoinWorker && final(self).spec_phase()
                == ShutdownPhase::WorkerJoined,
            old(self).spec_phase() == ShutdownPhase::WorkerJoined ==> a
                == ShutdownAction::ReleaseEventSource && final(self).spec_phase()
                == ShutdownPhase::Released,
            old(self).spec_phase() == ShutdownPhase::Released ==> a == ShutdownAction::Done
                && final(self).spec_phase() == ShutdownPhase::Released,
    {
        match self.phase {
            ShutdownPhase::Running => {
                self.phase = ShutdownPhase::CancelSignalled;
                ShutdownAction::SetCancelFlag
            },
            ShutdownPhase::CancelSignalled => {
                self.phase = ShutdownPhase::ReadUnblocked;
                ShutdownAction::CloseEventSource
            },
            ShutdownPhase::ReadUnblocked => {
                self.phase = ShutdownPhase::WorkerJoined;
                ShutdownAction::JoinWorker
            },
            ShutdownPhase::WorkerJoined => {
                self.phase = ShutdownPhase::Released;
                ShutdownAction::ReleaseEventSource
            },
            ShutdownPhase::Released => ShutdownAction::Done,
        }
    }
}

} // verus!
