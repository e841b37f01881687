//! Two-phase cooperative shutdown latch.
//!
//! A latch moves one way through `NotStarted -> Started -> Complete`.
//! `begin` is idempotent; `complete` may only follow `begin` and is
//! idempotent as well.  The async broadcast side (releasing waiters) lives
//! outside the library; this type is the state machine that both sides
//! agree on.

use vstd::prelude::*;

verus! {

/// The phases of a shutdown latch, in order.
#[derive(Clone, Copy, Debug, PartialEq, Eq, Structural)]
pub enum ShutdownState {
    NotStarted,
    Started,
    Complete,
}

impl ShutdownState {
    /// Human-readable name of the phase.
    pub fn to_str(&self) -> (r: &'static str)
        ensures
            *self is NotStarted ==> r@ == "NotStarted"@,
            *self is Started ==> r@ == "Started"@,
            *self is Complete ==> r@ == "Complete"@,
    {
        match self {
            ShutdownState::NotStarted => "NotStarted",
            ShutdownState::Started => "Started",
            ShutdownState::Complete => "Complete",
        }
    }
}

/// Position of a phase along the one-way path: later phases rank higher.
pub open spec fn state_rank(s: ShutdownState) -> int {
    match s {
        ShutdownState::NotStarted => 0,
        ShutdownState::Started => 1,
        ShutdownState::Complete => 2,
    }
}

/// The state after `begin`: a fresh latch starts; a latch that has already
/// begun or completed is left alone.
pub open spec fn begin_spec(s: ShutdownState) -> ShutdownState {
    match s {
        ShutdownState::NotStarted => ShutdownState::Started,
        _ => s,
    }
}

/// The state after `complete`: always the terminal phase.
pub open spec fn complete_spec(s: ShutdownState) -> ShutdownState {
    ShutdownState::Complete
}

/// Whether shutdown has been signalled (begun or already complete).
pub open spec fn spec_is_shutdown(s: ShutdownState) -> bool {
    s is Started || s is Complete
}

/// One-producer, many-consumer shutdown signal.  Consumers that suspend on
/// the transitions do so outside the library; they observe this state.
pub struct Latch {
    state: ShutdownState,
}

impl View for Latch {
    type V = ShutdownState;

    closed spec fn view(&self) -> ShutdownState {
        self.state
    }
}

impl Latch {
    /// A latch that has not begun shutting down.
    pub fn new() -> (r: Latch)
        ensures
            r@ is NotStarted,
    {
        Latch { state: ShutdownState::NotStarted }
    }

    /// True iff shutdown has been signalled.  A consumer that subscribes
    /// after `begin` must consult this instead of blocking.
    pub fn is_shutdown(&self) -> (r: bool)
        ensures
            r == spec_is_shutdown(self@),
    {
        match self.state {
            ShutdownState::NotStarted => false,
            _ => true,
        }
    }

    /// Signal the start of shutdown.  Idempotent: once begun (or complete)
    /// the latch does not move back.
    pub fn begin(&mut self)
        ensures
            final(self)@ == begin_spec(old(self)@),
            spec_is_shutdown(final(self)@),
    {
        if let ShutdownState::NotStarted = self.state {
            self.state = ShutdownState::Started;
        }
    }

    /// Record that the owner of the latch has finished shutting down.
    /// Only meaningful after `begin`; idempotent.
    pub fn complete(&mut self)
        requires
            spec_is_shutdown(old(self)@),
        ensures
            final(self)@ == complete_spec(old(self)@),
            final(self)@ is Complete,
    {
        self.state = ShutdownState::Complete;
    }

    /// The current phase.
    pub fn state(&self) -> (r: ShutdownState)
        ensures
            r == self@,
    {
        self.state
    }
}

/// Signalling shutdown twice leaves the same state as signalling it once.
pub proof fn lemma_begin_idempotent(s: ShutdownState)
    ensures
        begin_spec(begin_spec(s)) == begin_spec(s),
{
}

/// Completing twice leaves the same state as completing once.
pub proof fn lemma_complete_idempotent(s: ShutdownState)
    ensures
        complete_spec(complete_spec(s)) == complete_spec(s),
{
}

/// Latch transitions are one-way: neither operation moves a latch to an
/// earlier phase, and the terminal phase is never left.
pub proof fn lemma_transitions_one_way(s: ShutdownState)
    ensures
        state_rank(begin_spec(s)) >= state_rank(s),
        state_rank(complete_spec(s)) >= state_rank(s),
        s is Complete ==> begin_spec(s) is Complete && complete_spec(s) is Complete,
{
}

} // verus!
