//! The lifecycle controller: a small state machine that owns the shared
//! cancellation signal and gates the engine's background work. States move
//! only forward — idle, running, shutting down, stopped — and the signal is
//! written once, when shutdown is requested.

use vstd::prelude::*;

verus! {

/// The four lifecycle states of the engine.
#[derive(Clone, Copy, PartialEq, Eq, Structural, Debug)]
pub enum LifecycleState {
    /// Created; no device or stream acquired yet.
    Idle,
    /// Device and stream acquired, background processing underway.
    Running,
    /// The cancellation signal is set; loops are draining.
    ShuttingDown,
    /// All owned threads joined and the stream released.
    Stopped,
}

/// Owns the engine's lifecycle state and its write-once cancellation
/// signal.
pub struct LifecycleController {
    state: LifecycleState,
    shutdown_requested: bool,
}

impl LifecycleController {
    /// The current lifecycle state.
    pub closed spec fn spec_state(self) -> LifecycleState {
        self.state
    }

    /// Whether the cancellation signal has been set.
    pub closed spec fn spec_shutdown_requested(self) -> bool {
        self.shutdown_requested
    }

    /// The signal is set exactly in the two teardown states.
    pub open spec fn inv(self) -> bool {
        self.spec_shutdown_requested() <==> (self.spec_state() == LifecycleState::ShuttingDown
            || self.spec_state() == LifecycleState::Stopped)
    }

    /// A fresh controller: idle, signal clear.
    pub fn new() -> (r: LifecycleController)
        ensures
            r.inv(),
            r.spec_state() == LifecycleState::Idle,
            !r.spec_shutdown_requested(),
    {
        LifecycleController { state: LifecycleState::Idle, shutdown_requested: false }
    }

    /// Device and stream acquired: the engine starts running.
    pub fn start(&mut self)
        requires
            old(self).inv(),
            old(self).spec_state() == LifecycleState::Idle,
        ensures
            final(self).inv(),
            final(self).spec_state() == LifecycleState::Running,
            !final(self).spec_shutdown_requested(),
    {
        self.state = LifecycleState::Running;
    }

    /// The external trigger sets the shared cancellation signal; background
    /// loops observe it and stop.
    pub fn request_shutdown(&mut self)
        requires
            old(self).inv(),
            old(self).spec_state() == LifecycleState::Running,
        ensures
            final(self).inv(),
            final(self).spec_state() == LifecycleState::ShuttingDown,
            final(self).spec_shutdown_requested(),
    {
        self.state = LifecycleState::ShuttingDown;
        self.shutdown_requested = true;
    }

    /// All owned threads have joined and the stream is released.
    pub fn confirm_stopped(&mut self)
        requires
            old(self).inv(),
            old(self).spec_state() == LifecycleState::ShuttingDown,
        ensures
            final(self).inv(),
            final(self).spec_state() == LifecycleState::Stopped,
            final(self).spec_shutdown_requested(),
    {
        self.state = LifecycleState::Stopped;
    }

    /// Whether a background loop should start another iteration: only while
    /// running, and never once the signal is set.
    pub fn should_continue(&self) -> (r: bool)
        requires
            self.inv(),
        ensures
            r == (self.spec_state() == LifecycleState::Running),
            r ==> !self.spec_shutdown_requested(),
    {
        match self.state {
            LifecycleState::Running => true,
            _ => false,
        }
    }

    /// Reads the shared cancellation signal.
    pub fn shutdown_requested(&self) -> (r: bool)
        ensures
            r == self.spec_shutdown_requested(),
    {
        self.shutdown_requested
    }
}

} // verus!
