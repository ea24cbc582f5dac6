//! Cooperative pause and cancellation shared by planning, apply, and verification.
//!
//! [`RunControl`] is the decision core: two flags and what a checkpoint does
//! with them. Sharing one control between threads, and blocking a paused
//! worker until it is resumed or cancelled, is the caller's plumbing: it polls
//! [`RunControl::poll`] under a lock and sleeps while the answer is
//! [`Checkpoint::Wait`].

use vstd::prelude::*;

use crate::error::Error;

verus! {

/// What a worker must do at a cooperative checkpoint.
#[derive(Debug, Clone, Copy, PartialEq, Eq, Structural)]
pub enum Checkpoint {
    /// Carry on.
    Proceed,
    /// Block until resumed or cancelled, then ask again.
    Wait,
    /// Stop: the run was cancelled.
    Cancel,
}

/// Cooperative run control: a pause request and a cancellation request.
/// It is not `Clone`: a run has one control, which threads share by
/// reference (behind a lock), so a cancellation reaches every worker.
#[derive(Debug, PartialEq, Eq, Structural)]
pub struct RunControl {
    paused: bool,
    cancelled: bool,
}

/// The two requests a control holds.
pub struct ControlView {
    pub paused: bool,
    pub cancelled: bool,
}

impl View for RunControl {
    type V = ControlView;

    closed spec fn view(&self) -> ControlView {
        ControlView { paused: self.paused, cancelled: self.cancelled }
    }
}

impl Default for RunControl {
    fn default() -> (c: Self)
        ensures
            !c@.paused,
            !c@.cancelled,
    {
        RunControl { paused: false, cancelled: false }
    }
}

/// The checkpoint decision for a control state: cancellation wins over pause.
pub open spec fn checkpoint_of(c: ControlView) -> Checkpoint {
    if c.cancelled {
        Checkpoint::Cancel
    } else if c.paused {
        Checkpoint::Wait
    } else {
        Checkpoint::Proceed
    }
}

impl RunControl {
    /// A control with no pause and no cancellation requested.
    pub fn new() -> (c: Self)
        ensures
            !c@.paused,
            !c@.cancelled,
    {
        RunControl { paused: false, cancelled: false }
    }

    /// Pause before the next cooperative checkpoint.
    pub fn pause(&mut self)
        ensures
            final(self)@.paused,
            final(self)@.cancelled == old(self)@.cancelled,
    {
        self.paused = true;
    }

    /// Resume a paused run.
    pub fn resume(&mut self)
        ensures
            !final(self)@.paused,
            final(self)@.cancelled == old(self)@.cancelled,
    {
        self.paused = false;
    }

    /// Request graceful cancellation.
    pub fn cancel(&mut self)
        ensures
            final(self)@.cancelled,
            final(self)@.paused == old(self)@.paused,
    {
        self.cancelled = true;
    }

    /// Whether pause is currently requested.
    pub fn is_paused(&self) -> (b: bool)
        ensures
            b == self@.paused,
    {
        self.paused
    }

    /// Whether cancellation is currently requested.
    pub fn is_cancelled(&self) -> (b: bool)
        ensures
            b == self@.cancelled,
    {
        self.cancelled
    }

    /// What a worker must do now: cancel, wait (paused), or proceed.
    pub fn poll(&self) -> (d: Checkpoint)
        ensures
            d == checkpoint_of(self@),
    {
        if self.cancelled {
            Checkpoint::Cancel
        } else if self.paused {
            Checkpoint::Wait
        } else {
            Checkpoint::Proceed
        }
    }

    /// Pass a checkpoint that does not have to wait: [`Error::Cancelled`] after
    /// cancellation, `Ok` otherwise. A paused run that is not cancelled waits
    /// (see [`RunControl::poll`]) before it can get here.
    pub fn checkpoint(&self) -> (r: Result<(), Error>)
        requires
            checkpoint_of(self@) != Checkpoint::Wait,
        ensures
            self@.cancelled <==> r is Err,
            r matches Err(e) ==> e is Cancelled,
    {
        if self.cancelled {
            Err(Error::Cancelled)
        } else {
            Ok(())
        }
    }
}

/// Cancellation is sticky: neither pausing nor resuming withdraws it, and a
/// cancelled control always answers [`Checkpoint::Cancel`].
pub proof fn lemma_cancel_is_final(c: ControlView, paused: bool)
    requires
        c.cancelled,
    ensures
        checkpoint_of(ControlView { paused, cancelled: c.cancelled }) == Checkpoint::Cancel,
{
}

/// Resuming a control that was never cancelled lets the next checkpoint proceed.
pub proof fn lemma_resume_proceeds(c: ControlView)
    requires
        !c.cancelled,
    ensures
        checkpoint_of(ControlView { paused: false, cancelled: c.cancelled }) == Checkpoint::Proceed,
{
}

/// A worker only ever waits while the run is paused and not cancelled.
pub proof fn lemma_wait_only_when_paused(c: ControlView)
    ensures
        checkpoint_of(c) == Checkpoint::Wait <==> (c.paused && !c.cancelled),
{
}

/// One call on a control, as the laws below replay them.
pub enum ControlCall {
    /// [`RunControl::pause`].
    Pause,
    /// [`RunControl::resume`].
    Resume,
    /// [`RunControl::cancel`].
    Cancel,
    /// [`RunControl::poll`] or [`RunControl::checkpoint`], which change nothing.
    Check,
}

/// The control after one call (as the calls' contracts state it).
pub open spec fn after_call(c: ControlView, call: ControlCall) -> ControlView {
    match call {
        ControlCall::Pause => ControlView { paused: true, cancelled: c.cancelled },
        ControlCall::Resume => ControlView { paused: false, cancelled: c.cancelled },
        ControlCall::Cancel => ControlView { paused: c.paused, cancelled: true },
        ControlCall::Check => c,
    }
}

/// The control after a sequence of calls, in order.
pub open spec fn after_calls(c: ControlView, calls: Seq<ControlCall>) -> ControlView
    decreases calls.len(),
{
    if calls.len() == 0 {
        c
    } else {
        after_calls(after_call(c, calls[0]), calls.drop_first())
    }
}

/// Once cancelled, always cancelled: after a cancellation, whatever calls
/// follow (pauses, resumes, further cancels, checkpoints), the control stays
/// cancelled and every checkpoint answers [`Checkpoint::Cancel`].
pub proof fn lemma_cancel_survives_any_calls(c: ControlView, before: Seq<ControlCall>, after: Seq<ControlCall>)
    ensures
        after_calls(after_call(after_calls(c, before), ControlCall::Cancel), after).cancelled,
        checkpoint_of(after_calls(after_call(after_calls(c, before), ControlCall::Cancel), after))
            == Checkpoint::Cancel,
{
    lemma_cancelled_stays(after_call(after_calls(c, before), ControlCall::Cancel), after);
}

proof fn lemma_cancelled_stays(c: ControlView, calls: Seq<ControlCall>)
    requires
        c.cancelled,
    ensures
        after_calls(c, calls).cancelled,
    decreases calls.len(),
{
    if calls.len() > 0 {
        lemma_cancelled_stays(after_call(c, calls[0]), calls.drop_first());
    }
}

} // verus!
