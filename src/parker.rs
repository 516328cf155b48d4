//! The wake-up latch of a parked thread.
use vstd::prelude::*;

verus! {

/// An operation on a parker: a wake-up from another thread, or an attempt
/// by the owner to return from its wait.
pub enum ParkerOp {
    Unpark,
    TryPark,
}

/// Whether the latch is set after `op`, when it was `signaled` before: a
/// wake-up sets it, and an attempt to return clears it.
pub open spec fn parker_step(signaled: bool, op: ParkerOp) -> bool {
    match op {
        ParkerOp::Unpark => true,
        ParkerOp::TryPark => false,
    }
}

/// Whether the latch is set after the operations `ops`, from a new parker.
pub open spec fn parker_state(ops: Seq<ParkerOp>) -> bool
    decreases ops.len(),
{
    if ops.len() == 0 {
        false
    } else {
        parker_step(parker_state(ops.drop_last()), ops.last())
    }
}

/// Whether the operation at position `i` of `ops` is an attempt to return
/// that succeeds: the latch was set when it came.
pub open spec fn try_park_succeeds(ops: Seq<ParkerOp>, i: int) -> bool {
    &&& 0 <= i < ops.len()
    &&& ops[i] == ParkerOp::TryPark
    &&& parker_state(ops.take(i))
}

/// The latch of one parked thread. A wake-up given before the owner waits is
/// kept until the owner consumes it, and the owner returns from its wait
/// only by consuming one. The caller holds it behind the mutex that its
/// condition variable waits on.
pub struct Parker {
    signaled: bool,
}

impl View for Parker {
    type V = bool;

    closed spec fn view(&self) -> bool {
        self.signaled
    }
}

impl Parker {
    /// A parker with no wake-up pending.
    pub fn new() -> (r: Parker)
        ensures
            r@ == parker_state(Seq::empty()),
    {
        Parker { signaled: false }
    }

    /// Records a wake-up. Returns whether the owner has to be notified:
    /// true unless a wake-up was already pending.
    pub fn unpark(&mut self) -> (notify: bool)
        ensures
            final(self)@ == parker_step(old(self)@, ParkerOp::Unpark),
            notify == !old(self)@,
    {
        let notify = !self.signaled;
        self.signaled = true;
        notify
    }

    /// The owner's attempt to return from its wait: consumes a pending
    /// wake-up and returns true, or returns false when there is none, after
    /// which the owner waits for a notification and tries again.
    pub fn try_park(&mut self) -> (woken: bool)
        ensures
            woken == old(self)@,
            final(self)@ == parker_step(old(self)@, ParkerOp::TryPark),
    {
        let woken = self.signaled;
        self.signaled = false;
        woken
    }

    /// Whether a wake-up is pending.
    pub fn notified(&self) -> (r: bool)
        ensures
            r == self@,
    {
        self.signaled
    }
}

} // verus!
