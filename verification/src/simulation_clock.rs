//! The simulation clock: which of the two scheduled callbacks are
//! outstanding, and whether the picture is stale.
//!
//! The host owns the timer and the frame request. It reports each callback
//! here and does what the answer says: request a frame, paint, or cancel.

use vstd::prelude::*;

verus! {

/// Scheduling state of one simulation.
#[derive(Debug, Clone, Copy, PartialEq, Eq, Structural)]
pub struct SimulationClock {
    /// The grid changed since it was last painted.
    pub dirty: bool,
    /// The repeating tick timer is scheduled.
    pub ticking: bool,
    /// A frame was requested and has not been delivered yet.
    pub frame_pending: bool,
}

/// What the host has to cancel when a simulation is torn down.
#[derive(Debug, Clone, Copy, PartialEq, Eq, Structural)]
pub struct Teardown {
    /// Cancel the tick timer.
    pub cancel_timer: bool,
    /// Cancel the requested frame.
    pub cancel_frame: bool,
}

impl SimulationClock {
    /// The state after a tick, and whether a frame is to be requested. A
    /// tick makes the picture stale; a frame is requested unless one is
    /// pending. A clock that is not ticking ignores the call.
    pub open spec fn after_tick(self) -> (SimulationClock, bool) {
        if self.ticking {
            (SimulationClock { dirty: true, ticking: true, frame_pending: true }, !self.frame_pending)
        } else {
            (self, false)
        }
    }

    /// The state after a frame callback, and whether to paint. The pending
    /// frame is consumed and the picture is fresh again. A frame that was not
    /// requested, or one that comes after teardown, is ignored.
    pub open spec fn after_frame(self) -> (SimulationClock, bool) {
        if self.ticking && self.frame_pending {
            (SimulationClock { dirty: false, ticking: true, frame_pending: false }, true)
        } else {
            (self, false)
        }
    }

    /// The state after teardown, and what is to be cancelled: whatever was
    /// still scheduled.
    pub open spec fn after_teardown(self) -> (SimulationClock, Teardown) {
        (
            SimulationClock { dirty: self.dirty, ticking: false, frame_pending: false },
            Teardown { cancel_timer: self.ticking, cancel_frame: self.frame_pending },
        )
    }

    /// Nothing is scheduled: the simulation was torn down.
    pub open spec fn stopped(self) -> bool {
        !self.ticking && !self.frame_pending
    }

    /// The clock of a fresh simulation: the timer runs, and a first frame is
    /// pending to show the grid as it was built.
    pub fn new() -> (clock: SimulationClock)
        ensures
            clock == (SimulationClock { dirty: true, ticking: true, frame_pending: true }),
    {
        SimulationClock { dirty: true, ticking: true, frame_pending: true }
    }

    /// The timer fired and the grid was advanced. Returns whether the host is
    /// to request a frame.
    pub fn tick(&mut self) -> (request_frame: bool)
        ensures
            (*final(self), request_frame) == old(self).after_tick(),
    {
        if !self.ticking {
            return false;
        }
        let request: bool = !self.frame_pending;
        self.dirty = true;
        self.frame_pending = true;
        request
    }

    /// The requested frame was delivered. Returns whether the host is to
    /// paint.
    pub fn frame(&mut self) -> (paint: bool)
        ensures
            (*final(self), paint) == old(self).after_frame(),
    {
        if self.ticking && self.frame_pending {
            self.dirty = false;
            self.frame_pending = false;
            true
        } else {
            false
        }
    }

    /// Stops the clock. Returns what the host is to cancel.
    pub fn teardown(&mut self) -> (cancel: Teardown)
        ensures
            (*final(self), cancel) == old(self).after_teardown(),
            final(self).stopped(),
    {
        let cancel = Teardown { cancel_timer: self.ticking, cancel_frame: self.frame_pending };
        self.ticking = false;
        self.frame_pending = false;
        cancel
    }

    /// Once torn down, a clock answers every callback with "do nothing", and
    /// a second teardown has nothing left to cancel.
    pub proof fn lemma_stopped_is_final(self)
        ensures
            self.after_teardown().0.stopped(),
            self.stopped() ==> {
                &&& self.after_tick() == (self, false)
                &&& self.after_frame() == (self, false)
                &&& self.after_teardown() == (
                    self,
                    Teardown { cancel_timer: false, cancel_frame: false },
                )
            },
    {
    }

    /// Frames are requested only when none is pending, so at most one frame
    /// is ever outstanding; and a painted picture stays fresh until the next
    /// tick.
    pub proof fn lemma_one_frame_at_a_time(self)
        ensures
            self.frame_pending ==> !self.after_tick().1,
            self.after_frame().1 ==> !self.after_frame().0.dirty && !self.after_frame().0.frame_pending,
            self.after_frame().1 ==> !self.after_frame().0.after_frame().1,
    {
    }
}

} // verus!
