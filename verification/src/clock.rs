use vstd::prelude::*;

verus! {

/// The mathematical state of the clock-control block.
pub ghost struct ClockModel {
    pub pll_on: bool,
    pub pll_locked: bool,
    pub lock_delay: int,
    pub rng_clock_on: bool,
    pub rng_reset_done: bool,
}

/// The system clock-control block, as far as this driver touches it: the PLL
/// enable bit and ready flag, the peripheral's clock gate, and its reset
/// line.  The simulated PLL reports ready once it has been polled
/// `lock_delay` more times while enabled.
pub struct ClockControl {
    pll_on: bool,
    pll_locked: bool,
    lock_delay: u32,
    rng_clock_on: bool,
    rng_reset_done: bool,
}

impl View for ClockControl {
    type V = ClockModel;

    closed spec fn view(&self) -> ClockModel {
        ClockModel {
            pll_on: self.pll_on,
            pll_locked: self.pll_locked,
            lock_delay: self.lock_delay as int,
            rng_clock_on: self.rng_clock_on,
            rng_reset_done: self.rng_reset_done,
        }
    }
}

impl ClockControl {
    /// The PLL never reports ready while disabled, and its lock delay is a
    /// count.
    pub open spec fn wf(&self) -> bool {
        &&& self@.pll_locked ==> self@.pll_on
        &&& self@.lock_delay >= 0
    }

    /// A clock block whose peripheral gate is closed and whose PLL, if
    /// enabled, will report ready after `lock_delay` further polls.
    pub fn new(pll_on: bool, lock_delay: u32) -> (r: ClockControl)
        ensures
            r.wf(),
            r@.pll_on == pll_on,
            !r@.pll_locked,
            r@.lock_delay == lock_delay,
            !r@.rng_clock_on,
            !r@.rng_reset_done,
    {
        ClockControl {
            pll_on,
            pll_locked: false,
            lock_delay,
            rng_clock_on: false,
            rng_reset_done: false,
        }
    }

    /// Read the PLL ready flag once.  While the PLL is enabled each poll
    /// brings it closer to lock; once locked it stays locked.
    pub fn poll_pll_ready(&mut self) -> (r: bool)
        requires
            old(self).wf(),
        ensures
            final(self).wf(),
            r == final(self)@.pll_locked,
            final(self)@.pll_on == old(self)@.pll_on,
            final(self)@.rng_clock_on == old(self)@.rng_clock_on,
            final(self)@.rng_reset_done == old(self)@.rng_reset_done,
            old(self)@.pll_locked ==> final(self)@ == old(self)@,
            !old(self)@.pll_on ==> final(self)@ == old(self)@ && !r,
            old(self)@.pll_on && !old(self)@.pll_locked && old(self)@.lock_delay == 0 ==> {
                &&& final(self)@.pll_locked
                &&& final(self)@.lock_delay == 0
            },
            old(self)@.pll_on && !old(self)@.pll_locked && old(self)@.lock_delay > 0 ==> {
                &&& !final(self)@.pll_locked
                &&& final(self)@.lock_delay == old(self)@.lock_delay - 1
            },
    {
        if self.pll_on && !self.pll_locked {
            if self.lock_delay == 0 {
                self.pll_locked = true;
            } else {
                self.lock_delay = self.lock_delay - 1;
            }
        }
        self.pll_locked
    }

    /// Set the PLL enable bit; lock is reported only by later polls.
    pub fn set_pll_on(&mut self)
        requires
            old(self).wf(),
        ensures
            final(self).wf(),
            final(self)@ == (ClockModel { pll_on: true, ..old(self)@ }),
    {
        self.pll_on = true;
    }

    /// Open the peripheral's clock gate.
    pub fn enable_rng_clock(&mut self)
        requires
            old(self).wf(),
        ensures
            final(self).wf(),
            final(self)@ == (ClockModel { rng_clock_on: true, ..old(self)@ }),
    {
        self.rng_clock_on = true;
    }

    /// Pulse the peripheral's reset line.
    pub fn pulse_rng_reset(&mut self)
        requires
            old(self).wf(),
        ensures
            final(self).wf(),
            final(self)@ == (ClockModel { rng_reset_done: true, ..old(self)@ }),
    {
        self.rng_reset_done = true;
    }

    /// Whether the PLL enable bit is set.
    pub fn pll_is_on(&self) -> (r: bool)
        ensures
            r == self@.pll_on,
    {
        self.pll_on
    }

    /// Whether the PLL has reported ready.
    pub fn pll_is_locked(&self) -> (r: bool)
        ensures
            r == self@.pll_locked,
    {
        self.pll_locked
    }

    /// Whether the peripheral's clock gate is open.
    pub fn rng_clock_is_on(&self) -> (r: bool)
        ensures
            r == self@.rng_clock_on,
    {
        self.rng_clock_on
    }

    /// Whether the peripheral's reset line has been pulsed.
    pub fn rng_reset_was_done(&self) -> (r: bool)
        ensures
            r == self@.rng_reset_done,
    {
        self.rng_reset_done
    }
}

} // verus!
