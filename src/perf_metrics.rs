//! Frame timing, kept to tune the frame loop.
use vstd::prelude::*;
use std::time::Instant;

verus! {

#[verifier::external_type_specification]
#[verifier::external_body]
pub struct ExInstant(Instant);

/// Relies on `Instant::now`: the current instant.
#[verifier::external_body]
fn now() -> (r: Instant) {
    Instant::now()
}

/// Relies on `Instant::elapsed`, read with `Duration::as_millis` and
/// `Duration::as_micros`: whole milliseconds and whole microseconds of one
/// duration.
#[verifier::external_body]
fn elapsed_since(start: &Instant) -> (r: (u128, u128))
    ensures
        r.0 == r.1 / 1000,
{
    let d = start.elapsed();
    (d.as_millis(), d.as_micros())
}

pub struct PerfMetrics {
    start_of_frame: Instant,
    longest_frametime: u128,
    longest_recent_frametime: u128,
    current_frametime: u128,
    current_frametime_micros: u128,
}

impl PerfMetrics {
    pub closed spec fn longest(&self) -> u128 {
        self.longest_frametime
    }

    pub closed spec fn recent(&self) -> u128 {
        self.longest_recent_frametime
    }

    pub closed spec fn current(&self) -> u128 {
        self.current_frametime
    }

    pub closed spec fn current_micros(&self) -> u128 {
        self.current_frametime_micros
    }

    pub fn new() -> (r: PerfMetrics)
        ensures
            r.longest() == 0,
            r.recent() == 0,
            r.current() == 0,
            r.current_micros() == 0,
    {
        PerfMetrics {
            start_of_frame: now(),
            longest_frametime: 0,
            longest_recent_frametime: 0,
            current_frametime: 0,
            current_frametime_micros: 0,
        }
    }

    /// Marks the start of a frame.
    pub fn new_frame(&mut self)
        ensures
            final(self).longest() == old(self).longest(),
            final(self).recent() == old(self).recent(),
            final(self).current() == old(self).current(),
            final(self).current_micros() == old(self).current_micros(),
    {
        self.start_of_frame = now();
    }

    /// Records a frame that took `millis` (`micros`): it becomes the
    /// current frame time, the longest one if it is longer, and the recent
    /// one if it is not zero.
    pub fn record_frame(&mut self, millis: u128, micros: u128)
        ensures
            final(self).current() == millis,
            final(self).current_micros() == micros,
            final(self).longest() == if millis > old(self).longest() {
                millis
            } else {
                old(self).longest()
            },
            final(self).recent() == if millis > 0 {
                millis
            } else {
                old(self).recent()
            },
    {
        self.current_frametime = millis;
        self.current_frametime_micros = micros;
        if self.current_frametime > self.longest_frametime {
            self.longest_frametime = self.current_frametime;
        }
        if self.current_frametime > 0 {
            self.longest_recent_frametime = self.current_frametime;
        }
    }

    /// Marks the end of a frame and records its time.
    pub fn end_frame(&mut self)
        ensures
            final(self).current() == final(self).current_micros() / 1000,
            final(self).longest() >= old(self).longest(),
            final(self).longest() >= final(self).current(),
            final(self).current() > 0 ==> final(self).recent() == final(self).current(),
            final(self).current() == 0 ==> final(self).recent() == old(self).recent(),
    {
        let (ms, us) = elapsed_since(&self.start_of_frame);
        self.record_frame(ms, us);
    }

    pub fn current_frametime(&self) -> (r: u128)
        ensures
            r == self.current(),
    {
        self.current_frametime
    }

    pub fn current_frametime_micros(&self) -> (r: u128)
        ensures
            r == self.current_micros(),
    {
        self.current_frametime_micros
    }

    pub fn longest_frametime(&self) -> (r: u128)
        ensures
            r == self.longest(),
    {
        self.longest_frametime
    }

    pub fn longest_recent_frametime(&self) -> (r: u128)
        ensures
            r == self.recent(),
    {
        self.longest_recent_frametime
    }
}

} // verus!
