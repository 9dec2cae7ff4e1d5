//! Fixed-window admission control for rate-limited backends: a window of
//! fixed duration and a fixed capacity; the admission decision is a pure
//! state machine over the current time, and the caller performs the
//! sleeping that a `Wait` decision asks for.

use vstd::prelude::*;

verus! {

/// The decision of one admission request: admit immediately, or wait the
/// given span and ask again.
#[derive(Debug, Clone, Copy, PartialEq, Eq, Structural)]
pub enum Admission {
    Admit,
    Wait(u64),
}

/// A fixed-window rate limiter: `count` admissions per window of length
/// `duration` (time in caller-chosen ticks).
#[derive(Debug, Clone, Copy, PartialEq, Eq, Structural)]
pub struct Ratelimiter {
    pub duration: u64,
    pub count: usize,
    pub window_start: u64,
    pub used: usize,
}

impl Ratelimiter {
    /// A limiter is meaningful only with capacity for at least one
    /// admission.
    pub open spec fn wf(&self) -> bool {
        &&& self.count >= 1
        &&& self.used < self.count
    }
}

/// One step of the admission state machine, at time `now`: a call after the
/// window has elapsed resets the window and admits; a call inside the
/// window admits while fewer than `count - 1` admissions have been counted;
/// any other call is told to wait out the remainder of the window.
pub open spec fn ask_step_spec(s: Ratelimiter, now: u64) -> (Ratelimiter, Admission) {
    if now - s.window_start > s.duration {
        (Ratelimiter { window_start: now, used: 0, ..s }, Admission::Admit)
    } else if s.used < s.count - 1 {
        (Ratelimiter { used: (s.used + 1) as usize, ..s }, Admission::Admit)
    } else {
        (s, Admission::Wait((s.duration - (now - s.window_start)) as u64))
    }
}

impl Ratelimiter {
    /// A fresh limiter: `count` admissions per window of `duration` ticks,
    /// with the first window starting at tick zero.
    pub fn new(duration: u64, count: usize) -> (r: Ratelimiter)
        requires
            count >= 1,
        ensures
            r == (Ratelimiter { duration, count, window_start: 0, used: 0 }),
            r.wf(),
    {
        Ratelimiter { duration, count, window_start: 0, used: 0 }
    }

    /// One blocking admission request, decomposed: the caller computes
    /// `now`, takes this step, and on `Wait(d)` sleeps `d` ticks and asks
    /// again.
    pub fn ask_step(&mut self, now: u64) -> (r: Admission)
        requires
            old(self).wf(),
            now >= old(self).window_start,
        ensures
            (*final(self), r) == ask_step_spec(*old(self), now),
            final(self).wf(),
    {
        if now - self.window_start > self.duration {
            self.window_start = now;
            self.used = 0;
            Admission::Admit
        } else if self.used < self.count - 1 {
            self.used = self.used + 1;
            Admission::Admit
        } else {
            Admission::Wait(self.duration - (now - self.window_start))
        }
    }
}

/// The limiter's answers over a whole sequence of request times: the final
/// state and how many requests were admitted.
pub open spec fn run_spec(s: Ratelimiter, times: Seq<u64>) -> (Ratelimiter, int)
    decreases times.len(),
{
    if times.len() == 0 {
        (s, 0)
    } else {
        let first = ask_step_spec(s, times[0]);
        let rest = run_spec(first.0, times.drop_first());
        (
            rest.0,
            rest.1 + if first.1 is Admit {
                1int
            } else {
                0int
            },
        )
    }
}

/// Inside one window, admission is bounded: a run of requests that all fall
/// within the current window (so the window never rolls over) is admitted
/// at most `count - 1 - used` more times, and the window never moves.
pub proof fn lemma_window_capacity(s: Ratelimiter, times: Seq<u64>)
    requires
        s.wf(),
        forall|i: int|
            0 <= i < times.len() ==> s.window_start <= #[trigger] times[i] && times[i]
                - s.window_start <= s.duration,
    ensures
        ({
            let r = run_spec(s, times);
            &&& r.0.window_start == s.window_start
            &&& r.0.count == s.count
            &&& r.0.duration == s.duration
            &&& r.0.used == s.used + r.1
            &&& 0 <= r.1 <= s.count - 1 - s.used
        }),
    decreases times.len(),
{
    if times.len() > 0 {
        let first = ask_step_spec(s, times[0]);
        assert(forall|i: int|
            0 <= i < times.drop_first().len() ==> times.drop_first()[i] == times[i + 1]);
        lemma_window_capacity(first.0, times.drop_first());
    }
}

} // verus!
