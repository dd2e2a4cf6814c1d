//! Sliding, self-resetting request window.
use vstd::prelude::*;
use crate::gate::elapsed;

verus! {

/// Length of one rate window, in milliseconds.
pub const WINDOW_MS: u64 = 60_000;

/// What a caller of [`RateLimiter::wait`] is told.
#[derive(PartialEq, Eq, Structural, Debug, Clone, Copy)]
pub enum Admission {
    /// The request may go now; it has been counted.
    Granted,
    /// Sleep this many milliseconds, then ask again.
    Wait(u64),
}

/// Counts requests in a window that starts at `last_request_ms`.
pub struct RateLimiter {
    pub last_request_ms: u64,
    pub request_count: usize,
    pub max_requests: usize,
}

impl RateLimiter {
    /// The count never exceeds the cap, except the single request granted
    /// after a reset when the cap is 0.
    pub open spec fn wf(self) -> bool {
        self.request_count <= self.max_requests || self.request_count == 1
    }

    /// State and answer of one request made at time `now`.
    pub open spec fn step(self, now: u64) -> (RateLimiter, Admission) {
        let e = elapsed(self.last_request_ms, now);
        if e < WINDOW_MS {
            if self.request_count >= self.max_requests {
                (self, Admission::Wait((WINDOW_MS - e) as u64))
            } else {
                (RateLimiter { request_count: (self.request_count + 1) as usize, ..self }, Admission::Granted)
            }
        } else {
            (RateLimiter { last_request_ms: now, request_count: 1, ..self }, Admission::Granted)
        }
    }

    pub fn new(max_requests: usize, now_ms: u64) -> (r: RateLimiter)
        ensures
            r.wf(),
            r.max_requests == max_requests,
            r.request_count == 0,
            r.last_request_ms == now_ms,
    {
        RateLimiter { last_request_ms: now_ms, request_count: 0, max_requests }
    }

    /// Asks for a slot at time `now_ms`. A full window answers with the time
    /// left in it; a caller sleeps that long and asks again, and is then
    /// granted in a fresh window.
    pub fn wait(&mut self, now_ms: u64) -> (r: Admission)
        requires
            old(self).wf(),
        ensures
            final(self).wf(),
            (*final(self), r) == old(self).step(now_ms),
    {
        let e = if now_ms >= self.last_request_ms { now_ms - self.last_request_ms } else { 0 };
        if e < WINDOW_MS {
            if self.request_count >= self.max_requests {
                return Admission::Wait(WINDOW_MS - e);
            }
            self.request_count = self.request_count + 1;
        } else {
            self.request_count = 1;
            self.last_request_ms = now_ms;
        }
        Admission::Granted
    }
}

/// State and answers after requests at the given times, in order.
pub open spec fn run_limiter(r: RateLimiter, times: Seq<u64>) -> (RateLimiter, Seq<Admission>)
    decreases times.len(),
{
    if times.len() == 0 {
        (r, Seq::empty())
    } else {
        let (prev, answers) = run_limiter(r, times.drop_last());
        let (next, a) = prev.step(times.last());
        (next, answers.push(a))
    }
}

/// Times that all fall inside the window that starts at `start`.
pub open spec fn within_window(times: Seq<u64>, start: u64) -> bool {
    forall|i: int| 0 <= i < times.len() ==> start <= #[trigger] times[i] && times[i] - start < WINDOW_MS
}

proof fn lemma_fill_window(r: RateLimiter, times: Seq<u64>)
    requires
        r.request_count == 0,
        times.len() <= r.max_requests,
        within_window(times, r.last_request_ms),
    ensures
        run_limiter(r, times).0 == (RateLimiter { request_count: times.len() as usize, ..r }),
        run_limiter(r, times).1 == Seq::new(times.len(), |i: int| Admission::Granted),
    decreases times.len(),
{
    if times.len() > 0 {
        let pre = times.drop_last();
        assert(within_window(pre, r.last_request_ms));
        lemma_fill_window(r, pre);
        assert(run_limiter(r, times).1 =~= Seq::new(times.len(), |i: int| Admission::Granted));
    }
}

/// A fresh window admits `max_requests` requests without delay; one more
/// inside the same window is told to wait exactly until the window ends;
/// once the window has passed, the count starts again and the request is
/// granted as the first of the new window.
pub proof fn lemma_window_admits_max(r: RateLimiter, times: Seq<u64>, t: u64)
    requires
        r.request_count == 0,
        times.len() == r.max_requests,
        within_window(times, r.last_request_ms),
    ensures
        run_limiter(r, times).1 == Seq::new(times.len(), |i: int| Admission::Granted),
        r.last_request_ms <= t && t - r.last_request_ms < WINDOW_MS ==> run_limiter(r, times).0.step(t).1
            == Admission::Wait((r.last_request_ms + WINDOW_MS - t) as u64),
        elapsed(r.last_request_ms, t) >= WINDOW_MS ==> ({
            let after = run_limiter(r, times).0.step(t);
            after.1 == Admission::Granted && after.0.request_count == 1 && after.0.last_request_ms == t
        }),
{
    lemma_fill_window(r, times);
}

} // verus!
