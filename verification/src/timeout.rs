use vstd::prelude::*;

use std::time::{Duration, Instant};

verus! {

#[verifier::external_type_specification]
#[verifier::external_body]
pub struct ExInstant(Instant);

/// Relies on std's `Instant::now` for the current monotonic instant.
#[verifier::external_body]
pub(crate) fn instant_now() -> Instant {
    Instant::now()
}

/// Relies on std's `Instant::elapsed` for the time since `start`.
#[verifier::external_body]
fn elapsed_since(start: &Instant) -> Duration {
    start.elapsed()
}

/// Relies on std's ordering on `Duration`.
#[verifier::external_body]
fn duration_at_least(a: &Duration, b: &Duration) -> bool {
    *a >= *b
}

/// Relies on `Duration` being `Copy`; hands back an equal value.
#[verifier::external_body]
pub(crate) fn duration_copy(d: &Duration) -> (r: Duration)
    ensures
        r == *d,
{
    *d
}

/// A restartable interval timer: `start` arms it for a duration, `is_done`
/// reports whether that much time has passed, and `restart` re-arms it from
/// the present moment. Its readings depend on the wall clock, so no contract
/// pins them; the search engine uses it only to pace progress reporting,
/// which is advisory and excluded from correctness.
pub struct Timeout {
    start: Instant,
    duration: Duration,
}

impl Timeout {
    /// The armed interval, as contracts see it.
    pub closed spec fn duration_spec(self) -> Duration {
        self.duration
    }

    pub fn start(duration: Duration) -> (r: Self)
        ensures
            r.duration_spec() == duration,
    {
        Self { start: instant_now(), duration }
    }

    /// Clock-driven: whether the armed interval has passed cannot be pinned
    /// by a contract.
    pub fn is_done(&self) -> bool {
        duration_at_least(&elapsed_since(&self.start), &self.duration)
    }

    pub fn restart(&mut self)
        ensures
            final(self).duration_spec() == old(self).duration_spec(),
    {
        self.start = instant_now();
    }
}

} // verus!
