use vstd::prelude::*;

use crate::timeout::instant_now;
use std::time::{Duration, Instant};

verus! {

/// Measures its own lifetime: armed with a callback at `start`, it hands the
/// elapsed time to the callback when it is dropped.
pub struct Timer<T: FnOnce(Duration)> {
    start: Instant,
    on_finish: Option<T>,
}

impl<T: FnOnce(Duration)> Timer<T> {
    /// `start` demands a callback without preconditions, so that the
    /// destructor's unchecked call of it cannot break any.
    pub fn start(on_finish: T) -> Self
        requires
            forall|d: Duration| call_requires(on_finish, (d,)),
    {
        Self { start: instant_now(), on_finish: Some(on_finish) }
    }
}

impl<T: FnOnce(Duration)> Drop for Timer<T> {
    /// Relies on std's `Instant::elapsed` for the measured time. The body is
    /// not verified: a destructor must promise not to unwind, which it
    /// cannot do on behalf of the arbitrary caller-supplied callback it
    /// exists to run; `Timer::start` requires that callback to accept every
    /// duration.
    #[verifier::external_body]
    fn drop(&mut self)
        opens_invariants none
        no_unwind
    {
        let elapsed = self.start.elapsed();
        if let Some(f) = self.on_finish.take() {
            f(elapsed);
        }
    }
}

} // verus!
