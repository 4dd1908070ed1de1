use vstd::prelude::*;

verus! {

/// Declares `std::time::Instant` so that a start timestamp can be stored;
/// the value itself is opaque to verification.
#[verifier::external_type_specification]
#[verifier::external_body]
pub struct ExInstant(std::time::Instant);

/// Relies on `std::time::Instant::now`: captures the current monotonic
/// instant.  Nothing is claimed about the value.
#[verifier::external_body]
fn instant_now() -> std::time::Instant {
    std::time::Instant::now()
}

/// Relies on `std::time::Instant::elapsed`: the nanoseconds since `start`,
/// truncated to 64 bits.  The value depends on the wall clock, so nothing is
/// claimed about it.
#[verifier::external_body]
fn elapsed_nanos(start: &std::time::Instant) -> u64 {
    start.elapsed().as_nanos() as u64
}

/// A wall-clock budget: a start instant plus a fixed threshold, polled by the
/// anytime search functions.  It is a pure value; only construction touches
/// the clock state.
pub struct TimeKeeper {
    start: std::time::Instant,
    threshold_nanos: u64,
    local_mode: bool,
}

impl TimeKeeper {
    pub closed spec fn threshold(&self) -> nat {
        self.threshold_nanos as nat
    }

    /// Starts a budget of `threshold_millis` milliseconds, compared against
    /// the unscaled elapsed time.
    pub fn build(threshold_millis: u64) -> (r: Self)
        requires
            threshold_millis <= 1_000_000_000,
        ensures
            r.threshold() == threshold_millis * 1_000_000,
    {
        TimeKeeper {
            start: instant_now(),
            threshold_nanos: threshold_millis * 1_000_000,
            local_mode: false,
        }
    }

    /// Starts a budget of `threshold_millis` milliseconds for local
    /// benchmarking: the elapsed time is scaled by 85/100 before the
    /// comparison, leaving slack against scheduling jitter.
    pub fn build_local(threshold_millis: u64) -> (r: Self)
        requires
            threshold_millis <= 1_000_000_000,
        ensures
            r.threshold() == threshold_millis * 1_000_000,
    {
        TimeKeeper {
            start: instant_now(),
            threshold_nanos: threshold_millis * 1_000_000,
            local_mode: true,
        }
    }

    /// Polls the budget.  The answer depends on the wall clock; the one fact
    /// that holds of every outcome is that a zero threshold has always
    /// expired.
    pub fn is_time_over(&self) -> (r: bool)
        ensures
            self.threshold() == 0 ==> r,
    {
        let elapsed = elapsed_nanos(&self.start);
        let effective: u64 = if self.local_mode {
            ((elapsed as u128) * 85 / 100) as u64
        } else {
            elapsed
        };
        effective >= self.threshold_nanos
    }
}

} // verus!
