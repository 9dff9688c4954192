//! Ingestion liveness, as reported by the health check.

use vstd::prelude::*;

use std::time::Instant;

verus! {

/// The standard library's monotonic clock reading, carried through unchanged.
#[verifier::external_type_specification]
#[verifier::external_body]
pub struct ExInstant(Instant);

/// Calls `std::time::Instant::now`. Nothing is claimed of the reading: it depends on the
/// time.
#[verifier::external_body]
fn instant_now() -> Instant {
    Instant::now()
}

/// Calls `std::time::Instant::elapsed` on `start` and takes the whole milliseconds of the
/// elapsed time, truncated to 64 bits. Nothing is claimed of the value: it depends on the
/// time.
#[verifier::external_body]
fn millis_since(start: &Instant) -> u64 {
    start.elapsed().as_millis() as u64
}

/// The health answer: the HTTP status, and how long the ingestion has been stalled.
#[derive(Debug)]
pub struct HealthReport {
    /// 200 while ingestion makes progress, 503 once it has stalled.
    pub status: u16,
    /// Seconds since the last success, when stalled.
    pub seconds_since_last_batch: Option<u64>,
}

/// How long (in milliseconds) ingestion has been stalled, if longer than the threshold:
/// the time since the last success, counted in whole milliseconds and compared with the
/// threshold's whole milliseconds.
pub open spec fn stalled_for(now_millis: u64, last_success_millis: u64, threshold_millis: u128) -> Option<u64> {
    let elapsed = if now_millis >= last_success_millis { (now_millis - last_success_millis) as u64 } else { 0u64 };
    if elapsed > threshold_millis {
        Some(elapsed)
    } else {
        None
    }
}

/// A success recorded at the moment of the check leaves ingestion healthy, whatever the
/// threshold: recording a success resets the staleness.
pub proof fn lemma_fresh_success_is_healthy(now_millis: u64, threshold_millis: u128)
    ensures
        stalled_for(now_millis, now_millis, threshold_millis) is None,
        report_of(stalled_for(now_millis, now_millis, threshold_millis)).status == 200,
{
}

/// The staleness decision: see [`stalled_for`].
pub fn stale_millis(now_millis: u64, last_success_millis: u64, threshold_millis: u128) -> (r: Option<u64>)
    ensures
        r == stalled_for(now_millis, last_success_millis, threshold_millis),
{
    let elapsed = now_millis.saturating_sub(last_success_millis);
    if elapsed as u128 > threshold_millis {
        Some(elapsed)
    } else {
        None
    }
}

/// The health answer for a staleness: 200 when not stalled, 503 with the whole seconds
/// stalled otherwise.
pub open spec fn report_of(stale: Option<u64>) -> HealthReport {
    match stale {
        None => HealthReport { status: 200, seconds_since_last_batch: None },
        Some(ms) => HealthReport { status: 503, seconds_since_last_batch: Some((ms / 1000) as u64) },
    }
}

/// The health answer for a staleness: see [`report_of`].
pub fn health_report(stale: Option<u64>) -> (r: HealthReport)
    ensures
        r == report_of(stale),
{
    match stale {
        None => HealthReport { status: 200, seconds_since_last_batch: None },
        Some(ms) => HealthReport { status: 503, seconds_since_last_batch: Some(ms / 1000) },
    }
}

/// Tracks ingestion liveness for the health check. A success is meant to be recorded with
/// [`IngestionLiveness::record_success`] each time ingestion makes forward progress (a
/// batch completed, or the reader is caught up with nothing new to do), so that only a
/// reader stuck retrying the same range leaves it stale. Whoever serves the health check
/// owns the liveness and records those successes.
/// Times are whole milliseconds since the creation reading of the monotonic clock.
pub struct IngestionLiveness {
    created_at: Instant,
    last_success_millis: u64,
    stall_threshold_millis: u128,
}

impl IngestionLiveness {
    /// When the last success was recorded, in milliseconds since creation.
    pub closed spec fn last_success(&self) -> u64 {
        self.last_success_millis
    }

    /// The stall threshold, in milliseconds.
    pub closed spec fn threshold_millis(&self) -> u128 {
        self.stall_threshold_millis
    }

    /// The clock reading the liveness was made at.
    pub closed spec fn created(&self) -> Instant {
        self.created_at
    }

    /// Starts the clock with a stall threshold of `stall_threshold_millis` milliseconds;
    /// the creation counts as a success.
    pub fn new(stall_threshold_millis: u128) -> (l: Self)
        ensures
            l.last_success() == 0,
            l.threshold_millis() == stall_threshold_millis,
    {
        IngestionLiveness { created_at: instant_now(), last_success_millis: 0, stall_threshold_millis }
    }

    /// Records a success now, and returns the clock reading it stored (milliseconds since
    /// creation): staleness is measured from it from here on.
    pub fn record_success(&mut self) -> (reading: u64)
        ensures
            final(self).last_success() == reading,
            final(self).threshold_millis() == old(self).threshold_millis(),
            final(self).created() == old(self).created(),
    {
        let reading = millis_since(&self.created_at);
        self.last_success_millis = reading;
        reading
    }

    /// The stall threshold, in milliseconds.
    pub fn stall_threshold_millis(&self) -> (ms: u128)
        ensures
            ms == self.threshold_millis(),
    {
        self.stall_threshold_millis
    }

    /// How long (in milliseconds) since the last success, if that exceeds the threshold.
    pub fn stale_for(&self) -> (r: Option<u64>)
        ensures
            exists|now: u64| r == stalled_for(now, self.last_success(), self.threshold_millis()),
    {
        let now = millis_since(&self.created_at);
        let r = stale_millis(now, self.last_success_millis, self.stall_threshold_millis);
        assert(r == stalled_for(now, self.last_success(), self.threshold_millis()));
        r
    }

    /// The health answer now.
    pub fn health(&self) -> (r: HealthReport)
        ensures
            exists|now: u64| r == report_of(stalled_for(now, self.last_success(), self.threshold_millis())),
    {
        let stale = self.stale_for();
        let r = health_report(stale);
        let ghost now = choose|now: u64| stale == stalled_for(now, self.last_success(), self.threshold_millis());
        assert(r == report_of(stalled_for(now, self.last_success(), self.threshold_millis())));
        r
    }
}

} // verus!
