use std::time::{Duration, Instant};

use nox_ingestor::handlers::{health_report, stale_millis, IngestionLiveness};

fn wait(d: Duration) {
    let start = Instant::now();
    while start.elapsed() < d {}
}

#[test]
fn health_is_ok_when_liveness_is_fresh() {
    let liveness = IngestionLiveness::new(Duration::from_secs(60).as_millis());

    let response = liveness.health();

    assert_eq!(200, response.status);
}

#[test]
fn health_is_unavailable_once_stall_threshold_elapses() {
    let liveness = IngestionLiveness::new(Duration::from_millis(10).as_millis());
    wait(Duration::from_millis(50));

    let response = liveness.health();

    assert_eq!(503, response.status);
}

#[test]
fn record_success_resets_staleness() {
    let mut liveness = IngestionLiveness::new(Duration::from_millis(10).as_millis());
    wait(Duration::from_millis(50));
    let reading = liveness.record_success();

    let response = liveness.health();

    assert_eq!(200, response.status);
    assert!(reading >= 50);
}

#[test]
fn liveness_keeps_its_threshold() {
    let mut liveness = IngestionLiveness::new(1_500);
    assert_eq!(liveness.stall_threshold_millis(), 1_500);
    liveness.record_success();
    assert_eq!(liveness.stall_threshold_millis(), 1_500);
}

#[test]
fn staleness_is_strictly_past_the_threshold() {
    assert_eq!(stale_millis(1_010, 1_000, 10), None);
    assert_eq!(stale_millis(1_011, 1_000, 10), Some(11));
    assert_eq!(stale_millis(5, 1_000, 0), None);
}

#[test]
fn unhealthy_report_counts_whole_seconds() {
    let r = health_report(Some(61_999));
    assert_eq!(r.status, 503);
    assert_eq!(r.seconds_since_last_batch, Some(61));
    let ok = health_report(None);
    assert_eq!(ok.status, 200);
    assert_eq!(ok.seconds_since_last_batch, None);
}
