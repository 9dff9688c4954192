use std::time::Duration;

use nox_ingestor::application::{determine_start_block, must_wait_for_blocks, progress_after_batch};
use nox_ingestor::chain::reader::BatchResult;
use nox_ingestor::config::{AppConfig, ChainConfig, Config, NatsConfig};
use nox_ingestor::error::{NoxError, StateError};
use nox_ingestor::state::{PersistedState, StateFile, StateStore};
use nox_ingestor::text::decimal_string;

fn parsed(last_block: u64, chain_id: u32) -> StateFile {
    StateFile::Parsed(PersistedState { last_block, chain_id, updated_at: 1 })
}

#[test]
fn state_file_of_another_chain_is_refused() {
    match StateStore::from_state_file("s.json".to_string(), 1, 5, parsed(10, 2)) {
        Err(StateError::ChainIdMismatch { expected, actual }) => {
            assert_eq!(expected, 1);
            assert_eq!(actual, 2);
        }
        other => panic!("unexpected {other:?}"),
    }
}

#[test]
fn state_resumes_from_file_or_starts_fresh() {
    let s = StateStore::from_state_file("s.json".to_string(), 1, 5, parsed(10, 1)).unwrap();
    assert_eq!(s.get(), 10);
    assert!(s.was_loaded_from_file());
    assert_eq!(determine_start_block(&s).unwrap(), 11);
    for f in [StateFile::Missing, StateFile::Unparsable, StateFile::Unreadable] {
        let s = StateStore::from_state_file("s.json".to_string(), 1, 5, f).unwrap();
        assert_eq!(s.get(), 5);
        assert!(!s.was_loaded_from_file());
        assert_eq!(determine_start_block(&s).unwrap(), 5);
        assert_eq!(s.path(), "s.json");
    }
}

#[test]
fn no_state_and_no_initial_block_is_refused() {
    let s = StateStore::new_fresh("s.json".to_string(), 1, 0);
    assert!(matches!(determine_start_block(&s), Err(NoxError::NoInitialBlock)));
    let loaded_zero = StateStore::from_state_file("s.json".to_string(), 1, 0, parsed(0, 1)).unwrap();
    assert_eq!(determine_start_block(&loaded_zero).unwrap(), 1);
}

#[test]
fn update_keeps_the_highest_block() {
    let mut s = StateStore::new_fresh("s.json".to_string(), 7, 100);
    s.update(90);
    assert_eq!(s.get(), 100);
    s.update(150);
    assert_eq!(s.get(), 150);
    let snap = s.snapshot(1234);
    assert_eq!(snap.last_block, 150);
    assert_eq!(snap.chain_id, 7);
    assert_eq!(snap.updated_at, 1234);
}

#[test]
fn loop_progress_after_batches() {
    assert!(must_wait_for_blocks(11, 10));
    assert!(!must_wait_for_blocks(10, 10));
    let batch = BatchResult { transactions: Vec::new(), start_block: 10, end_block: 59 };
    let p = progress_after_batch(10, 1000, &batch);
    assert_eq!(p.synced_to, Some(59));
    assert_eq!(p.next_block, 60);
    assert!(!p.needs_delay);
    let caught_up = BatchResult { transactions: Vec::new(), start_block: 10, end_block: 59 };
    assert!(progress_after_batch(10, 60, &caught_up).needs_delay);
    let empty = BatchResult { transactions: Vec::new(), start_block: 10, end_block: 9 };
    let q = progress_after_batch(10, 9, &empty);
    assert_eq!(q.synced_to, None);
    assert_eq!(q.next_block, 10);
    assert!(q.needs_delay);
}

fn config(state_file: &str) -> Config {
    Config {
        app: AppConfig {
            initial_block: 0,
            state_file: state_file.to_string(),
            flush_interval: Duration::from_secs(5),
        },
        chain: ChainConfig {
            chain_id: 421614,
            rpc_endpoint: "http://localhost".to_string(),
            contract_address: [0; 20],
            batch_size: 50,
            poll_delay: Duration::from_millis(500),
            retry_delay: Duration::from_millis(250),
        },
        nats: NatsConfig {
            url: "nats://localhost:4222".to_string(),
            stream_name: "nox_ingestor".to_string(),
            subject: "nox_ingestor".to_string(),
            retention: Duration::from_secs(86400),
            duplicate_window: Duration::from_secs(600),
        },
    }
}

#[test]
fn state_file_path_defaults_by_chain() {
    assert_eq!(config("").state_file_path(), "./nox_ingestor_state_421614.json");
    assert_eq!(config("custom.json").state_file_path(), "custom.json");
}

#[test]
fn decimal_rendering() {
    assert_eq!(decimal_string(0), "0");
    assert_eq!(decimal_string(421614), "421614");
    assert_eq!(decimal_string(u64::MAX), u64::MAX.to_string());
}

#[test]
fn loop_reads_every_block_once_across_iterations() {
    let mut next = 100u64;
    let mut synced: Vec<(u64, u64)> = Vec::new();
    // (chain head, end of the batch read): full batches, an empty read past the head,
    // then a batch clamped to the head.
    for (latest, end) in [(1000u64, 149u64), (1000, 199), (199, 199), (230, 230)] {
        let end = if must_wait_for_blocks(next, latest) { next - 1 } else { end };
        let batch = BatchResult { transactions: Vec::new(), start_block: next, end_block: end };
        let p = progress_after_batch(next, latest, &batch);
        if let Some(e) = p.synced_to {
            synced.push((next, e));
        }
        next = p.next_block;
    }
    assert_eq!(synced, vec![(100, 149), (150, 199), (200, 230)]);
    assert_eq!(next, 231);
}
