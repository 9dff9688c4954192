use std::cell::Cell;

use nox_ingestor::chain::parser::Log;
use nox_ingestor::chain::split::{LogRangeSplitter, SplitAction};
use nox_ingestor::error::{ChainError, ErrorPayload, RpcError, TransportErrorKind};

fn too_large() -> ChainError {
    ChainError::Provider(RpcError::ErrorResp(ErrorPayload {
        code: -32005,
        message: "query returned more than 10000 results".to_string(),
        data: None,
    }))
}

fn other_error() -> ChainError {
    ChainError::Provider(RpcError::Transport(TransportErrorKind::BackendGone))
}

fn log_for_block(block_number: u64) -> Log {
    Log {
        block_number: Some(block_number),
        ..Default::default()
    }
}

fn failing_fallback(_block: u64) -> Result<Vec<Log>, ChainError> {
    Err(other_error())
}

/// Runs the splitter with `fetch` for `eth_getLogs` and `fetch_via_receipts` for the
/// receipts fallback, as the ingestor's RPC client does.
fn split_logs_on_error(
    from_block: u64,
    to_block: u64,
    mut fetch: impl FnMut(u64, u64) -> Result<Vec<Log>, ChainError>,
    mut fetch_via_receipts: impl FnMut(u64) -> Result<Vec<Log>, ChainError>,
) -> Result<Vec<Log>, ChainError> {
    let mut splitter = LogRangeSplitter::new(from_block, to_block);
    let mut action = splitter.first_action();
    loop {
        action = match action {
            SplitAction::Fetch { from, to } => match fetch(from, to) {
                Ok(batch) => splitter.on_fetched(batch),
                Err(e) => splitter.on_fetch_failed(e),
            },
            SplitAction::FetchReceipts { block } => match fetch_via_receipts(block) {
                Ok(batch) => splitter.on_receipts_fetched(batch),
                Err(_) => splitter.on_receipts_failed(),
            },
            SplitAction::Finish => return Ok(splitter.into_logs()),
            SplitAction::Fail(e) => return Err(e),
        };
    }
}

#[test]
fn succeeds_without_splitting_when_whole_range_fits() {
    let calls = Cell::new(0u32);
    let result = split_logs_on_error(
        10,
        20,
        |from, _to| {
            calls.set(calls.get() + 1);
            Ok(vec![log_for_block(from)])
        },
        failing_fallback,
    )
    .unwrap();

    assert_eq!(calls.get(), 1);
    assert_eq!(result.len(), 1);
}

#[test]
fn splits_once_when_whole_range_is_too_large() {
    let calls = Cell::new(0u32);
    let result = split_logs_on_error(
        10,
        11,
        |from, to| {
            calls.set(calls.get() + 1);
            if from == to {
                Ok(vec![log_for_block(from)])
            } else {
                Err(too_large())
            }
        },
        failing_fallback,
    )
    .unwrap();

    assert_eq!(calls.get(), 3);
    let mut blocks: Vec<u64> = result.iter().filter_map(|l| l.block_number).collect();
    blocks.sort();
    assert_eq!(blocks, vec![10, 11]);
}

#[test]
fn recurses_multiple_levels_and_partitions_the_range_exactly() {
    let result = split_logs_on_error(
        10,
        25,
        |from, to| {
            if to - from < 4 {
                Ok((from..=to).map(log_for_block).collect())
            } else {
                Err(too_large())
            }
        },
        failing_fallback,
    )
    .unwrap();

    let mut blocks: Vec<u64> = result.iter().filter_map(|l| l.block_number).collect();
    blocks.sort();
    assert_eq!(blocks, (10..=25).collect::<Vec<_>>());
}

#[test]
fn irreducible_single_block_propagates_without_further_splitting() {
    let calls = Cell::new(0u32);
    let result = split_logs_on_error(
        5,
        5,
        |_from, _to| {
            calls.set(calls.get() + 1);
            Err(too_large())
        },
        failing_fallback,
    );

    assert!(result.is_err());
    assert_eq!(calls.get(), 1);
}

#[test]
fn non_log_cap_error_propagates_immediately_without_splitting() {
    let calls = Cell::new(0u32);
    let result = split_logs_on_error(
        10,
        20,
        |_from, _to| {
            calls.set(calls.get() + 1);
            Err(other_error())
        },
        failing_fallback,
    );

    assert!(result.is_err());
    assert_eq!(calls.get(), 1);
}

#[test]
fn block_receipts_fallback_recovers_an_irreducible_block() {
    let fallback_calls = Cell::new(0u32);
    let result = split_logs_on_error(
        5,
        5,
        |_from, _to| Err(too_large()),
        |block| {
            fallback_calls.set(fallback_calls.get() + 1);
            Ok(vec![log_for_block(block)])
        },
    )
    .unwrap();

    assert_eq!(fallback_calls.get(), 1);
    assert_eq!(
        result
            .iter()
            .filter_map(|l| l.block_number)
            .collect::<Vec<_>>(),
        vec![5]
    );
}

#[test]
fn block_receipts_fallback_failure_still_propagates_the_original_too_large_error() {
    let result = split_logs_on_error(
        5,
        5,
        |_from, _to| Err(too_large()),
        |_block| Err(other_error()),
    );

    let err = result.expect_err("both eth_getLogs and the fallback failed");
    assert!(err.is_log_response_too_large());
}

#[test]
fn ranges_are_fetched_left_to_right_and_halved_at_the_midpoint() {
    let mut requests = Vec::new();
    let result = split_logs_on_error(
        0,
        9,
        |from, to| {
            requests.push((from, to));
            if to - from < 3 {
                Ok((from..=to).map(log_for_block).collect())
            } else {
                Err(too_large())
            }
        },
        failing_fallback,
    )
    .unwrap();

    assert_eq!(
        requests,
        vec![(0, 9), (0, 4), (0, 2), (3, 4), (5, 9), (5, 7), (8, 9)]
    );
    let blocks: Vec<u64> = result.iter().filter_map(|l| l.block_number).collect();
    assert_eq!(blocks, (0..=9).collect::<Vec<_>>());
}

#[test]
fn a_failing_block_inside_a_split_range_is_recovered_by_its_receipts() {
    let mut fallbacks = Vec::new();
    let result = split_logs_on_error(
        1,
        3,
        |from, to| {
            if from <= 2 && 2 <= to {
                Err(too_large())
            } else {
                Ok((from..=to).map(log_for_block).collect())
            }
        },
        |block| {
            fallbacks.push(block);
            Ok(vec![log_for_block(block)])
        },
    )
    .unwrap();

    assert_eq!(fallbacks, vec![2]);
    let blocks: Vec<u64> = result.iter().filter_map(|l| l.block_number).collect();
    assert_eq!(blocks, vec![1, 2, 3]);
}
