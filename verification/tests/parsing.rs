use nox_ingestor::chain::parser::{Log, NoxEvent, NoxEventParser};
use nox_ingestor::chain::reader::{
    assemble_batch, batch_end_block, collect_events, empty_batch, to_handle,
};
use nox_ingestor::chain::split::{filter_contract_logs, logs_from_block_receipts};
use nox_ingestor::error::ChainError;
use nox_ingestor::events::Operator;

const CONTRACT: [u8; 20] = [0xaa; 20];

fn word(b: u8) -> [u8; 32] {
    [b; 32]
}

fn caller_topic(caller: [u8; 20]) -> [u8; 32] {
    let mut t = [0u8; 32];
    t[12..].copy_from_slice(&caller);
    t
}

fn nox_log(
    parser: &NoxEventParser,
    kind: usize,
    caller: [u8; 20],
    words: &[[u8; 32]],
    block: u64,
    index: u64,
    tx: u8,
) -> Log {
    let mut data = Vec::new();
    for w in words {
        data.extend_from_slice(w);
    }
    Log {
        address: CONTRACT,
        topics: vec![parser.event_signatures()[kind], caller_topic(caller)],
        data,
        block_number: Some(block),
        transaction_hash: Some([tx; 32]),
        log_index: Some(index),
    }
}

#[test]
fn signatures_are_keccak_of_the_canonical_event_signatures() {
    let parser = NoxEventParser::new(CONTRACT);
    let sigs = parser.event_signatures();
    assert_eq!(sigs.len(), 16);
    let texts = [
        "PlaintextToEncrypted(address,uint256,uint8,bytes32)",
        "Add(address,bytes32,bytes32,bytes32)",
        "SafeAdd(address,bytes32,bytes32,bytes32,bytes32)",
        "Select(address,bytes32,bytes32,bytes32,bytes32)",
    ];
    let idx = [0usize, 1, 5, 15];
    for (t, i) in texts.iter().zip(idx) {
        assert_eq!(sigs[i], alloy::primitives::keccak256(t.as_bytes()).0);
    }
    assert_ne!(sigs[0], [0u8; 32]);
    assert_eq!(parser.contract_address(), CONTRACT);
}

#[test]
fn parses_an_add_event() {
    let parser = NoxEventParser::new(CONTRACT);
    let log = nox_log(&parser, 1, [7; 20], &[word(1), word(2), word(3)], 10, 0, 9);
    match parser.parse(&log) {
        Some(NoxEvent::Add(e)) => {
            assert_eq!(e.caller, [7; 20]);
            assert_eq!(e.leftHandOperand, word(1));
            assert_eq!(e.rightHandOperand, word(2));
            assert_eq!(e.result, word(3));
        }
        other => panic!("unexpected {other:?}"),
    }
    let ev = parser.parse(&log).unwrap();
    assert_eq!(ev.event_type(), "add");
    assert_eq!(ev.caller(), [7; 20]);
}

#[test]
fn parses_plaintext_to_encrypted_with_uint_fields() {
    let parser = NoxEventParser::new(CONTRACT);
    let mut value = [0u8; 32];
    value[31] = 42;
    let mut tee = [0u8; 32];
    tee[31] = 3;
    let log = nox_log(&parser, 0, [1; 20], &[value, tee, word(0x5a)], 1, 2, 3);
    match parser.parse(&log) {
        Some(NoxEvent::PlaintextToEncrypted(e)) => {
            assert_eq!(e.value, value);
            assert_eq!(e.teeType, 3);
            assert_eq!(e.handle, word(0x5a));
        }
        other => panic!("unexpected {other:?}"),
    }
}

#[test]
fn rejects_unknown_topics_short_data_and_wrong_topic_counts() {
    let parser = NoxEventParser::new(CONTRACT);
    let mut log = nox_log(&parser, 1, [7; 20], &[word(1), word(2), word(3)], 10, 0, 9);
    log.topics[0] = word(0x11);
    assert!(parser.parse(&log).is_none());

    let mut short = nox_log(&parser, 1, [7; 20], &[word(1), word(2), word(3)], 10, 0, 9);
    short.data.truncate(95);
    assert!(parser.parse(&short).is_none());

    let mut three_topics = nox_log(&parser, 1, [7; 20], &[word(1), word(2), word(3)], 10, 0, 9);
    three_topics.topics.push(word(0));
    assert!(parser.parse(&three_topics).is_none());

    let no_topics = Log::default();
    assert!(parser.parse(&no_topics).is_none());

    let mut trailing = nox_log(&parser, 1, [7; 20], &[word(1), word(2), word(3)], 10, 0, 9);
    trailing.data.push(0xff);
    assert!(parser.parse(&trailing).is_some());

    let safe_short = nox_log(&parser, 5, [7; 20], &[word(1), word(2), word(3)], 10, 0, 9);
    assert!(parser.parse(&safe_short).is_none());
}

#[test]
fn every_event_kind_has_its_type_name() {
    let parser = NoxEventParser::new(CONTRACT);
    let names = [
        "plaintext_to_encrypted", "add", "sub", "mul", "div", "safe_add", "safe_sub",
        "safe_mul", "safe_div", "eq", "ne", "ge", "gt", "le", "lt", "select",
    ];
    for (k, name) in names.iter().enumerate() {
        let log = nox_log(&parser, k, [2; 20], &[word(1), word(2), word(3), word(4)], 1, 1, 1);
        assert_eq!(parser.parse(&log).unwrap().event_type(), *name);
    }
}

#[test]
fn handles_are_prefixed_lowercase_hex() {
    let mut b = [0u8; 32];
    b[0] = 0xAB;
    b[31] = 0x0f;
    let h = to_handle(&b);
    assert_eq!(h.len(), 66);
    assert!(h.starts_with("0xab00"));
    assert!(h.ends_with("000f"));
    assert_eq!(h, format!("{:#x}", alloy::primitives::B256::from(b)));
}

#[test]
fn operator_values_are_decimal_and_handles_hex() {
    let parser = NoxEventParser::new(CONTRACT);
    let big = alloy::primitives::U256::from(10u64).pow(alloy::primitives::U256::from(30u64));
    let value: [u8; 32] = big.to_be_bytes();
    let mut tee = [0u8; 32];
    tee[31] = 1;
    let logs = vec![nox_log(&parser, 0, [3; 20], &[value, tee, word(0xcd)], 4, 0, 5)];
    let events = collect_events(&parser, &logs);
    assert_eq!(events.len(), 1);
    match &events[0].event.operator {
        Operator::PlaintextToEncrypted(op) => {
            assert_eq!(op.value, "1000000000000000000000000000000");
            assert_eq!(op.tee_type, 1);
            assert_eq!(op.handle, format!("0x{}", "cd".repeat(32)));
        }
        other => panic!("unexpected {other:?}"),
    }
    assert_eq!(events[0].tx_hash, format!("0x{}", "05".repeat(32)));
    assert_eq!(events[0].block_number, 4);
}

#[test]
fn logs_without_position_are_skipped() {
    let parser = NoxEventParser::new(CONTRACT);
    let mut log = nox_log(&parser, 1, [7; 20], &[word(1), word(2), word(3)], 10, 0, 9);
    log.transaction_hash = None;
    let mut log2 = nox_log(&parser, 1, [7; 20], &[word(1), word(2), word(3)], 10, 1, 9);
    log2.log_index = None;
    let mut log3 = nox_log(&parser, 1, [7; 20], &[word(1), word(2), word(3)], 10, 2, 9);
    log3.block_number = None;
    assert!(collect_events(&parser, &vec![log, log2, log3]).is_empty());
}

#[test]
fn batch_groups_by_transaction_and_orders_everything() {
    let parser = NoxEventParser::new(CONTRACT);
    let w = [word(1), word(2), word(3)];
    let logs = vec![
        nox_log(&parser, 1, [1; 20], &w, 12, 4, 0xb),
        nox_log(&parser, 2, [2; 20], &w, 11, 7, 0xa),
        nox_log(&parser, 3, [1; 20], &w, 12, 1, 0xb),
        nox_log(&parser, 4, [3; 20], &w, 11, 2, 0xc),
        nox_log(&parser, 9, [2; 20], &w, 11, 9, 0xa),
    ];
    let batch = assemble_batch(&parser, 421614, &logs, 11, 12);
    assert_eq!(batch.start_block, 11);
    assert_eq!(batch.end_block, 12);
    let txs = &batch.transactions;
    assert_eq!(txs.len(), 3);
    assert_eq!(txs[0].transaction_hash, format!("0x{}", "0c".repeat(32)));
    assert_eq!(txs[0].first_log_index, 2);
    assert_eq!(txs[1].transaction_hash, format!("0x{}", "0a".repeat(32)));
    assert_eq!(txs[1].first_log_index, 7);
    assert_eq!(txs[1].events.iter().map(|e| e.log_index).collect::<Vec<_>>(), vec![7, 9]);
    assert_eq!(txs[1].caller, [2; 20]);
    assert_eq!(txs[2].transaction_hash, format!("0x{}", "0b".repeat(32)));
    assert_eq!(txs[2].block_number, 12);
    assert_eq!(txs[2].events.iter().map(|e| e.log_index).collect::<Vec<_>>(), vec![1, 4]);
    assert!(matches!(txs[2].events[0].operator, Operator::Mul(_)));
    assert!(txs.iter().all(|t| t.chain_id == 421614));
}

#[test]
fn batch_range_is_clamped_to_the_head() {
    assert_eq!(batch_end_block(100, 120, 50), Some(120));
    assert_eq!(batch_end_block(100, 500, 50), Some(149));
    assert_eq!(batch_end_block(100, 100, 1), Some(100));
    assert_eq!(batch_end_block(101, 100, 50), None);
    let e = empty_batch(101);
    assert!(e.transactions.is_empty());
    assert_eq!(e.end_block, 100);
    assert_eq!(empty_batch(0).end_block, 0);
}

#[test]
fn receipt_logs_are_filtered_by_contract_and_topic() {
    let parser = NoxEventParser::new(CONTRACT);
    let sigs = parser.event_signatures();
    let w = [word(1), word(2), word(3)];
    let keep1 = nox_log(&parser, 1, [1; 20], &w, 1, 0, 1);
    let mut other_contract = nox_log(&parser, 1, [1; 20], &w, 1, 1, 1);
    other_contract.address = [0xbb; 20];
    let mut unknown_topic = nox_log(&parser, 1, [1; 20], &w, 1, 2, 1);
    unknown_topic.topics[0] = word(0x77);
    let no_topic = Log { address: CONTRACT, ..Default::default() };
    let keep2 = nox_log(&parser, 15, [1; 20], &[word(1), word(2), word(3), word(4)], 1, 4, 1);
    let out = filter_contract_logs(
        vec![keep1, other_contract, unknown_topic, no_topic, keep2],
        &CONTRACT,
        &sigs,
    );
    assert_eq!(out.iter().map(|l| l.log_index).collect::<Vec<_>>(), vec![Some(0), Some(4)]);
}

#[test]
fn every_kind_round_trips_whatever_the_emitter() {
    let parser = NoxEventParser::new(CONTRACT);
    let sigs = parser.event_signatures();
    for j in 0..16 {
        for k in (j + 1)..16 {
            assert_ne!(sigs[j], sigs[k]);
        }
    }
    let names = [
        "plaintext_to_encrypted", "add", "sub", "mul", "div", "safe_add", "safe_sub", "safe_mul",
        "safe_div", "eq", "ne", "ge", "gt", "le", "lt", "select",
    ];
    for kind in 0..16usize {
        let caller = [kind as u8 + 1; 20];
        let n = if kind == 0 || (1..=4).contains(&kind) || (9..=14).contains(&kind) { 3 } else { 4 };
        let mut words: Vec<[u8; 32]> = (0..n).map(|i| word(0x10 * (i as u8 + 1) + kind as u8)).collect();
        if kind == 0 {
            let mut tee = [0u8; 32];
            tee[31] = 7;
            words[1] = tee;
        }
        let mut log = nox_log(&parser, kind, caller, &words, 1, 0, 1);
        log.address = [0x55; 20];
        let ev = parser.parse(&log).expect("an encoded event parses");
        assert_eq!(ev.event_type(), names[kind]);
        assert_eq!(ev.caller(), caller);
        match ev {
            NoxEvent::PlaintextToEncrypted(e) => {
                assert_eq!(e.value, words[0]);
                assert_eq!(e.teeType, 7);
                assert_eq!(e.handle, words[2]);
            }
            NoxEvent::Select(e) => {
                assert_eq!([e.condition, e.ifTrue, e.ifFalse, e.result], [words[0], words[1], words[2], words[3]]);
            }
            NoxEvent::SafeAdd(e) | NoxEvent::SafeSub(e) | NoxEvent::SafeMul(e) | NoxEvent::SafeDiv(e) => {
                assert_eq!(
                    [e.leftHandOperand, e.rightHandOperand, e.success, e.result],
                    [words[0], words[1], words[2], words[3]]
                );
            }
            NoxEvent::Add(e) | NoxEvent::Sub(e) | NoxEvent::Mul(e) | NoxEvent::Div(e) | NoxEvent::Eq(e)
            | NoxEvent::Ne(e) | NoxEvent::Ge(e) | NoxEvent::Gt(e) | NoxEvent::Le(e) | NoxEvent::Lt(e) => {
                assert_eq!([e.leftHandOperand, e.rightHandOperand, e.result], [words[0], words[1], words[2]]);
            }
        }
    }
}

#[test]
fn block_receipts_give_the_contract_logs_or_a_missing_receipts_error() {
    let parser = NoxEventParser::new(CONTRACT);
    let sigs = parser.event_signatures();
    let ours = nox_log(&parser, 1, [1; 20], &[word(1), word(2), word(3)], 9, 0, 1);
    let mut foreign = nox_log(&parser, 1, [1; 20], &[word(1), word(2), word(3)], 9, 1, 1);
    foreign.address = [0x01; 20];
    let ours2 = nox_log(&parser, 2, [2; 20], &[word(4), word(5), word(6)], 9, 2, 2);
    let r = logs_from_block_receipts(9, Some(vec![vec![ours, foreign], vec![ours2]]), &CONTRACT, &sigs).unwrap();
    assert_eq!(r.len(), 2);
    assert_eq!(r[0].log_index, Some(0));
    assert_eq!(r[1].log_index, Some(2));
    assert!(matches!(
        logs_from_block_receipts(9, None, &CONTRACT, &sigs),
        Err(ChainError::MissingBlockReceipts(9))
    ));
}
