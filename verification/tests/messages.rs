use nox_ingestor::events::{BinaryOperation, Operator, TransactionEvent, TransactionMessage};
use nox_ingestor::nats::buffer::MessageBuffer;
use std::time::Duration;

use nox_ingestor::config::NatsConfig;
use nox_ingestor::nats::client::{
    desired_stream, state_after_event, stream_create_error, NatsEvent, stream_setup_action, stream_subjects, ConnectionState,
    StreamLookup, StreamRetention, StreamSetupAction, StreamStorage,
};
use nox_ingestor::error::NatsError;

fn message(tx: &str) -> TransactionMessage {
    TransactionMessage::new(421614, [9; 20], 7, 3, tx.to_string(), vec![TransactionEvent {
        log_index: 3,
        caller: [9; 20],
        operator: Operator::Add(BinaryOperation {
            left_hand_operand: "0x01".to_string(),
            right_hand_operand: "0x02".to_string(),
            result: "0x03".to_string(),
        }),
    }])
}

#[test]
fn checksum_is_keccak_of_chain_and_transaction() {
    let m = message("0xabc");
    let expected = alloy::primitives::keccak256("421614:0xabc".as_bytes()).to_string();
    assert_eq!(m.compute_checksum(), expected);
    assert_eq!(m.compute_checksum().len(), 66);
    assert!(m.compute_checksum().starts_with("0x"));
}

#[test]
fn checksum_ignores_events_and_block() {
    let a = message("0xabc");
    let b = TransactionMessage::new(421614, [1; 20], 99, 0, "0xabc".to_string(), Vec::new());
    assert_eq!(a.compute_checksum(), b.compute_checksum());
    let c = TransactionMessage::new(1, [1; 20], 99, 0, "0xabc".to_string(), Vec::new());
    assert_ne!(a.compute_checksum(), c.compute_checksum());
}

#[test]
fn subject_appends_transaction_hash() {
    assert_eq!(message("0xabc").subject("nox_ingestor"), "nox_ingestor.0xabc");
    assert_eq!(message("0x1").subject(""), ".0x1");
}

#[test]
fn buffer_capacity_is_clamped() {
    assert_eq!(MessageBuffer::new(5000).capacity(), 1000);
    assert_eq!(MessageBuffer::new(3).capacity(), 3);
    assert!(MessageBuffer::new(0).is_full());
}

#[test]
fn buffer_is_fifo_and_rejects_when_full() {
    let mut b = MessageBuffer::new(2);
    assert!(b.is_empty());
    b.push(message("0x1")).unwrap();
    b.push(message("0x2")).unwrap();
    assert!(b.is_full());
    match b.push(message("0x3")) {
        Err(NatsError::BufferFull { capacity }) => assert_eq!(capacity, 2),
        other => panic!("unexpected {other:?}"),
    }
    assert_eq!(b.len(), 2);
    assert_eq!(b.pop().unwrap().transaction_hash, "0x1");
    assert_eq!(b.pop().unwrap().transaction_hash, "0x2");
    assert!(b.pop().is_none());
}

#[test]
fn buffer_front_operations_keep_order_and_bypass_capacity() {
    let mut b = MessageBuffer::new(1);
    b.push(message("0x3")).unwrap();
    b.push_front(message("0x2"));
    b.extend_front(vec![message("0x0"), message("0x1")]);
    assert_eq!(b.len(), 4);
    let drained: Vec<String> = b.drain().into_iter().map(|m| m.transaction_hash).collect();
    assert_eq!(drained, vec!["0x0", "0x1", "0x2", "0x3"]);
    assert!(b.is_empty());
}

#[test]
fn connection_state_names() {
    assert_eq!(ConnectionState::Connected.as_str(), "Connected");
    assert_eq!(ConnectionState::Disconnected.as_str(), "Disconnected");
    assert!(ConnectionState::Connected.is_connected());
    assert!(!ConnectionState::Disconnected.is_connected());
}

fn nats_config(stream_name: &str) -> NatsConfig {
    NatsConfig {
        url: "nats://localhost:4222".to_string(),
        stream_name: stream_name.to_string(),
        subject: "nox_ingestor".to_string(),
        retention: Duration::from_secs(86_400),
        duplicate_window: Duration::from_secs(600),
    }
}

#[test]
fn stream_setup_decisions() {
    let config = nats_config("s");
    assert_eq!(stream_subjects("nox_ingestor"), "nox_ingestor.>");
    assert!(matches!(
        stream_setup_action(StreamLookup::Found { stored_replicas: 3 }, &config, 3),
        StreamSetupAction::UseExisting { replicas_match: true }
    ));
    assert!(matches!(
        stream_setup_action(StreamLookup::Found { stored_replicas: 1 }, &config, 3),
        StreamSetupAction::UseExisting { replicas_match: false }
    ));
    match stream_setup_action(StreamLookup::NotFound, &config, 3) {
        StreamSetupAction::Create(spec) => {
            assert_eq!(spec.name, "s");
            assert_eq!(spec.subjects, vec!["nox_ingestor.>".to_string()]);
            assert_eq!(spec.retention, StreamRetention::Limits);
            assert_eq!(spec.max_age, Duration::from_secs(86_400));
            assert_eq!(spec.storage, StreamStorage::File);
            assert_eq!(spec.num_replicas, 3);
            assert_eq!(spec.duplicate_window, Duration::from_secs(600));
        }
        other => panic!("unexpected {other:?}"),
    }
    match stream_setup_action(StreamLookup::Failed("timeout".to_string()), &nats_config("nox"), 3) {
        StreamSetupAction::Fail(NatsError::StreamSetup(text)) => {
            assert_eq!(text, "Failed to query stream nox: timeout")
        }
        other => panic!("unexpected {other:?}"),
    }
}

#[test]
fn desired_stream_follows_the_configuration() {
    let spec = desired_stream(&nats_config("nox_ingestor"), 1);
    assert_eq!(spec.name, "nox_ingestor");
    assert_eq!(spec.subjects, vec!["nox_ingestor.>".to_string()]);
    assert_eq!(spec.num_replicas, 1);
    match stream_create_error("insufficient resources") {
        NatsError::StreamSetup(text) => assert_eq!(text, "Failed to create stream: insufficient resources"),
        other => panic!("unexpected {other:?}"),
    }
}

#[test]
fn only_connect_and_disconnect_events_change_the_state() {
    assert_eq!(state_after_event(&NatsEvent::Connected), Some(ConnectionState::Connected));
    assert_eq!(state_after_event(&NatsEvent::Disconnected), Some(ConnectionState::Disconnected));
    assert_eq!(state_after_event(&NatsEvent::LameDuckMode), None);
    assert_eq!(state_after_event(&NatsEvent::SlowConsumer(4)), None);
    assert_eq!(state_after_event(&NatsEvent::ServerError("x".to_string())), None);
    assert_eq!(state_after_event(&NatsEvent::Other), None);
}

#[test]
fn stable_sort_keeps_equal_keys_in_input_order() {
    let msgs = vec![message("0xc"), message("0xa"), message("0xb")];
    let sorted = nox_ingestor::sort::stable_sort_by_key(msgs);
    let hashes: Vec<&str> = sorted.iter().map(|m| m.transaction_hash.as_str()).collect();
    assert_eq!(hashes, vec!["0xc", "0xa", "0xb"]);
}
