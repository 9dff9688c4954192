//! NOX event types and message format.
//!
//! Transaction-based message grouping: one message per transaction, holding all NOX
//! events of that transaction.

use vstd::prelude::*;

use crate::hashing::{keccak256, keccak256_digest};
use crate::text::{decimal, decimal_string, hex_prefixed, push_char, to_hex_prefixed};

verus! {

/// A 20-byte account address.
pub type Address = [u8; 20];

/// Handle of an encrypted value (hex-encoded bytes32, `0x`-prefixed).
pub type Handle = String;

/// Binary operation (add, sub, mul, div and the comparisons).
#[derive(Debug)]
pub struct BinaryOperation {
    pub left_hand_operand: Handle,
    pub right_hand_operand: Handle,
    pub result: Handle,
}

/// Safe binary operation (safe_add, safe_sub, safe_mul, safe_div).
#[derive(Debug)]
pub struct SafeBinaryOperation {
    pub left_hand_operand: Handle,
    pub right_hand_operand: Handle,
    pub success: Handle,
    pub result: Handle,
}

/// Select operation (conditional).
#[derive(Debug)]
pub struct SelectOperation {
    pub condition: Handle,
    pub if_true: Handle,
    pub if_false: Handle,
    pub result: Handle,
}

/// Encryption operation (plaintext to encrypted).
#[derive(Debug)]
pub struct EncryptionOperation {
    pub value: String,
    pub tee_type: u8,
    pub handle: Handle,
}

/// Event payload with typed variants.
#[derive(Debug)]
pub enum Operator {
    PlaintextToEncrypted(EncryptionOperation),
    Add(BinaryOperation),
    Sub(BinaryOperation),
    Mul(BinaryOperation),
    Div(BinaryOperation),
    SafeAdd(SafeBinaryOperation),
    SafeSub(SafeBinaryOperation),
    SafeMul(SafeBinaryOperation),
    SafeDiv(SafeBinaryOperation),
    Eq(BinaryOperation),
    Ne(BinaryOperation),
    Ge(BinaryOperation),
    Gt(BinaryOperation),
    Le(BinaryOperation),
    Lt(BinaryOperation),
    Select(SelectOperation),
}

/// Individual event within a transaction.
#[derive(Debug)]
pub struct TransactionEvent {
    pub log_index: u64,
    /// Caller address
    pub caller: Address,
    pub operator: Operator,
}

/// Message grouping the events of one transaction.
#[derive(Debug)]
pub struct TransactionMessage {
    /// Chain ID where the events occurred
    pub chain_id: u32,
    /// Caller address
    pub caller: Address,
    /// Block number
    pub block_number: u64,
    /// First log index in this transaction (used for ordering)
    pub first_log_index: u64,
    /// Transaction hash
    pub transaction_hash: String,
    /// Events in this transaction, ordered by log_index
    pub events: Vec<TransactionEvent>,
}

/// What an [`Operator`] says: its kind (in the order of the variants), its texts in field
/// order, and the TEE type (0 for every kind but `PlaintextToEncrypted`).
pub struct OperatorView {
    pub kind: int,
    pub texts: Seq<Seq<char>>,
    pub tee_type: u8,
}

impl View for Operator {
    type V = OperatorView;

    open spec fn view(&self) -> OperatorView {
        match self {
            Operator::PlaintextToEncrypted(o) => OperatorView { kind: 0, texts: seq![o.value@, o.handle@], tee_type: o.tee_type },
            Operator::Add(o) => OperatorView { kind: 1, texts: seq![o.left_hand_operand@, o.right_hand_operand@, o.result@], tee_type: 0 },
            Operator::Sub(o) => OperatorView { kind: 2, texts: seq![o.left_hand_operand@, o.right_hand_operand@, o.result@], tee_type: 0 },
            Operator::Mul(o) => OperatorView { kind: 3, texts: seq![o.left_hand_operand@, o.right_hand_operand@, o.result@], tee_type: 0 },
            Operator::Div(o) => OperatorView { kind: 4, texts: seq![o.left_hand_operand@, o.right_hand_operand@, o.result@], tee_type: 0 },
            Operator::SafeAdd(o) => OperatorView { kind: 5, texts: seq![o.left_hand_operand@, o.right_hand_operand@, o.success@, o.result@], tee_type: 0 },
            Operator::SafeSub(o) => OperatorView { kind: 6, texts: seq![o.left_hand_operand@, o.right_hand_operand@, o.success@, o.result@], tee_type: 0 },
            Operator::SafeMul(o) => OperatorView { kind: 7, texts: seq![o.left_hand_operand@, o.right_hand_operand@, o.success@, o.result@], tee_type: 0 },
            Operator::SafeDiv(o) => OperatorView { kind: 8, texts: seq![o.left_hand_operand@, o.right_hand_operand@, o.success@, o.result@], tee_type: 0 },
            Operator::Eq(o) => OperatorView { kind: 9, texts: seq![o.left_hand_operand@, o.right_hand_operand@, o.result@], tee_type: 0 },
            Operator::Ne(o) => OperatorView { kind: 10, texts: seq![o.left_hand_operand@, o.right_hand_operand@, o.result@], tee_type: 0 },
            Operator::Ge(o) => OperatorView { kind: 11, texts: seq![o.left_hand_operand@, o.right_hand_operand@, o.result@], tee_type: 0 },
            Operator::Gt(o) => OperatorView { kind: 12, texts: seq![o.left_hand_operand@, o.right_hand_operand@, o.result@], tee_type: 0 },
            Operator::Le(o) => OperatorView { kind: 13, texts: seq![o.left_hand_operand@, o.right_hand_operand@, o.result@], tee_type: 0 },
            Operator::Lt(o) => OperatorView { kind: 14, texts: seq![o.left_hand_operand@, o.right_hand_operand@, o.result@], tee_type: 0 },
            Operator::Select(o) => OperatorView { kind: 15, texts: seq![o.condition@, o.if_true@, o.if_false@, o.result@], tee_type: 0 },
        }
    }
}

/// What a [`TransactionEvent`] says.
pub struct TransactionEventView {
    pub log_index: u64,
    pub caller: Seq<u8>,
    pub operator: OperatorView,
}

impl View for TransactionEvent {
    type V = TransactionEventView;

    open spec fn view(&self) -> TransactionEventView {
        TransactionEventView { log_index: self.log_index, caller: self.caller@, operator: self.operator@ }
    }
}

/// What a [`TransactionMessage`] says.
pub struct MessageView {
    pub chain_id: u32,
    pub caller: Seq<u8>,
    pub block_number: u64,
    pub first_log_index: u64,
    pub transaction_hash: Seq<char>,
    pub events: Seq<TransactionEventView>,
}

impl View for TransactionMessage {
    type V = MessageView;

    open spec fn view(&self) -> MessageView {
        MessageView {
            chain_id: self.chain_id,
            caller: self.caller@,
            block_number: self.block_number,
            first_log_index: self.first_log_index,
            transaction_hash: self.transaction_hash@,
            events: self.events@.map_values(|e: TransactionEvent| e@),
        }
    }
}

/// The text whose Keccak-256 digest identifies a message: `"{chain_id}:{tx_hash}"`.
pub open spec fn checksum_input(chain_id: u32, transaction_hash: Seq<char>) -> Seq<char> {
    decimal(chain_id as nat) + seq![':'] + transaction_hash
}

/// The deduplication checksum of a message: the `0x`-prefixed lowercase hex of the
/// Keccak-256 digest of the UTF-8 bytes of [`checksum_input`].
pub open spec fn checksum(chain_id: u32, transaction_hash: Seq<char>) -> Seq<char> {
    hex_prefixed(
        keccak256_digest(vstd::utf8::encode_utf8(checksum_input(chain_id, transaction_hash))),
    )
}

/// The subject of a message: `"{base_subject}.{tx_hash}"`.
pub open spec fn subject_of(base_subject: Seq<char>, transaction_hash: Seq<char>) -> Seq<char> {
    base_subject + seq!['.'] + transaction_hash
}

impl TransactionMessage {
    /// Creates a new transaction message.
    pub fn new(
        chain_id: u32,
        caller: Address,
        block_number: u64,
        first_log_index: u64,
        transaction_hash: String,
        events: Vec<TransactionEvent>,
    ) -> (m: Self)
        ensures
            m.chain_id == chain_id,
            m.caller == caller,
            m.block_number == block_number,
            m.first_log_index == first_log_index,
            m.transaction_hash == transaction_hash,
            m.events == events,
    {
        TransactionMessage {
            chain_id,
            caller,
            block_number,
            first_log_index,
            transaction_hash,
            events,
        }
    }

    /// A checksum for deduplication, based on the chain ID and the transaction hash
    /// (no log index, since events are grouped by transaction).
    pub fn compute_checksum(&self) -> (s: String)
        ensures
            s@ == checksum(self.chain_id, self.transaction_hash@),
    {
        let mut input = decimal_string(self.chain_id as u64);
        push_char(&mut input, ':');
        input.append(self.transaction_hash.as_str());
        assert(input@ == checksum_input(self.chain_id, self.transaction_hash@));
        let digest = keccak256(input.as_str().as_bytes());
        to_hex_prefixed(&digest)
    }

    /// The subject for the transaction message.
    pub fn subject(&self, base_subject: &str) -> (s: String)
        ensures
            s@ == subject_of(base_subject@, self.transaction_hash@),
    {
        let mut s = base_subject.to_owned();
        push_char(&mut s, '.');
        s.append(self.transaction_hash.as_str());
        s
    }
}

/// Messages of equal chain ID and transaction hash get equal checksums, whatever their
/// events: the checksum deduplicates re-publications of one transaction.
pub proof fn lemma_checksum_identifies_transaction(a: TransactionMessage, b: TransactionMessage)
    requires
        a.chain_id == b.chain_id,
        a.transaction_hash@ == b.transaction_hash@,
    ensures
        checksum(a.chain_id, a.transaction_hash@) == checksum(b.chain_id, b.transaction_hash@),
{
}

} // verus!
