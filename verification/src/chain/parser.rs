//! Parsing of NOX contract logs into typed events.
//!
//! Each event is identified by its first topic, the Keccak-256 digest of its canonical
//! Solidity signature. Its `caller` is the single indexed argument (second topic); the
//! other arguments are the 32-byte words of the log data, in order, as the Solidity ABI
//! lays out static arguments: an `address` is the last 20 bytes of its word, a `uint8`
//! the last byte, a `uint256` and a `bytes32` the whole word. The topic list must have
//! exactly two entries; the data must hold at least the words read (trailing bytes are
//! ignored).

use vstd::prelude::*;

use crate::events::Address;
use crate::hashing::{keccak256, keccak256_digest};
use crate::text::bytes_equal;

verus! {

/// A log as returned by the node: emitting contract, topics, data, and where it stands.
#[derive(Debug)]
pub struct Log {
    pub address: Address,
    pub topics: Vec<[u8; 32]>,
    pub data: Vec<u8>,
    pub block_number: Option<u64>,
    pub transaction_hash: Option<[u8; 32]>,
    pub log_index: Option<u64>,
}

impl Default for Log {
    fn default() -> (l: Self)
        ensures
            l.address@ == Seq::new(20, |i: int| 0u8),
            l.topics@.len() == 0,
            l.data@.len() == 0,
            l.block_number is None,
            l.transaction_hash is None,
            l.log_index is None,
    {
        let l = Log {
            address: [0u8; 20],
            topics: Vec::new(),
            data: Vec::new(),
            block_number: None,
            transaction_hash: None,
            log_index: None,
        };
        assert(l.address@ =~= Seq::new(20, |i: int| 0u8));
        l
    }
}

/// `PlaintextToEncrypted(address indexed caller, uint256 value, uint8 teeType, bytes32 handle)`
#[allow(non_snake_case)]
#[derive(Debug)]
pub struct PlaintextToEncrypted {
    pub caller: Address,
    /// Big-endian bytes of the `uint256`.
    pub value: [u8; 32],
    pub teeType: u8,
    pub handle: [u8; 32],
}

/// An operation on two operands:
/// `(address indexed caller, bytes32 leftHandOperand, bytes32 rightHandOperand, bytes32 result)`
#[allow(non_snake_case)]
#[derive(Debug)]
pub struct BinaryOperationEvent {
    pub caller: Address,
    pub leftHandOperand: [u8; 32],
    pub rightHandOperand: [u8; 32],
    pub result: [u8; 32],
}

/// A checked operation on two operands: `(address indexed caller, bytes32 leftHandOperand,
/// bytes32 rightHandOperand, bytes32 success, bytes32 result)`
#[allow(non_snake_case)]
#[derive(Debug)]
pub struct SafeBinaryOperationEvent {
    pub caller: Address,
    pub leftHandOperand: [u8; 32],
    pub rightHandOperand: [u8; 32],
    pub success: [u8; 32],
    pub result: [u8; 32],
}

/// `Select(address indexed caller, bytes32 condition, bytes32 ifTrue, bytes32 ifFalse, bytes32 result)`
#[allow(non_snake_case)]
#[derive(Debug)]
pub struct Select {
    pub caller: Address,
    pub condition: [u8; 32],
    pub ifTrue: [u8; 32],
    pub ifFalse: [u8; 32],
    pub result: [u8; 32],
}

pub type Add = BinaryOperationEvent;

pub type Sub = BinaryOperationEvent;

pub type Mul = BinaryOperationEvent;

pub type Div = BinaryOperationEvent;

pub type SafeAdd = SafeBinaryOperationEvent;

pub type SafeSub = SafeBinaryOperationEvent;

pub type SafeMul = SafeBinaryOperationEvent;

pub type SafeDiv = SafeBinaryOperationEvent;

pub type Eq = BinaryOperationEvent;

pub type Ne = BinaryOperationEvent;

pub type Ge = BinaryOperationEvent;

pub type Gt = BinaryOperationEvent;

pub type Le = BinaryOperationEvent;

pub type Lt = BinaryOperationEvent;

/// Parsed NOX event with strongly typed data.
#[derive(Debug)]
pub enum NoxEvent {
    PlaintextToEncrypted(PlaintextToEncrypted),
    Add(Add),
    Sub(Sub),
    Mul(Mul),
    Div(Div),
    SafeAdd(SafeAdd),
    SafeSub(SafeSub),
    SafeMul(SafeMul),
    SafeDiv(SafeDiv),
    Eq(Eq),
    Ne(Ne),
    Ge(Ge),
    Gt(Gt),
    Le(Le),
    Lt(Lt),
    Select(Select),
}

/// Number of NOX event kinds.
pub const EVENT_KIND_COUNT: usize = 16;

/// The canonical Solidity signature of event kind `k`, in the order of [`NoxEvent`]'s variants.
pub open spec fn event_signature_text(k: int) -> Seq<char> {
    if k == 0 {
        "PlaintextToEncrypted(address,uint256,uint8,bytes32)"@
    } else if k == 1 {
        "Add(address,bytes32,bytes32,bytes32)"@
    } else if k == 2 {
        "Sub(address,bytes32,bytes32,bytes32)"@
    } else if k == 3 {
        "Mul(address,bytes32,bytes32,bytes32)"@
    } else if k == 4 {
        "Div(address,bytes32,bytes32,bytes32)"@
    } else if k == 5 {
        "SafeAdd(address,bytes32,bytes32,bytes32,bytes32)"@
    } else if k == 6 {
        "SafeSub(address,bytes32,bytes32,bytes32,bytes32)"@
    } else if k == 7 {
        "SafeMul(address,bytes32,bytes32,bytes32,bytes32)"@
    } else if k == 8 {
        "SafeDiv(address,bytes32,bytes32,bytes32,bytes32)"@
    } else if k == 9 {
        "Eq(address,bytes32,bytes32,bytes32)"@
    } else if k == 10 {
        "Ne(address,bytes32,bytes32,bytes32)"@
    } else if k == 11 {
        "Ge(address,bytes32,bytes32,bytes32)"@
    } else if k == 12 {
        "Gt(address,bytes32,bytes32,bytes32)"@
    } else if k == 13 {
        "Le(address,bytes32,bytes32,bytes32)"@
    } else if k == 14 {
        "Lt(address,bytes32,bytes32,bytes32)"@
    } else {
        "Select(address,bytes32,bytes32,bytes32,bytes32)"@
    }
}

/// The first topic of a log of event kind `k`.
pub open spec fn signature_hash(k: int) -> Seq<u8> {
    keccak256_digest(vstd::utf8::encode_utf8(event_signature_text(k)))
}

/// The number of data words of event kind `k` (all arguments but the indexed caller).
pub open spec fn data_word_count(k: int) -> int {
    if k == 0 || (1 <= k <= 4) || (9 <= k <= 14) {
        3
    } else {
        4
    }
}

/// The first event kind from `k` on whose signature hash is `topic`.
pub open spec fn kind_from(topic: Seq<u8>, k: int) -> Option<int>
    decreases EVENT_KIND_COUNT - k,
{
    if k >= EVENT_KIND_COUNT || k < 0 {
        None
    } else if signature_hash(k) == topic {
        Some(k)
    } else {
        kind_from(topic, k + 1)
    }
}

/// The event kind a first topic names, if any (the first in [`NoxEvent`]'s order).
pub open spec fn kind_of_topic(topic: Seq<u8>) -> Option<int> {
    kind_from(topic, 0)
}

/// The `i`-th 32-byte word of `data`.
pub open spec fn data_word(data: Seq<u8>, i: int) -> Seq<u8> {
    data.subrange(32 * i, 32 * i + 32)
}

/// The address held by a 32-byte word: its last 20 bytes.
pub open spec fn word_address(word: Seq<u8>) -> Seq<u8> {
    word.subrange(12, 32)
}

/// The event kind of a log, if its first topic names one.
pub open spec fn log_kind(log: Log) -> Option<int> {
    if log.topics@.len() == 0 {
        None
    } else {
        kind_of_topic(log.topics@[0]@)
    }
}

/// A log of a known kind that the ABI layout of that kind can be read from.
pub open spec fn log_decodes(log: Log) -> bool {
    match log_kind(log) {
        Some(k) => log.topics@.len() == 2 && log.data@.len() >= 32 * data_word_count(k),
        None => false,
    }
}

impl NoxEvent {
    /// The kind of the event, in the order of the variants.
    pub open spec fn kind(self) -> int {
        match self {
            NoxEvent::PlaintextToEncrypted(_) => 0,
            NoxEvent::Add(_) => 1,
            NoxEvent::Sub(_) => 2,
            NoxEvent::Mul(_) => 3,
            NoxEvent::Div(_) => 4,
            NoxEvent::SafeAdd(_) => 5,
            NoxEvent::SafeSub(_) => 6,
            NoxEvent::SafeMul(_) => 7,
            NoxEvent::SafeDiv(_) => 8,
            NoxEvent::Eq(_) => 9,
            NoxEvent::Ne(_) => 10,
            NoxEvent::Ge(_) => 11,
            NoxEvent::Gt(_) => 12,
            NoxEvent::Le(_) => 13,
            NoxEvent::Lt(_) => 14,
            NoxEvent::Select(_) => 15,
        }
    }

    /// The indexed caller of the event.
    pub open spec fn spec_caller(self) -> Address {
        match self {
            NoxEvent::PlaintextToEncrypted(e) => e.caller,
            NoxEvent::Add(e) => e.caller,
            NoxEvent::Sub(e) => e.caller,
            NoxEvent::Mul(e) => e.caller,
            NoxEvent::Div(e) => e.caller,
            NoxEvent::SafeAdd(e) => e.caller,
            NoxEvent::SafeSub(e) => e.caller,
            NoxEvent::SafeMul(e) => e.caller,
            NoxEvent::SafeDiv(e) => e.caller,
            NoxEvent::Eq(e) => e.caller,
            NoxEvent::Ne(e) => e.caller,
            NoxEvent::Ge(e) => e.caller,
            NoxEvent::Gt(e) => e.caller,
            NoxEvent::Le(e) => e.caller,
            NoxEvent::Lt(e) => e.caller,
            NoxEvent::Select(e) => e.caller,
        }
    }

    /// The data words the event's fields hold, in ABI order.
    pub open spec fn data_words(self) -> Seq<Seq<u8>> {
        match self {
            NoxEvent::PlaintextToEncrypted(e) => seq![e.value@, Seq::new(32, |i: int| if i == 31 { e.teeType } else { 0u8 }), e.handle@],
            NoxEvent::Add(e) => seq![e.leftHandOperand@, e.rightHandOperand@, e.result@],
            NoxEvent::Sub(e) => seq![e.leftHandOperand@, e.rightHandOperand@, e.result@],
            NoxEvent::Mul(e) => seq![e.leftHandOperand@, e.rightHandOperand@, e.result@],
            NoxEvent::Div(e) => seq![e.leftHandOperand@, e.rightHandOperand@, e.result@],
            NoxEvent::SafeAdd(e) => seq![e.leftHandOperand@, e.rightHandOperand@, e.success@, e.result@],
            NoxEvent::SafeSub(e) => seq![e.leftHandOperand@, e.rightHandOperand@, e.success@, e.result@],
            NoxEvent::SafeMul(e) => seq![e.leftHandOperand@, e.rightHandOperand@, e.success@, e.result@],
            NoxEvent::SafeDiv(e) => seq![e.leftHandOperand@, e.rightHandOperand@, e.success@, e.result@],
            NoxEvent::Eq(e) => seq![e.leftHandOperand@, e.rightHandOperand@, e.result@],
            NoxEvent::Ne(e) => seq![e.leftHandOperand@, e.rightHandOperand@, e.result@],
            NoxEvent::Ge(e) => seq![e.leftHandOperand@, e.rightHandOperand@, e.result@],
            NoxEvent::Gt(e) => seq![e.leftHandOperand@, e.rightHandOperand@, e.result@],
            NoxEvent::Le(e) => seq![e.leftHandOperand@, e.rightHandOperand@, e.result@],
            NoxEvent::Lt(e) => seq![e.leftHandOperand@, e.rightHandOperand@, e.result@],
            NoxEvent::Select(e) => seq![e.condition@, e.ifTrue@, e.ifFalse@, e.result@],
        }
    }

    /// The snake_case name of the event's kind.
    pub open spec fn event_type_name(self) -> Seq<char> {
        match self {
            NoxEvent::PlaintextToEncrypted(_) => "plaintext_to_encrypted"@,
            NoxEvent::Add(_) => "add"@,
            NoxEvent::Sub(_) => "sub"@,
            NoxEvent::Mul(_) => "mul"@,
            NoxEvent::Div(_) => "div"@,
            NoxEvent::SafeAdd(_) => "safe_add"@,
            NoxEvent::SafeSub(_) => "safe_sub"@,
            NoxEvent::SafeMul(_) => "safe_mul"@,
            NoxEvent::SafeDiv(_) => "safe_div"@,
            NoxEvent::Eq(_) => "eq"@,
            NoxEvent::Ne(_) => "ne"@,
            NoxEvent::Ge(_) => "ge"@,
            NoxEvent::Gt(_) => "gt"@,
            NoxEvent::Le(_) => "le"@,
            NoxEvent::Lt(_) => "lt"@,
            NoxEvent::Select(_) => "select"@,
        }
    }

    pub fn event_type(&self) -> (s: &'static str)
        ensures
            s@ == self.event_type_name(),
    {
        match self {
            NoxEvent::PlaintextToEncrypted(_) => "plaintext_to_encrypted",
            NoxEvent::Add(_) => "add",
            NoxEvent::Sub(_) => "sub",
            NoxEvent::Mul(_) => "mul",
            NoxEvent::Div(_) => "div",
            NoxEvent::SafeAdd(_) => "safe_add",
            NoxEvent::SafeSub(_) => "safe_sub",
            NoxEvent::SafeMul(_) => "safe_mul",
            NoxEvent::SafeDiv(_) => "safe_div",
            NoxEvent::Eq(_) => "eq",
            NoxEvent::Ne(_) => "ne",
            NoxEvent::Ge(_) => "ge",
            NoxEvent::Gt(_) => "gt",
            NoxEvent::Le(_) => "le",
            NoxEvent::Lt(_) => "lt",
            NoxEvent::Select(_) => "select",
        }
    }

    pub fn caller(&self) -> (a: Address)
        ensures
            a == self.spec_caller(),
    {
        match self {
            NoxEvent::PlaintextToEncrypted(e) => e.caller,
            NoxEvent::Add(e) => e.caller,
            NoxEvent::Sub(e) => e.caller,
            NoxEvent::Mul(e) => e.caller,
            NoxEvent::Div(e) => e.caller,
            NoxEvent::SafeAdd(e) => e.caller,
            NoxEvent::SafeSub(e) => e.caller,
            NoxEvent::SafeMul(e) => e.caller,
            NoxEvent::SafeDiv(e) => e.caller,
            NoxEvent::Eq(e) => e.caller,
            NoxEvent::Ne(e) => e.caller,
            NoxEvent::Ge(e) => e.caller,
            NoxEvent::Gt(e) => e.caller,
            NoxEvent::Le(e) => e.caller,
            NoxEvent::Lt(e) => e.caller,
            NoxEvent::Select(e) => e.caller,
        }
    }
}

/// The second topic of an event: its caller, left-padded with zeros to a 32-byte word.
pub open spec fn caller_topic(caller: Seq<u8>) -> Seq<u8> {
    Seq::new(12, |i: int| 0u8) + caller
}

/// The data an event is logged with: its data words, one after the other.
pub open spec fn encoded_data(ev: NoxEvent) -> Seq<u8> {
    let w = ev.data_words();
    if w.len() == 3 {
        w[0] + w[1] + w[2]
    } else {
        w[0] + w[1] + w[2] + w[3]
    }
}

/// The signature hashes of the event kinds are pairwise distinct, so a first topic names
/// at most one kind.
pub open spec fn signature_hashes_distinct() -> bool {
    forall|j: int, k: int|
        0 <= j < k < EVENT_KIND_COUNT ==> #[trigger] signature_hash(j) != #[trigger] signature_hash(k)
}

proof fn lemma_kind_from_own_hash(j: int, k: int)
    requires
        signature_hashes_distinct(),
        0 <= j <= k < EVENT_KIND_COUNT,
    ensures
        kind_from(signature_hash(k), j) == Some(k),
    decreases k - j,
{
    if j < k {
        assert(signature_hash(j) != signature_hash(k));
        lemma_kind_from_own_hash(j + 1, k);
    }
}

proof fn lemma_words_equal<const N: usize>(a: [u8; N], b: [u8; N])
    requires
        a@ == b@,
    ensures
        a == b,
{
    assert forall|i: int| 0 <= i < N implies a[i] == b[i] by {
        assert(a@[i] == b@[i]);
    }
    assert(a =~= b);
}

proof fn lemma_binary_equal(x: BinaryOperationEvent, y: BinaryOperationEvent)
    requires
        x.caller@ == y.caller@,
        x.leftHandOperand@ == y.leftHandOperand@,
        x.rightHandOperand@ == y.rightHandOperand@,
        x.result@ == y.result@,
    ensures
        x == y,
{
    lemma_words_equal(x.caller, y.caller);
    lemma_words_equal(x.leftHandOperand, y.leftHandOperand);
    lemma_words_equal(x.rightHandOperand, y.rightHandOperand);
    lemma_words_equal(x.result, y.result);
}

proof fn lemma_safe_binary_equal(x: SafeBinaryOperationEvent, y: SafeBinaryOperationEvent)
    requires
        x.caller@ == y.caller@,
        x.leftHandOperand@ == y.leftHandOperand@,
        x.rightHandOperand@ == y.rightHandOperand@,
        x.success@ == y.success@,
        x.result@ == y.result@,
    ensures
        x == y,
{
    lemma_words_equal(x.caller, y.caller);
    lemma_words_equal(x.leftHandOperand, y.leftHandOperand);
    lemma_words_equal(x.rightHandOperand, y.rightHandOperand);
    lemma_words_equal(x.success, y.success);
    lemma_words_equal(x.result, y.result);
}

/// An event is determined by its kind, its caller and its data words.
pub proof fn lemma_event_determined(a: NoxEvent, b: NoxEvent)
    requires
        a.kind() == b.kind(),
        a.spec_caller()@ == b.spec_caller()@,
        a.data_words() == b.data_words(),
    ensures
        a == b,
{
    match (a, b) {
            (NoxEvent::PlaintextToEncrypted(x), NoxEvent::PlaintextToEncrypted(y)) => {
                lemma_words_equal(x.caller, y.caller);
                lemma_words_equal(x.value, y.value);
                lemma_words_equal(x.handle, y.handle);
                assert(a.data_words()[1][31] == x.teeType);
                assert(b.data_words()[1][31] == y.teeType);
            },
            (NoxEvent::Add(x), NoxEvent::Add(y)) => lemma_binary_equal(x, y),
            (NoxEvent::Sub(x), NoxEvent::Sub(y)) => lemma_binary_equal(x, y),
            (NoxEvent::Mul(x), NoxEvent::Mul(y)) => lemma_binary_equal(x, y),
            (NoxEvent::Div(x), NoxEvent::Div(y)) => lemma_binary_equal(x, y),
            (NoxEvent::Eq(x), NoxEvent::Eq(y)) => lemma_binary_equal(x, y),
            (NoxEvent::Ne(x), NoxEvent::Ne(y)) => lemma_binary_equal(x, y),
            (NoxEvent::Ge(x), NoxEvent::Ge(y)) => lemma_binary_equal(x, y),
            (NoxEvent::Gt(x), NoxEvent::Gt(y)) => lemma_binary_equal(x, y),
            (NoxEvent::Le(x), NoxEvent::Le(y)) => lemma_binary_equal(x, y),
            (NoxEvent::Lt(x), NoxEvent::Lt(y)) => lemma_binary_equal(x, y),
            (NoxEvent::SafeAdd(x), NoxEvent::SafeAdd(y)) => lemma_safe_binary_equal(x, y),
            (NoxEvent::SafeSub(x), NoxEvent::SafeSub(y)) => lemma_safe_binary_equal(x, y),
            (NoxEvent::SafeMul(x), NoxEvent::SafeMul(y)) => lemma_safe_binary_equal(x, y),
            (NoxEvent::SafeDiv(x), NoxEvent::SafeDiv(y)) => lemma_safe_binary_equal(x, y),
            (NoxEvent::Select(x), NoxEvent::Select(y)) => {
                lemma_words_equal(x.caller, y.caller);
                lemma_words_equal(x.condition, y.condition);
                lemma_words_equal(x.ifTrue, y.ifTrue);
                lemma_words_equal(x.ifFalse, y.ifFalse);
                lemma_words_equal(x.result, y.result);
            },
            _ => {},
    }
}

/// Parsing gives back what was logged: a log whose first topic is the signature hash of
/// an event's kind, whose second topic is the event's caller and whose data are the
/// event's data words decodes, and the only event it decodes to is that event, whatever
/// contract emitted it. This rests on the kinds' signature hashes being distinct.
pub proof fn lemma_parse_round_trip(ev: NoxEvent, log: Log)
    requires
        signature_hashes_distinct(),
        log.topics@.len() == 2,
        log.topics@[0]@ == signature_hash(ev.kind()),
        log.topics@[1]@ == caller_topic(ev.spec_caller()@),
        log.data@ == encoded_data(ev),
    ensures
        log_decodes(log),
        forall|r: NoxEvent| event_of_log(r, log) ==> r == ev,
{
    let k = ev.kind();
    lemma_kind_from_own_hash(0, k);
    let w = ev.data_words();
    let d = log.data@;
    assert(w.len() == data_word_count(k));
    assert forall|i: int| 0 <= i < w.len() implies #[trigger] data_word(d, i) == w[i] by {
        if w.len() == 3 {
            assert(data_word(d, i) =~= w[i]);
        } else {
            assert(data_word(d, i) =~= w[i]);
        }
    }
    assert(word_address(caller_topic(ev.spec_caller()@)) =~= ev.spec_caller()@);
    assert forall|r: NoxEvent| event_of_log(r, log) implies r == ev by {
        assert(r.kind() == k);
        assert forall|i: int| 0 <= i < w.len() implies #[trigger] r.data_words()[i] == w[i] by {
            if k == 0 && i == 1 {
                assert(data_word(d, 1) == w[1]);
                assert(r.data_words()[1] =~= w[1]);
            }
        }
        assert(r.data_words() =~= w);
        lemma_event_determined(r, ev);
    }
}

/// A log's first topic decides the event it parses to: the Keccak-256 digest of an event's
/// canonical Solidity signature names that event, whatever the log's other contents. This
/// rests on the kinds' signature hashes being distinct.
pub proof fn lemma_topic_names_event(ev: NoxEvent, log: Log)
    requires
        signature_hashes_distinct(),
        event_of_log(ev, log),
    ensures
        ({
            let topic = log.topics@[0]@;
            &&& (topic == keccak256_digest(vstd::utf8::encode_utf8("PlaintextToEncrypted(address,uint256,uint8,bytes32)"@)) ==> ev is PlaintextToEncrypted)
            &&& (topic == keccak256_digest(vstd::utf8::encode_utf8("Add(address,bytes32,bytes32,bytes32)"@)) ==> ev is Add)
            &&& (topic == keccak256_digest(vstd::utf8::encode_utf8("Sub(address,bytes32,bytes32,bytes32)"@)) ==> ev is Sub)
            &&& (topic == keccak256_digest(vstd::utf8::encode_utf8("Mul(address,bytes32,bytes32,bytes32)"@)) ==> ev is Mul)
            &&& (topic == keccak256_digest(vstd::utf8::encode_utf8("Div(address,bytes32,bytes32,bytes32)"@)) ==> ev is Div)
            &&& (topic == keccak256_digest(vstd::utf8::encode_utf8("SafeAdd(address,bytes32,bytes32,bytes32,bytes32)"@)) ==> ev is SafeAdd)
            &&& (topic == keccak256_digest(vstd::utf8::encode_utf8("SafeSub(address,bytes32,bytes32,bytes32,bytes32)"@)) ==> ev is SafeSub)
            &&& (topic == keccak256_digest(vstd::utf8::encode_utf8("SafeMul(address,bytes32,bytes32,bytes32,bytes32)"@)) ==> ev is SafeMul)
            &&& (topic == keccak256_digest(vstd::utf8::encode_utf8("SafeDiv(address,bytes32,bytes32,bytes32,bytes32)"@)) ==> ev is SafeDiv)
            &&& (topic == keccak256_digest(vstd::utf8::encode_utf8("Eq(address,bytes32,bytes32,bytes32)"@)) ==> ev is Eq)
            &&& (topic == keccak256_digest(vstd::utf8::encode_utf8("Ne(address,bytes32,bytes32,bytes32)"@)) ==> ev is Ne)
            &&& (topic == keccak256_digest(vstd::utf8::encode_utf8("Ge(address,bytes32,bytes32,bytes32)"@)) ==> ev is Ge)
            &&& (topic == keccak256_digest(vstd::utf8::encode_utf8("Gt(address,bytes32,bytes32,bytes32)"@)) ==> ev is Gt)
            &&& (topic == keccak256_digest(vstd::utf8::encode_utf8("Le(address,bytes32,bytes32,bytes32)"@)) ==> ev is Le)
            &&& (topic == keccak256_digest(vstd::utf8::encode_utf8("Lt(address,bytes32,bytes32,bytes32)"@)) ==> ev is Lt)
            &&& (topic == keccak256_digest(vstd::utf8::encode_utf8("Select(address,bytes32,bytes32,bytes32,bytes32)"@)) ==> ev is Select)
        }),
{
    let topic = log.topics@[0]@;
    if topic == keccak256_digest(vstd::utf8::encode_utf8("PlaintextToEncrypted(address,uint256,uint8,bytes32)"@)) {
        assert(topic == signature_hash(0));
        lemma_kind_from_own_hash(0, 0);
    }
    if topic == keccak256_digest(vstd::utf8::encode_utf8("Add(address,bytes32,bytes32,bytes32)"@)) {
        assert(topic == signature_hash(1));
        lemma_kind_from_own_hash(0, 1);
    }
    if topic == keccak256_digest(vstd::utf8::encode_utf8("Sub(address,bytes32,bytes32,bytes32)"@)) {
        assert(topic == signature_hash(2));
        lemma_kind_from_own_hash(0, 2);
    }
    if topic == keccak256_digest(vstd::utf8::encode_utf8("Mul(address,bytes32,bytes32,bytes32)"@)) {
        assert(topic == signature_hash(3));
        lemma_kind_from_own_hash(0, 3);
    }
    if topic == keccak256_digest(vstd::utf8::encode_utf8("Div(address,bytes32,bytes32,bytes32)"@)) {
        assert(topic == signature_hash(4));
        lemma_kind_from_own_hash(0, 4);
    }
    if topic == keccak256_digest(vstd::utf8::encode_utf8("SafeAdd(address,bytes32,bytes32,bytes32,bytes32)"@)) {
        assert(topic == signature_hash(5));
        lemma_kind_from_own_hash(0, 5);
    }
    if topic == keccak256_digest(vstd::utf8::encode_utf8("SafeSub(address,bytes32,bytes32,bytes32,bytes32)"@)) {
        assert(topic == signature_hash(6));
        lemma_kind_from_own_hash(0, 6);
    }
    if topic == keccak256_digest(vstd::utf8::encode_utf8("SafeMul(address,bytes32,bytes32,bytes32,bytes32)"@)) {
        assert(topic == signature_hash(7));
        lemma_kind_from_own_hash(0, 7);
    }
    if topic == keccak256_digest(vstd::utf8::encode_utf8("SafeDiv(address,bytes32,bytes32,bytes32,bytes32)"@)) {
        assert(topic == signature_hash(8));
        lemma_kind_from_own_hash(0, 8);
    }
    if topic == keccak256_digest(vstd::utf8::encode_utf8("Eq(address,bytes32,bytes32,bytes32)"@)) {
        assert(topic == signature_hash(9));
        lemma_kind_from_own_hash(0, 9);
    }
    if topic == keccak256_digest(vstd::utf8::encode_utf8("Ne(address,bytes32,bytes32,bytes32)"@)) {
        assert(topic == signature_hash(10));
        lemma_kind_from_own_hash(0, 10);
    }
    if topic == keccak256_digest(vstd::utf8::encode_utf8("Ge(address,bytes32,bytes32,bytes32)"@)) {
        assert(topic == signature_hash(11));
        lemma_kind_from_own_hash(0, 11);
    }
    if topic == keccak256_digest(vstd::utf8::encode_utf8("Gt(address,bytes32,bytes32,bytes32)"@)) {
        assert(topic == signature_hash(12));
        lemma_kind_from_own_hash(0, 12);
    }
    if topic == keccak256_digest(vstd::utf8::encode_utf8("Le(address,bytes32,bytes32,bytes32)"@)) {
        assert(topic == signature_hash(13));
        lemma_kind_from_own_hash(0, 13);
    }
    if topic == keccak256_digest(vstd::utf8::encode_utf8("Lt(address,bytes32,bytes32,bytes32)"@)) {
        assert(topic == signature_hash(14));
        lemma_kind_from_own_hash(0, 14);
    }
    if topic == keccak256_digest(vstd::utf8::encode_utf8("Select(address,bytes32,bytes32,bytes32,bytes32)"@)) {
        assert(topic == signature_hash(15));
        lemma_kind_from_own_hash(0, 15);
    }
}

/// `ev` is what the log says: its kind is the log's, its caller the address in the second
/// topic, and its fields the data words in order.
pub open spec fn event_of_log(ev: NoxEvent, log: Log) -> bool {
    &&& log_decodes(log)
    &&& log_kind(log) == Some(ev.kind())
    &&& ev.spec_caller()@ == word_address(log.topics@[1]@)
    &&& ev.data_words().len() == data_word_count(ev.kind())
    &&& forall|i: int|
        0 <= i < data_word_count(ev.kind()) ==> #[trigger] ev.data_words()[i] == (if ev.kind() == 0
            && i == 1 {
            Seq::new(32, |j: int| if j == 31 { data_word(log.data@, 1)[31] } else { 0u8 })
        } else {
            data_word(log.data@, i)
        })
}

fn event_signature(k: usize) -> (s: &'static str)
    requires
        k < EVENT_KIND_COUNT,
    ensures
        s@ == event_signature_text(k as int),
{
    match k {
        0 => "PlaintextToEncrypted(address,uint256,uint8,bytes32)",
        1 => "Add(address,bytes32,bytes32,bytes32)",
        2 => "Sub(address,bytes32,bytes32,bytes32)",
        3 => "Mul(address,bytes32,bytes32,bytes32)",
        4 => "Div(address,bytes32,bytes32,bytes32)",
        5 => "SafeAdd(address,bytes32,bytes32,bytes32,bytes32)",
        6 => "SafeSub(address,bytes32,bytes32,bytes32,bytes32)",
        7 => "SafeMul(address,bytes32,bytes32,bytes32,bytes32)",
        8 => "SafeDiv(address,bytes32,bytes32,bytes32,bytes32)",
        9 => "Eq(address,bytes32,bytes32,bytes32)",
        10 => "Ne(address,bytes32,bytes32,bytes32)",
        11 => "Ge(address,bytes32,bytes32,bytes32)",
        12 => "Gt(address,bytes32,bytes32,bytes32)",
        13 => "Le(address,bytes32,bytes32,bytes32)",
        14 => "Lt(address,bytes32,bytes32,bytes32)",
        _ => "Select(address,bytes32,bytes32,bytes32,bytes32)",
    }
}

/// The `i`-th 32-byte word of `data`.
fn read_word(data: &Vec<u8>, i: usize) -> (w: [u8; 32])
    requires
        32 * i + 32 <= data.len(),
    ensures
        w@ == data_word(data@, i as int),
{
    let start = 32 * i;
    let mut w = [0u8; 32];
    for j in 0..32
        invariant
            start == 32 * i,
            start + 32 <= data@.len(),
            forall|k: int| 0 <= k < j ==> w@[k] == data@[start + k],
    {
        w[j] = data[start + j];
    }
    assert(w@ =~= data_word(data@, i as int));
    w
}

/// The address in the last 20 bytes of a topic.
fn topic_address(topic: &[u8; 32]) -> (a: Address)
    ensures
        a@ == word_address(topic@),
{
    let mut a = [0u8; 20];
    for j in 0..20
        invariant
            forall|k: int| 0 <= k < j ==> a@[k] == topic@[12 + k],
    {
        a[j] = topic[12 + j];
    }
    assert(a@ =~= word_address(topic@));
    a
}

/// NOX event parser.
pub struct NoxEventParser {
    contract_address: Address,
    /// The signature hash of each event kind, in the order of [`NoxEvent`]'s variants.
    signatures: Vec<[u8; 32]>,
}

impl NoxEventParser {
    pub closed spec fn spec_contract_address(&self) -> Address {
        self.contract_address
    }

    pub closed spec fn wf(&self) -> bool {
        &&& self.signatures@.len() == EVENT_KIND_COUNT
        &&& forall|k: int|
            0 <= k < EVENT_KIND_COUNT ==> (#[trigger] self.signatures@[k])@ == signature_hash(k)
    }

    pub fn new(contract_address: Address) -> (p: Self)
        ensures
            p.wf(),
            p.spec_contract_address() == contract_address,
    {
        let mut signatures: Vec<[u8; 32]> = Vec::new();
        for k in 0..EVENT_KIND_COUNT
            invariant
                signatures@.len() == k,
                forall|j: int| 0 <= j < k ==> (#[trigger] signatures@[j])@ == signature_hash(j),
        {
            signatures.push(keccak256(event_signature(k).as_bytes()));
        }
        NoxEventParser { contract_address, signatures }
    }

    pub fn contract_address(&self) -> (a: Address)
        ensures
            a == self.spec_contract_address(),
    {
        self.contract_address
    }

    /// The signature hashes of all event kinds (the topics to filter on), in the order of
    /// [`NoxEvent`]'s variants.
    pub fn event_signatures(&self) -> (v: Vec<[u8; 32]>)
        requires
            self.wf(),
        ensures
            v@.len() == EVENT_KIND_COUNT,
            forall|k: int| 0 <= k < EVENT_KIND_COUNT ==> (#[trigger] v@[k])@ == signature_hash(k),
    {
        let mut v: Vec<[u8; 32]> = Vec::new();
        for k in 0..EVENT_KIND_COUNT
            invariant
                self.wf(),
                v@.len() == k,
                forall|j: int| 0 <= j < k ==> (#[trigger] v@[j])@ == signature_hash(j),
        {
            v.push(self.signatures[k]);
        }
        v
    }

    /// The event kind whose signature hash is `topic`, if any.
    fn kind_of(&self, topic: &[u8; 32]) -> (r: Option<usize>)
        requires
            self.wf(),
        ensures
            r matches Some(k) ==> kind_of_topic(topic@) == Some(k as int) && k < EVENT_KIND_COUNT,
            r is None ==> kind_of_topic(topic@) is None,
    {
        let mut k: usize = EVENT_KIND_COUNT;
        let mut found: Option<usize> = None;
        while k > 0
            invariant
                self.wf(),
                k <= EVENT_KIND_COUNT,
                found matches Some(f) ==> kind_from(topic@, k as int) == Some(f as int) && f < EVENT_KIND_COUNT,
                found is None ==> kind_from(topic@, k as int) is None,
            decreases k,
        {
            k = k - 1;
            if bytes_equal(&self.signatures[k], topic) {
                assert(self.signatures@[k as int]@ == topic@);
                found = Some(k);
            } else {
                assert(self.signatures@[k as int]@ != topic@);
            }
        }
        found
    }

    /// Parses a log into a typed event: `None` when it has no topic, when its first topic
    /// names no NOX event, or when it does not hold that event's ABI layout.
    pub fn parse(&self, log: &Log) -> (r: Option<NoxEvent>)
        requires
            self.wf(),
        ensures
            r is Some <==> log_decodes(*log),
            r matches Some(ev) ==> event_of_log(ev, *log),
    {
        if log.topics.len() == 0 {
            return None;
        }
        let kind = match self.kind_of(&log.topics[0]) {
            Some(k) => k,
            None => return None,
        };
        let words: usize = if kind == 0 || (1 <= kind && kind <= 4) || (9 <= kind && kind <= 14) {
            3
        } else {
            4
        };
        if log.topics.len() != 2 || log.data.len() < 32 * words {
            return None;
        }
        let caller = topic_address(&log.topics[1]);
        let w0 = read_word(&log.data, 0);
        let w1 = read_word(&log.data, 1);
        let w2 = read_word(&log.data, 2);
        if words == 3 {
            let ev = if kind == 0 {
                let e = PlaintextToEncrypted { caller, value: w0, teeType: w1[31], handle: w2 };
                assert(Seq::new(32, |i: int| if i == 31 { e.teeType } else { 0u8 }) =~= Seq::new(
                    32,
                    |j: int| if j == 31 { data_word(log.data@, 1)[31] } else { 0u8 },
                ));
                NoxEvent::PlaintextToEncrypted(e)
            } else {
                let e = BinaryOperationEvent {
                    caller,
                    leftHandOperand: w0,
                    rightHandOperand: w1,
                    result: w2,
                };
                match kind {
                    1 => NoxEvent::Add(e),
                    2 => NoxEvent::Sub(e),
                    3 => NoxEvent::Mul(e),
                    4 => NoxEvent::Div(e),
                    9 => NoxEvent::Eq(e),
                    10 => NoxEvent::Ne(e),
                    11 => NoxEvent::Ge(e),
                    12 => NoxEvent::Gt(e),
                    13 => NoxEvent::Le(e),
                    _ => NoxEvent::Lt(e),
                }
            };
            assert(event_of_log(ev, *log));
            Some(ev)
        } else {
            let w3 = read_word(&log.data, 3);
            let ev = if kind == 15 {
                NoxEvent::Select(Select { caller, condition: w0, ifTrue: w1, ifFalse: w2, result: w3 })
            } else {
                let e = SafeBinaryOperationEvent {
                    caller,
                    leftHandOperand: w0,
                    rightHandOperand: w1,
                    success: w2,
                    result: w3,
                };
                match kind {
                    5 => NoxEvent::SafeAdd(e),
                    6 => NoxEvent::SafeSub(e),
                    7 => NoxEvent::SafeMul(e),
                    _ => NoxEvent::SafeDiv(e),
                }
            };
            assert(event_of_log(ev, *log));
            Some(ev)
        }
    }
}

} // verus!
