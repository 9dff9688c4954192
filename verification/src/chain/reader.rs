//! Turning the logs of a block range into transaction messages.
//!
//! The logs are parsed into events, the events are ordered by `(block_number, log_index)`,
//! grouped by transaction hash, and the transactions are ordered by
//! `(block_number, first_log_index)`.

use vstd::prelude::*;

use crate::chain::parser::{
    data_word, data_word_count, event_of_log, kind_from, EVENT_KIND_COUNT, log_decodes, log_kind, word_address, BinaryOperationEvent,
    Log, NoxEvent, NoxEventParser, SafeBinaryOperationEvent,
};
use crate::events::{
    Address, BinaryOperation, EncryptionOperation, Handle, MessageView, Operator, OperatorView,
    SafeBinaryOperation, SelectOperation, TransactionEvent, TransactionEventView, TransactionMessage,
};
use crate::hashing::{be_value, u256_to_decimal};
use crate::sort::{lemma_stable_sort_members, stable_sort, stable_sort_by_key, views, Keyed};
use crate::text::{decimal, hex_prefixed, to_hex_prefixed};

verus! {

/// Result of reading a batch of blocks.
#[derive(Debug)]
pub struct BatchResult {
    /// Transactions from the batch
    pub transactions: Vec<TransactionMessage>,
    /// First block in the batch
    pub start_block: u64,
    /// Last block in the batch (inclusive)
    pub end_block: u64,
}

/// An event with the position of the log it came from.
#[derive(Debug)]
pub struct LocatedEvent {
    pub block_number: u64,
    pub log_index: u64,
    pub tx_hash: String,
    pub event: TransactionEvent,
}

/// What a [`LocatedEvent`] says.
pub struct LocatedView {
    pub block_number: u64,
    pub log_index: u64,
    pub tx_hash: Seq<char>,
    pub event: TransactionEventView,
}

impl View for LocatedEvent {
    type V = LocatedView;

    open spec fn view(&self) -> LocatedView {
        LocatedView {
            block_number: self.block_number,
            log_index: self.log_index,
            tx_hash: self.tx_hash@,
            event: self.event@,
        }
    }
}

impl Keyed for LocatedEvent {
    open spec fn key_of(v: LocatedView) -> (u64, u64) {
        (v.block_number, v.log_index)
    }

    fn sort_key(&self) -> (k: (u64, u64)) {
        (self.block_number, self.log_index)
    }
}

impl Keyed for TransactionMessage {
    open spec fn key_of(v: MessageView) -> (u64, u64) {
        (v.block_number, v.first_log_index)
    }

    fn sort_key(&self) -> (k: (u64, u64)) {
        (self.block_number, self.first_log_index)
    }
}

/// The operator a decodable log of kind `k` with data `data` stands for: the `uint256`
/// value in decimal, the `uint8` TEE type, and every `bytes32` as a `0x`-prefixed handle.
pub open spec fn operator_spec(k: int, data: Seq<u8>) -> OperatorView {
    if k == 0 {
        OperatorView {
            kind: 0,
            texts: seq![decimal(be_value(data_word(data, 0))), hex_prefixed(data_word(data, 2))],
            tee_type: data_word(data, 1)[31],
        }
    } else {
        OperatorView {
            kind: k,
            texts: Seq::new(data_word_count(k) as nat, |i: int| hex_prefixed(data_word(data, i))),
            tee_type: 0,
        }
    }
}

/// The located event a log stands for: present when the log decodes as a NOX event and
/// carries its transaction hash, block number and log index.
pub open spec fn located_spec(log: Log) -> Option<LocatedView> {
    if log_decodes(log) && log.block_number is Some && log.transaction_hash is Some
        && log.log_index is Some {
        Some(
            LocatedView {
                block_number: log.block_number.unwrap(),
                log_index: log.log_index.unwrap(),
                tx_hash: hex_prefixed(log.transaction_hash.unwrap()@),
                event: TransactionEventView {
                    log_index: log.log_index.unwrap(),
                    caller: word_address(log.topics@[1]@),
                    operator: operator_spec(log_kind(log).unwrap(), log.data@),
                },
            },
        )
    } else {
        None
    }
}

/// bytes32 as a `0x`-prefixed lowercase hex handle.
pub fn to_handle(bytes: &[u8; 32]) -> (h: Handle)
    ensures
        h@ == hex_prefixed(bytes@),
{
    to_hex_prefixed(bytes)
}

fn binary_operation(e: &BinaryOperationEvent) -> (o: BinaryOperation)
    ensures
        o.left_hand_operand@ == hex_prefixed(e.leftHandOperand@),
        o.right_hand_operand@ == hex_prefixed(e.rightHandOperand@),
        o.result@ == hex_prefixed(e.result@),
{
    BinaryOperation {
        left_hand_operand: to_handle(&e.leftHandOperand),
        right_hand_operand: to_handle(&e.rightHandOperand),
        result: to_handle(&e.result),
    }
}

fn safe_binary_operation(e: &SafeBinaryOperationEvent) -> (o: SafeBinaryOperation)
    ensures
        o.left_hand_operand@ == hex_prefixed(e.leftHandOperand@),
        o.right_hand_operand@ == hex_prefixed(e.rightHandOperand@),
        o.success@ == hex_prefixed(e.success@),
        o.result@ == hex_prefixed(e.result@),
{
    SafeBinaryOperation {
        left_hand_operand: to_handle(&e.leftHandOperand),
        right_hand_operand: to_handle(&e.rightHandOperand),
        success: to_handle(&e.success),
        result: to_handle(&e.result),
    }
}

/// What the operator of a parsed event says: the `uint256` value in decimal, the `uint8`
/// TEE type, and every `bytes32` as a `0x`-prefixed handle.
pub open spec fn event_operator_view(event: NoxEvent) -> OperatorView {
    if event.kind() == 0 {
        OperatorView {
            kind: 0,
            texts: seq![
                decimal(be_value(event.data_words()[0])),
                hex_prefixed(event.data_words()[2]),
            ],
            tee_type: event.data_words()[1][31],
        }
    } else {
        OperatorView {
            kind: event.kind(),
            texts: event.data_words().map_values(|w: Seq<u8>| hex_prefixed(w)),
            tee_type: 0,
        }
    }
}

/// The operator of a parsed event.
fn operator_of(event: &NoxEvent) -> (op: Operator)
    ensures
        op@ == event_operator_view(*event),
{
    let op = match event {
        NoxEvent::PlaintextToEncrypted(e) => Operator::PlaintextToEncrypted(
            EncryptionOperation {
                value: u256_to_decimal(&e.value),
                tee_type: e.teeType,
                handle: to_handle(&e.handle),
            },
        ),
        NoxEvent::Add(e) => Operator::Add(binary_operation(e)),
        NoxEvent::Sub(e) => Operator::Sub(binary_operation(e)),
        NoxEvent::Mul(e) => Operator::Mul(binary_operation(e)),
        NoxEvent::Div(e) => Operator::Div(binary_operation(e)),
        NoxEvent::SafeAdd(e) => Operator::SafeAdd(safe_binary_operation(e)),
        NoxEvent::SafeSub(e) => Operator::SafeSub(safe_binary_operation(e)),
        NoxEvent::SafeMul(e) => Operator::SafeMul(safe_binary_operation(e)),
        NoxEvent::SafeDiv(e) => Operator::SafeDiv(safe_binary_operation(e)),
        NoxEvent::Eq(e) => Operator::Eq(binary_operation(e)),
        NoxEvent::Ne(e) => Operator::Ne(binary_operation(e)),
        NoxEvent::Ge(e) => Operator::Ge(binary_operation(e)),
        NoxEvent::Gt(e) => Operator::Gt(binary_operation(e)),
        NoxEvent::Le(e) => Operator::Le(binary_operation(e)),
        NoxEvent::Lt(e) => Operator::Lt(binary_operation(e)),
        NoxEvent::Select(e) => Operator::Select(
            SelectOperation {
                condition: to_handle(&e.condition),
                if_true: to_handle(&e.ifTrue),
                if_false: to_handle(&e.ifFalse),
                result: to_handle(&e.result),
            },
        ),
    };
    proof {
        if op@.kind != 0 {
            assert(op@.texts =~= event.data_words().map_values(|w: Seq<u8>| hex_prefixed(w)));
        }
        assert(op@.texts =~= event_operator_view(*event).texts);
    }
    op
}

/// Converts a parsed event and the log it came from into an event located by block number
/// and log index. `None` when the log lacks its transaction hash, block number or log index.
pub fn to_transaction_event(event: &NoxEvent, log: &Log) -> (r: Option<LocatedEvent>)
    ensures
        r is Some <==> (log.transaction_hash is Some && log.block_number is Some
            && log.log_index is Some),
        r matches Some(le) ==> le@ == (LocatedView {
            block_number: log.block_number.unwrap(),
            log_index: log.log_index.unwrap(),
            tx_hash: hex_prefixed(log.transaction_hash.unwrap()@),
            event: TransactionEventView {
                log_index: log.log_index.unwrap(),
                caller: event.spec_caller()@,
                operator: event_operator_view(*event),
            },
        }),
{
    let tx_hash = match &log.transaction_hash {
        Some(h) => to_handle(h),
        None => return None,
    };
    let block_number = match log.block_number {
        Some(b) => b,
        None => return None,
    };
    let log_index = match log.log_index {
        Some(i) => i,
        None => return None,
    };
    let caller = event.caller();
    let operator = operator_of(event);
    Some(
        LocatedEvent {
            block_number,
            log_index,
            tx_hash,
            event: TransactionEvent { log_index, caller, operator },
        },
    )
}

/// The operator of the event a log decodes to is what [`located_spec`] says of the log.
proof fn lemma_event_operator_of_log(event: NoxEvent, log: Log)
    requires
        event_of_log(event, log),
    ensures
        event_operator_view(event) == operator_spec(log_kind(log).unwrap(), log.data@),
{
    let k = event.kind();
    let data = log.data@;
    assert(event.data_words()[0] == (if k == 0 && 0 == 1 { Seq::new(32, |j: int| if j == 31 { data_word(data, 1)[31] } else { 0u8 }) } else { data_word(data, 0) }));
    assert(event.data_words()[1] == (if k == 0 && 1 == 1 { Seq::new(32, |j: int| if j == 31 { data_word(data, 1)[31] } else { 0u8 }) } else { data_word(data, 1) }));
    assert(event.data_words()[2] == data_word(data, 2));
    if k == 0 {
        assert(event.data_words()[1][31] == data_word(data, 1)[31]);
    } else {
        assert forall|i: int| 0 <= i < data_word_count(k) implies event.data_words()[i] == data_word(data, i) by {
            assert(event.data_words()[i] == (if k == 0 && i == 1 { Seq::new(32, |j: int| if j == 31 { data_word(data, 1)[31] } else { 0u8 }) } else { data_word(data, i) }));
        }
        assert(event_operator_view(event).texts =~= operator_spec(k, data).texts);
    }
}

proof fn lemma_kind_from_bounds(topic: Seq<u8>, j: int)
    ensures
        kind_from(topic, j) matches Some(k) ==> 0 <= j <= k < EVENT_KIND_COUNT,
    decreases EVENT_KIND_COUNT - j,
{
    if 0 <= j < EVENT_KIND_COUNT {
        lemma_kind_from_bounds(topic, j + 1);
    }
}

/// The operator of a log's event, as [`collect_events`] gives it, reads the log's data
/// words in order: for a binary operation the left operand, right operand and result are
/// the `0x`-hex of words 0, 1 and 2; for a checked operation the left and right operands,
/// success flag and result are words 0 to 3; for a select the condition, both branches
/// and the result are words 0 to 3; for an encryption the value is word 0 in decimal, the
/// TEE type the last byte of word 1, and the handle word 2. The operator is of the log's
/// kind.
pub proof fn lemma_operator_reads_words_in_order(log: Log)
    requires
        located_spec(log) is Some,
    ensures
        ({
            let op = located_spec(log).unwrap().event.operator;
            let k = log_kind(log).unwrap();
            let d = log.data@;
            &&& op.kind == k
            &&& (1 <= k <= 4 || 9 <= k <= 14) ==> op.texts == seq![
                hex_prefixed(data_word(d, 0)),
                hex_prefixed(data_word(d, 1)),
                hex_prefixed(data_word(d, 2)),
            ]
            &&& (5 <= k <= 8 || k == 15) ==> op.texts == seq![
                hex_prefixed(data_word(d, 0)),
                hex_prefixed(data_word(d, 1)),
                hex_prefixed(data_word(d, 2)),
                hex_prefixed(data_word(d, 3)),
            ]
            &&& k == 0 ==> op.texts == seq![decimal(be_value(data_word(d, 0))), hex_prefixed(data_word(d, 2))]
                && op.tee_type == data_word(d, 1)[31]
        }),
{
    let op = located_spec(log).unwrap().event.operator;
    let k = log_kind(log).unwrap();
    let d = log.data@;
    lemma_kind_from_bounds(log.topics@[0]@, 0);
    if (1 <= k <= 4 || 9 <= k <= 14) {
        assert(op.texts =~= seq![hex_prefixed(data_word(d, 0)), hex_prefixed(data_word(d, 1)), hex_prefixed(data_word(d, 2))]);
    } else if (5 <= k <= 8 || k == 15) {
        assert(op.texts =~= seq![
            hex_prefixed(data_word(d, 0)),
            hex_prefixed(data_word(d, 1)),
            hex_prefixed(data_word(d, 2)),
            hex_prefixed(data_word(d, 3)),
        ]);
    }
}

/// The located events of a list of logs, in log order.
pub open spec fn located_events(logs: Seq<Log>) -> Seq<LocatedView> {
    logs.filter_map(|l: Log| located_spec(l))
}

/// Parses every log and keeps, in log order, the events of those that decode as NOX
/// events and carry their transaction hash, block number and log index.
pub fn collect_events(parser: &NoxEventParser, logs: &Vec<Log>) -> (out: Vec<LocatedEvent>)
    requires
        parser.wf(),
    ensures
        views(out@) == located_events(logs@),
{
    let mut out: Vec<LocatedEvent> = Vec::new();
    let n = logs.len();
    assert(views(out@) =~= located_events(logs@.take(0)));
    for i in 0..n
        invariant
            parser.wf(),
            n == logs@.len(),
            views(out@) == located_events(logs@.take(i as int)),
    {
        let log = &logs[i];
        let ghost before = out@;
        assert(logs@.take(i + 1).drop_last() =~= logs@.take(i as int));
        assert(logs@.take(i + 1).last() == *log);
        match parser.parse(log) {
            Some(ev) => {
                proof {
                    lemma_event_operator_of_log(ev, *log);
                }
                match to_transaction_event(&ev, log) {
                    Some(le) => {
                        out.push(le);
                        assert(views(out@) =~= views(before).push(le@));
                    },
                    None => {},
                }
            },
            None => {},
        }
    }
    assert(logs@.take(n as int) =~= logs@);
    out
}

/// The transactions of a batch so far: hash, block of its first event, and its events.
pub struct GroupView {
    pub tx_hash: Seq<char>,
    pub block_number: u64,
    pub events: Seq<TransactionEventView>,
}

/// The first group from index `j` on whose transaction hash is `h`.
pub open spec fn find_group(gs: Seq<GroupView>, h: Seq<char>, j: int) -> Option<int>
    decreases gs.len() - j,
{
    if j < 0 || j >= gs.len() {
        None
    } else if gs[j].tx_hash == h {
        Some(j)
    } else {
        find_group(gs, h, j + 1)
    }
}

/// Groups events by transaction hash, keeping the order in which transactions first
/// appear and, within a transaction, the order of its events.
pub open spec fn group_events(s: Seq<LocatedView>) -> Seq<GroupView>
    decreases s.len(),
{
    if s.len() == 0 {
        Seq::empty()
    } else {
        let gs = group_events(s.drop_last());
        let e = s.last();
        match find_group(gs, e.tx_hash, 0) {
            Some(j) => gs.update(
                j,
                GroupView { tx_hash: gs[j].tx_hash, block_number: gs[j].block_number, events: gs[j].events.push(e.event) },
            ),
            None => gs.push(GroupView { tx_hash: e.tx_hash, block_number: e.block_number, events: seq![e.event] }),
        }
    }
}

/// The events of `s` that belong to transaction `h`, in order.
pub open spec fn transaction_events(s: Seq<LocatedView>, h: Seq<char>) -> Seq<TransactionEventView> {
    s.filter(|v: LocatedView| v.tx_hash == h).map_values(|v: LocatedView| v.event)
}

/// Some group is that of transaction `h`.
pub open spec fn has_group(gs: Seq<GroupView>, h: Seq<char>) -> bool {
    exists|j: int| 0 <= j < gs.len() && (#[trigger] gs[j]).tx_hash == h
}

proof fn lemma_find_group(gs: Seq<GroupView>, h: Seq<char>, j: int)
    requires
        0 <= j <= gs.len(),
    ensures
        find_group(gs, h, j) matches Some(k) ==> j <= k < gs.len() && gs[k].tx_hash == h && forall|
            i: int,
        | j <= i < k ==> gs[i].tx_hash != h,
        find_group(gs, h, j) is None ==> forall|i: int| j <= i < gs.len() ==> gs[i].tx_hash != h,
    decreases gs.len() - j,
{
    if j < gs.len() && gs[j].tx_hash != h {
        lemma_find_group(gs, h, j + 1);
    }
}

proof fn lemma_transaction_events_push(s: Seq<LocatedView>, e: LocatedView, h: Seq<char>)
    ensures
        transaction_events(s.push(e), h) == if e.tx_hash == h {
            transaction_events(s, h).push(e.event)
        } else {
            transaction_events(s, h)
        },
{
    let p = |v: LocatedView| v.tx_hash == h;
    assert(s.push(e).drop_last() =~= s);
    assert(s.push(e).filter(p) == if p(e) { s.filter(p).push(e) } else { s.filter(p) }) by {
        reveal_with_fuel(Seq::<_>::filter, 1);
    }
    assert(s.filter(p).push(e).map_values(|v: LocatedView| v.event) =~= s.filter(p).map_values(
        |v: LocatedView| v.event,
    ).push(e.event));
}

proof fn lemma_transaction_events_none(s: Seq<LocatedView>, h: Seq<char>)
    requires
        forall|k: int| 0 <= k < s.len() ==> s[k].tx_hash != h,
    ensures
        transaction_events(s, h) == Seq::<TransactionEventView>::empty(),
    decreases s.len(),
{
    if s.len() > 0 {
        lemma_transaction_events_none(s.drop_last(), h);
        lemma_transaction_events_push(s.drop_last(), s.last(), h);
        assert(s.drop_last().push(s.last()) =~= s);
    } else {
        assert(s.filter(|v: LocatedView| v.tx_hash == h) =~= s) by {
            reveal_with_fuel(Seq::<_>::filter, 1);
        }
        assert(transaction_events(s, h) =~= Seq::<TransactionEventView>::empty());
    }
}

/// Every event's transaction has a group, and no two groups share a transaction.
proof fn lemma_group_events_cover(s: Seq<LocatedView>)
    ensures
        forall|i: int, j: int|
            0 <= i < j < group_events(s).len() ==> (#[trigger] group_events(s)[i]).tx_hash
                != (#[trigger] group_events(s)[j]).tx_hash,
        forall|k: int| 0 <= k < s.len() ==> has_group(group_events(s), (#[trigger] s[k]).tx_hash),
        forall|j: int|
            0 <= j < group_events(s).len() ==> exists|k: int|
                0 <= k < s.len() && (#[trigger] s[k]).tx_hash == (#[trigger] group_events(s)[j]).tx_hash,
    decreases s.len(),
{
    if s.len() == 0 {
        return;
    }
    let init = s.drop_last();
    let e = s.last();
    lemma_group_events_cover(init);
    let gs0 = group_events(init);
    let gs = group_events(s);
    assert(s.drop_last() == init);
    lemma_find_group(gs0, e.tx_hash, 0);
    assert forall|i: int, j: int| 0 <= i < j < gs.len() implies (#[trigger] gs[i]).tx_hash != (#[trigger] gs[j]).tx_hash by {
        if j < gs0.len() {
            assert(gs0[i].tx_hash != gs0[j].tx_hash);
        } else {
            assert(gs0[i].tx_hash != e.tx_hash);
        }
    }
    assert forall|k: int| 0 <= k < s.len() implies has_group(gs, (#[trigger] s[k]).tx_hash) by {
        if k < init.len() {
            assert(s[k] == init[k]);
            let jj = choose|jj: int| 0 <= jj < gs0.len() && (#[trigger] gs0[jj]).tx_hash == init[k].tx_hash;
            assert(gs[jj].tx_hash == s[k].tx_hash);
        } else {
            match find_group(gs0, e.tx_hash, 0) {
                Some(j0) => assert(gs[j0].tx_hash == s[k].tx_hash),
                None => assert(gs[gs0.len() as int].tx_hash == s[k].tx_hash),
            }
        }
    }
    assert forall|j: int| 0 <= j < gs.len() implies exists|k: int|
        0 <= k < s.len() && (#[trigger] s[k]).tx_hash == (#[trigger] gs[j]).tx_hash by {
        if j < gs0.len() {
            let kk = choose|kk: int| 0 <= kk < init.len() && (#[trigger] init[kk]).tx_hash == gs0[j].tx_hash;
            assert(s[kk] == init[kk]);
        } else {
            assert(s[s.len() - 1].tx_hash == gs[j].tx_hash);
        }
    }
}

/// Each group holds, in order, exactly the events of its transaction.
proof fn lemma_group_events_contents(s: Seq<LocatedView>)
    ensures
        forall|j: int|
            0 <= j < group_events(s).len() ==> (#[trigger] group_events(s)[j]).events
                == transaction_events(s, group_events(s)[j].tx_hash),
    decreases s.len(),
{
    if s.len() == 0 {
        return;
    }
    let init = s.drop_last();
    let e = s.last();
    assert(init.push(e) =~= s);
    lemma_group_events_contents(init);
    lemma_group_events_cover(init);
    let gs0 = group_events(init);
    let gs = group_events(s);
    lemma_find_group(gs0, e.tx_hash, 0);
    assert forall|j: int| 0 <= j < gs.len() implies (#[trigger] gs[j]).events == transaction_events(
        s,
        gs[j].tx_hash,
    ) by {
        lemma_transaction_events_push(init, e, gs[j].tx_hash);
        if j < gs0.len() {
            assert(gs0[j].events == transaction_events(init, gs0[j].tx_hash));
        } else {
            assert forall|k: int| 0 <= k < init.len() implies init[k].tx_hash != e.tx_hash by {
                if init[k].tx_hash == e.tx_hash {
                    let jj = choose|jj: int| 0 <= jj < gs0.len() && (#[trigger] gs0[jj]).tx_hash == init[k].tx_hash;
                }
            }
            lemma_transaction_events_none(init, e.tx_hash);
            assert(transaction_events(init, e.tx_hash).push(e.event) =~= seq![e.event]);
        }
    }
}

/// Each group's block is the block of its transaction's first event.
proof fn lemma_group_events_block(s: Seq<LocatedView>)
    ensures
        forall|j: int|
            0 <= j < group_events(s).len() ==> exists|k: int|
                0 <= k < s.len() && (#[trigger] s[k]).tx_hash == (#[trigger] group_events(s)[j]).tx_hash
                    && s[k].block_number == group_events(s)[j].block_number && forall|i: int|
                    0 <= i < k ==> s[i].tx_hash != s[k].tx_hash,
    decreases s.len(),
{
    if s.len() == 0 {
        return;
    }
    let init = s.drop_last();
    let e = s.last();
    lemma_group_events_block(init);
    lemma_group_events_cover(init);
    let gs0 = group_events(init);
    let gs = group_events(s);
    assert(s.drop_last() == init);
    lemma_find_group(gs0, e.tx_hash, 0);
    assert forall|j: int| 0 <= j < gs.len() implies exists|k: int|
        0 <= k < s.len() && (#[trigger] s[k]).tx_hash == (#[trigger] gs[j]).tx_hash
            && s[k].block_number == gs[j].block_number && forall|i: int|
            0 <= i < k ==> s[i].tx_hash != s[k].tx_hash by {
        if j < gs0.len() {
            let kk = choose|kk: int|
                0 <= kk < init.len() && (#[trigger] init[kk]).tx_hash == (#[trigger] gs0[j]).tx_hash
                    && init[kk].block_number == gs0[j].block_number && forall|i: int|
                    0 <= i < kk ==> init[i].tx_hash != init[kk].tx_hash;
            assert(s[kk] == init[kk]);
            assert forall|i: int| 0 <= i < kk implies s[i].tx_hash != s[kk].tx_hash by {
                assert(s[i] == init[i]);
            }
        } else {
            let k = s.len() - 1;
            assert forall|i: int| 0 <= i < k implies s[i].tx_hash != s[k].tx_hash by {
                assert(s[i] == init[i]);
                if init[i].tx_hash == e.tx_hash {
                    let jj = choose|jj: int| 0 <= jj < gs0.len() && (#[trigger] gs0[jj]).tx_hash == init[i].tx_hash;
                }
            }
        }
    }
}

/// Grouping by transaction is exact: each group holds, in order, exactly the events of
/// its transaction; no two groups share a transaction; every event's transaction has a
/// group; and each group's block is the block of its transaction's first event.
pub proof fn lemma_group_events_exact(s: Seq<LocatedView>)
    ensures
        forall|j: int|
            0 <= j < group_events(s).len() ==> (#[trigger] group_events(s)[j]).events
                == transaction_events(s, group_events(s)[j].tx_hash),
        forall|i: int, j: int|
            0 <= i < j < group_events(s).len() ==> (#[trigger] group_events(s)[i]).tx_hash
                != (#[trigger] group_events(s)[j]).tx_hash,
        forall|k: int| 0 <= k < s.len() ==> has_group(group_events(s), (#[trigger] s[k]).tx_hash),
        forall|j: int|
            0 <= j < group_events(s).len() ==> exists|k: int|
                0 <= k < s.len() && (#[trigger] s[k]).tx_hash == (#[trigger] group_events(s)[j]).tx_hash
                    && s[k].block_number == group_events(s)[j].block_number && forall|i: int|
                    0 <= i < k ==> s[i].tx_hash != s[k].tx_hash,
{
    lemma_group_events_cover(s);
    lemma_group_events_contents(s);
    lemma_group_events_block(s);
}

/// The message of a transaction group: caller and first log index are those of its first
/// event (the zero address and 0 for a group without events).
pub open spec fn message_of_group(g: GroupView, chain_id: u32) -> MessageView {
    MessageView {
        chain_id,
        caller: if g.events.len() > 0 { g.events[0].caller } else { Seq::new(20, |i: int| 0u8) },
        block_number: g.block_number,
        first_log_index: if g.events.len() > 0 { g.events[0].log_index } else { 0 },
        transaction_hash: g.tx_hash,
        events: g.events,
    }
}

/// The messages of a sequence of events: one per transaction, ordered by
/// `(block_number, first_log_index)`, ties kept in the order of first appearance.
pub open spec fn grouped_messages(chain_id: u32, s: Seq<LocatedView>) -> Seq<MessageView> {
    stable_sort::<TransactionMessage>(
        group_events(s).map_values(|g: GroupView| message_of_group(g, chain_id)),
    )
}

struct TxGroup {
    tx_hash: String,
    block_number: u64,
    events: Vec<TransactionEvent>,
}

impl View for TxGroup {
    type V = GroupView;

    closed spec fn view(&self) -> GroupView {
        GroupView { tx_hash: self.tx_hash@, block_number: self.block_number, events: views(self.events@) }
    }
}

fn find_group_index(groups: &Vec<TxGroup>, h: &String) -> (r: Option<usize>)
    ensures
        r matches Some(j) ==> find_group(views(groups@), h@, 0) == Some(j as int) && j < groups@.len(),
        r is None ==> find_group(views(groups@), h@, 0) is None,
{
    let ghost gs = views(groups@);
    let mut j: usize = 0;
    while j < groups.len()
        invariant
            gs == views(groups@),
            j <= groups@.len(),
            find_group(gs, h@, 0) == find_group(gs, h@, j as int),
        decreases groups@.len() - j,
    {
        assert(gs[j as int] == groups@[j as int]@);
        if groups[j].tx_hash == *h {
            return Some(j);
        }
        j = j + 1;
    }
    None
}

/// Groups events by transaction hash into messages ordered by
/// `(block_number, first_log_index)`.
pub fn group_by_transaction(chain_id: u32, events: Vec<LocatedEvent>) -> (out: Vec<TransactionMessage>)
    ensures
        views(out@) == grouped_messages(chain_id, views(events@)),
{
    let ghost orig = views(events@);
    let mut rest = events;
    let mut groups: Vec<TxGroup> = Vec::new();
    let n = rest.len();
    assert(views(groups@) =~= group_events(orig.take(0)));
    assert(views(rest@) =~= orig.skip(0));
    for i in 0..n
        invariant
            n == orig.len(),
            views(rest@) == orig.skip(i as int),
            views(groups@) == group_events(orig.take(i as int)),
    {
        assert(views(rest@).len() == rest@.len());
        let ghost before = rest@;
        let e = rest.remove(0);
        assert(views(rest@) =~= orig.skip(i + 1)) by {
            assert(rest@ =~= before.drop_first());
            assert(views(before.drop_first()) =~= views(before).drop_first());
            assert(orig.skip(i as int).drop_first() =~= orig.skip(i + 1));
        }
        assert(orig.take(i + 1).drop_last() =~= orig.take(i as int));
        assert(orig.take(i + 1).last() == e@) by {
            assert(views(before)[0] == e@);
        }
        let ghost gs_before = groups@;
        match find_group_index(&groups, &e.tx_hash) {
            Some(j) => {
                let ghost old_events = groups@[j as int].events@;
                groups[j].events.push(e.event);
                assert(views(groups[j as int].events@) =~= views(old_events).push(e.event@));
                assert(views(groups@) =~= views(gs_before).update(
                    j as int,
                    GroupView { tx_hash: views(gs_before)[j as int].tx_hash, block_number: views(gs_before)[j as int].block_number, events: views(gs_before)[j as int].events.push(e@.event) },
                ));
            },
            None => {
                let mut evs: Vec<TransactionEvent> = Vec::new();
                evs.push(e.event);
                let g = TxGroup { tx_hash: e.tx_hash, block_number: e.block_number, events: evs };
                assert(views(g.events@) =~= seq![e@.event]);
                groups.push(g);
                assert(views(groups@) =~= views(gs_before).push(g@));
            },
        }
    }
    assert(orig.take(n as int) =~= orig);
    let ghost gs = views(groups@);
    let ghost target = gs.map_values(|g: GroupView| message_of_group(g, chain_id));
    let mut messages: Vec<TransactionMessage> = Vec::new();
    let m = groups.len();
    assert(views(groups@) =~= gs.skip(0));
    for i in 0..m
        invariant
            m == gs.len(),
            target == gs.map_values(|g: GroupView| message_of_group(g, chain_id)),
            views(groups@) == gs.skip(i as int),
            views(messages@) == target.take(i as int),
    {
        assert(views(groups@).len() == groups@.len());
        let ghost before = groups@;
        let g = groups.remove(0);
        assert(views(groups@) =~= gs.skip(i + 1)) by {
            assert(groups@ =~= before.drop_first());
            assert(views(before.drop_first()) =~= views(before).drop_first());
            assert(gs.skip(i as int).drop_first() =~= gs.skip(i + 1));
        }
        assert(g@ == gs[i as int]) by {
            assert(views(before)[0] == g@);
        }
        let (caller, first_log_index): (Address, u64) = if g.events.len() > 0 {
            (g.events[0].caller, g.events[0].log_index)
        } else {
            ([0u8; 20], 0)
        };
        proof {
            if g.events@.len() == 0 {
                assert(caller@ =~= Seq::new(20, |i: int| 0u8));
            }
        }
        let msg = TransactionMessage::new(chain_id, caller, g.block_number, first_log_index, g.tx_hash, g.events);
        let ghost mb = messages@;
        messages.push(msg);
        assert(views(messages@) =~= views(mb).push(msg@));
        assert(target.take(i + 1) =~= target.take(i as int).push(target[i as int]));
    }
    assert(target.take(m as int) =~= target);
    stable_sort_by_key(messages)
}

/// Every transaction group holds at least one event.
proof fn lemma_groups_not_empty(s: Seq<LocatedView>)
    ensures
        forall|j: int| 0 <= j < group_events(s).len() ==> (#[trigger] group_events(s)[j]).events.len() > 0,
    decreases s.len(),
{
    if s.len() > 0 {
        let init = s.drop_last();
        let e = s.last();
        lemma_groups_not_empty(init);
        let gs0 = group_events(init);
        let gs = group_events(s);
        assert(s.drop_last() == init);
        lemma_find_group(gs0, e.tx_hash, 0);
        assert forall|j: int| 0 <= j < gs.len() implies (#[trigger] gs[j]).events.len() > 0 by {
            match find_group(gs0, e.tx_hash, 0) {
                Some(k) => {
                    if j != k {
                        assert(gs[j] == gs0[j]);
                    }
                },
                None => {
                    if j < gs0.len() {
                        assert(gs[j] == gs0[j]);
                    }
                },
            }
        }
    }
}

/// Every message of a batch is that of one transaction of the batch's events (ordered by
/// block and log index): it holds, in order, exactly that transaction's events, at least
/// one; its caller and first log index are those of its first event; its block is that
/// of the transaction's first event; and it carries the batch's chain id.
pub proof fn lemma_message_caller_is_first_event(chain_id: u32, logs: Seq<Log>)
    ensures
        forall|i: int|
            0 <= i < batch_messages(chain_id, logs).len() ==> {
                let m = #[trigger] batch_messages(chain_id, logs)[i];
                let s = stable_sort::<LocatedEvent>(located_events(logs));
                &&& m.events.len() > 0
                &&& m.caller == m.events[0].caller
                &&& m.first_log_index == m.events[0].log_index
                &&& m.chain_id == chain_id
                &&& m.events == transaction_events(s, m.transaction_hash)
                &&& exists|k: int|
                    0 <= k < s.len() && (#[trigger] s[k]).tx_hash == m.transaction_hash
                        && s[k].block_number == m.block_number && forall|j: int|
                        0 <= j < k ==> s[j].tx_hash != s[k].tx_hash
            },
{
    let s = stable_sort::<LocatedEvent>(located_events(logs));
    let gs = group_events(s);
    let ms = gs.map_values(|g: GroupView| message_of_group(g, chain_id));
    lemma_groups_not_empty(s);
    lemma_stable_sort_members::<TransactionMessage>(ms);
    lemma_group_events_exact(s);
    assert forall|i: int| 0 <= i < batch_messages(chain_id, logs).len() implies {
        let m = #[trigger] batch_messages(chain_id, logs)[i];
        &&& m.events.len() > 0
        &&& m.caller == m.events[0].caller
        &&& m.first_log_index == m.events[0].log_index
        &&& m.chain_id == chain_id
        &&& m.events == transaction_events(s, m.transaction_hash)
        &&& exists|k: int|
            0 <= k < s.len() && (#[trigger] s[k]).tx_hash == m.transaction_hash
                && s[k].block_number == m.block_number && forall|j: int|
                0 <= j < k ==> s[j].tx_hash != s[k].tx_hash
    } by {
        let m = batch_messages(chain_id, logs)[i];
        assert(ms.contains(m));
        let j = choose|j: int| 0 <= j < ms.len() && ms[j] == m;
        assert(gs[j].events.len() > 0);
        assert(gs[j].events == transaction_events(s, gs[j].tx_hash));
        let k = choose|k: int|
            0 <= k < s.len() && (#[trigger] s[k]).tx_hash == (#[trigger] gs[j]).tx_hash
                && s[k].block_number == gs[j].block_number && forall|i: int|
                0 <= i < k ==> s[i].tx_hash != s[k].tx_hash;
        assert(s[k].tx_hash == m.transaction_hash);
    }
}

/// The messages of a batch whose logs are `logs`.
pub open spec fn batch_messages(chain_id: u32, logs: Seq<Log>) -> Seq<MessageView> {
    grouped_messages(chain_id, stable_sort::<LocatedEvent>(located_events(logs)))
}

/// Builds the result of reading blocks `start_block..=end_block`, whose matching logs are
/// `logs`: events ordered by `(block_number, log_index)`, grouped by transaction, and
/// transactions ordered by `(block_number, first_log_index)`.
pub fn assemble_batch(
    parser: &NoxEventParser,
    chain_id: u32,
    logs: &Vec<Log>,
    start_block: u64,
    end_block: u64,
) -> (r: BatchResult)
    requires
        parser.wf(),
    ensures
        r.start_block == start_block,
        r.end_block == end_block,
        views(r.transactions@) == batch_messages(chain_id, logs@),
{
    let events = collect_events(parser, logs);
    let sorted = stable_sort_by_key(events);
    let transactions = group_by_transaction(chain_id, sorted);
    BatchResult { transactions, start_block, end_block }
}

/// The last block of the batch that starts at `start_block`: at most `batch_size` blocks,
/// and none past `latest_block`. `None` when `start_block` is past `latest_block`.
pub fn batch_end_block(start_block: u64, latest_block: u64, batch_size: u64) -> (r: Option<u64>)
    requires
        start_block <= latest_block ==> 1 <= start_block + batch_size <= u64::MAX,
    ensures
        start_block > latest_block ==> r is None,
        start_block <= latest_block ==> r == Some(
            if start_block + batch_size - 1 <= latest_block {
                (start_block + batch_size - 1) as u64
            } else {
                latest_block
            },
        ),
{
    if start_block > latest_block {
        return None;
    }
    let end = (start_block + batch_size) - 1;
    Some(if end <= latest_block { end } else { latest_block })
}

/// The result of a batch that starts past the chain head: no transactions, and an end
/// block right before the start (0 when the start is 0).
pub fn empty_batch(start_block: u64) -> (r: BatchResult)
    ensures
        r.transactions@.len() == 0,
        r.start_block == start_block,
        r.end_block == if start_block == 0 { 0 } else { (start_block - 1) as u64 },
{
    BatchResult { transactions: Vec::new(), start_block, end_block: start_block.saturating_sub(1) }
}

/// `x` is the event of an element of `s` of transaction `h`.
pub open spec fn event_from(s: Seq<LocatedView>, h: Seq<char>, x: TransactionEventView) -> bool {
    exists|k: int| 0 <= k < s.len() && (#[trigger] s[k]).tx_hash == h && s[k].event == x
}

/// Every event of transaction `h` in `s` comes from an element of `s` of that transaction.
proof fn lemma_transaction_events_origin(s: Seq<LocatedView>, h: Seq<char>)
    ensures
        forall|i: int|
            0 <= i < transaction_events(s, h).len() ==> event_from(s, h, #[trigger] transaction_events(s, h)[i]),
    decreases s.len(),
{
    if s.len() == 0 {
        lemma_transaction_events_none(s, h);
        return;
    }
    let init = s.drop_last();
    let e = s.last();
    assert(init.push(e) =~= s);
    lemma_transaction_events_origin(init, h);
    lemma_transaction_events_push(init, e, h);
    let t0 = transaction_events(init, h);
    let t = transaction_events(s, h);
    assert forall|i: int| 0 <= i < t.len() implies event_from(s, h, #[trigger] t[i]) by {
        if i < t0.len() {
            assert(event_from(init, h, t0[i]));
            let k = choose|k: int| 0 <= k < init.len() && (#[trigger] init[k]).tx_hash == h && init[k].event == t0[i];
            assert(s[k] == init[k]);
        } else {
            assert(s[s.len() - 1] == e);
        }
    }
}

/// When `s` is ordered by `(block_number, log_index)` and all events of a transaction lie
/// in one block, the events of each transaction come ordered by log index.
pub proof fn lemma_transaction_events_ordered(s: Seq<LocatedView>, h: Seq<char>)
    requires
        crate::sort::sorted_by_key::<LocatedEvent>(s),
        forall|a: int, b: int|
            0 <= a < s.len() && 0 <= b < s.len() && (#[trigger] s[a]).tx_hash == (#[trigger] s[b]).tx_hash
                ==> s[a].block_number == s[b].block_number,
        forall|k: int| 0 <= k < s.len() ==> (#[trigger] s[k]).event.log_index == s[k].log_index,
    ensures
        forall|i: int, j: int|
            0 <= i < j < transaction_events(s, h).len() ==> (#[trigger] transaction_events(s, h)[i]).log_index
                <= (#[trigger] transaction_events(s, h)[j]).log_index,
    decreases s.len(),
{
    if s.len() == 0 {
        lemma_transaction_events_none(s, h);
        return;
    }
    let init = s.drop_last();
    let e = s.last();
    assert(init.push(e) =~= s);
    assert(crate::sort::sorted_by_key::<LocatedEvent>(init)) by {
        assert forall|i: int, j: int| 0 <= i < j < init.len() implies crate::sort::key_le(
            LocatedEvent::key_of(#[trigger] init[i]),
            LocatedEvent::key_of(#[trigger] init[j]),
        ) by {
            assert(init[i] == s[i] && init[j] == s[j]);
        }
    }
    assert forall|a: int, b: int|
        0 <= a < init.len() && 0 <= b < init.len() && (#[trigger] init[a]).tx_hash == (#[trigger] init[b]).tx_hash
            implies init[a].block_number == init[b].block_number by {
        assert(init[a] == s[a] && init[b] == s[b]);
    }
    assert forall|k: int| 0 <= k < init.len() implies (#[trigger] init[k]).event.log_index == init[k].log_index by {
        assert(init[k] == s[k]);
    }
    lemma_transaction_events_ordered(init, h);
    lemma_transaction_events_origin(init, h);
    lemma_transaction_events_push(init, e, h);
    let t0 = transaction_events(init, h);
    let t = transaction_events(s, h);
    assert forall|i: int, j: int| 0 <= i < j < t.len() implies (#[trigger] t[i]).log_index <= (#[trigger] t[j]).log_index by {
        if j < t0.len() {
            assert(t[i] == t0[i] && t[j] == t0[j]);
            assert(t0[i].log_index <= t0[j].log_index);
        } else {
            assert(t[i] == t0[i] && t[j] == e.event);
            assert(event_from(init, h, t0[i]));
            let k = choose|k: int| 0 <= k < init.len() && (#[trigger] init[k]).tx_hash == h && init[k].event == (#[trigger] t0[i]);
            let last = s.len() - 1;
            assert(s[k] == init[k]);
            assert(crate::sort::key_le(LocatedEvent::key_of(s[k]), LocatedEvent::key_of(s[last])));
            assert(s[k].tx_hash == s[last].tx_hash);
            assert(s[k].block_number == s[last].block_number);
        }
    }
}

/// The messages of a batch come ordered by `(block_number, first_log_index)`.
pub proof fn lemma_batch_messages_ordered(chain_id: u32, logs: Seq<Log>)
    ensures
        crate::sort::sorted_by_key::<TransactionMessage>(batch_messages(chain_id, logs)),
{
    crate::sort::lemma_stable_sort_sorted::<TransactionMessage>(
        group_events(stable_sort::<LocatedEvent>(located_events(logs))).map_values(
            |g: GroupView| message_of_group(g, chain_id),
        ),
    );
}

} // verus!
