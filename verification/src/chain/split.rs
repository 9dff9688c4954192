//! Fetching the logs of a block range while bisecting it whenever the provider rejects
//! the range for returning too many logs.
//!
//! The fetching itself is outside work (an RPC call that is awaited), so the decisions
//! stand here as a state machine: the driver performs the [`SplitAction`] it is handed and
//! reports the outcome back through one of the `on_*` methods. Ranges are handed out
//! left to right; a rejected range of several blocks is split into its two halves, the
//! left half fetched first; a rejected single block gets one fallback attempt through the
//! block's receipts before the original rejection is given up with.

use vstd::prelude::*;

use crate::chain::parser::Log;
use crate::error::{log_response_too_large, ChainError};
use crate::events::Address;
use crate::text::bytes_equal;

verus! {

/// `rs[i]` ends right before `rs[i + 1]` starts.
pub open spec fn adjacent(rs: Seq<(u64, u64)>, i: int) -> bool {
    rs[i].1 + 1 == rs[i + 1].0
}

/// `rs` is a non-empty list of non-empty inclusive block ranges that follow each other
/// without gap or overlap, from block `from` up to block `to`.
pub open spec fn tiles(rs: Seq<(u64, u64)>, from: int, to: int) -> bool {
    &&& rs.len() > 0
    &&& rs[0].0 == from
    &&& rs.last().1 == to
    &&& forall|i: int| 0 <= i < rs.len() ==> (#[trigger] rs[i]).0 <= rs[i].1
    &&& forall|i: int| 0 <= i < rs.len() - 1 ==> #[trigger] adjacent(rs, i)
}

/// In a tiling, a range ends before any later range starts.
pub proof fn lemma_tiles_ascending(rs: Seq<(u64, u64)>, from: int, to: int, i: int, j: int)
    requires
        tiles(rs, from, to),
        0 <= i < j < rs.len(),
    ensures
        rs[i].1 < rs[j].0,
        from <= rs[i].0,
        rs[j].1 <= to,
    decreases j - i,
{
    assert(adjacent(rs, j - 1));
    assert(rs[j - 1].0 <= rs[j - 1].1);
    if i < j - 1 {
        lemma_tiles_ascending(rs, from, to, i, j - 1);
    }
    lemma_tiles_bounds(rs, from, to, i);
    lemma_tiles_bounds(rs, from, to, j);
}

/// Every range of a tiling of `from..=to` lies within `from..=to`.
pub proof fn lemma_tiles_bounds(rs: Seq<(u64, u64)>, from: int, to: int, i: int)
    requires
        tiles(rs, from, to),
        0 <= i < rs.len(),
    ensures
        from <= rs[i].0 <= rs[i].1 <= to,
    decreases rs.len() - i,
{
    lemma_tiles_start(rs, from, to, i);
    assert(rs[i].0 <= rs[i].1);
    if i < rs.len() - 1 {
        assert(adjacent(rs, i));
        lemma_tiles_bounds(rs, from, to, i + 1);
    }
}

proof fn lemma_tiles_start(rs: Seq<(u64, u64)>, from: int, to: int, i: int)
    requires
        tiles(rs, from, to),
        0 <= i < rs.len(),
    ensures
        from <= rs[i].0,
    decreases i,
{
    if i > 0 {
        assert(adjacent(rs, i - 1));
        assert(rs[i - 1].0 <= rs[i - 1].1);
        lemma_tiles_start(rs, from, to, i - 1);
    }
}

proof fn lemma_tiles_cover_upto(rs: Seq<(u64, u64)>, from: int, to: int, b: int, k: int)
    requires
        tiles(rs, from, to),
        from <= b,
        0 <= k < rs.len(),
        b <= rs[k].1,
    ensures
        exists|i: int| #![trigger rs[i]] 0 <= i <= k && rs[i].0 <= b <= rs[i].1,
    decreases k,
{
    if rs[k].0 <= b {
        assert(rs[k].0 <= b <= rs[k].1);
    } else {
        assert(k > 0);
        assert(adjacent(rs, k - 1));
        lemma_tiles_cover_upto(rs, from, to, b, k - 1);
        let i = choose|i: int| #![trigger rs[i]] 0 <= i <= k - 1 && rs[i].0 <= b <= rs[i].1;
        assert(0 <= i <= k && rs[i].0 <= b <= rs[i].1);
    }
}

/// A tiling of `from..=to` partitions it: every block of the range lies in exactly one of
/// its ranges, and the ranges come in ascending order.
pub proof fn lemma_tiles_partition(rs: Seq<(u64, u64)>, from: int, to: int, b: int)
    requires
        tiles(rs, from, to),
        from <= b <= to,
    ensures
        exists|i: int| #![trigger rs[i]] 0 <= i < rs.len() && rs[i].0 <= b <= rs[i].1,
        forall|i: int, j: int|
            #![trigger rs[i], rs[j]]
            0 <= i < rs.len() && 0 <= j < rs.len() && rs[i].0 <= b <= rs[i].1 && rs[j].0 <= b
                <= rs[j].1 ==> i == j,
        forall|i: int, j: int| #![trigger rs[i], rs[j]] 0 <= i < j < rs.len() ==> rs[i].1 < rs[j].0,
{
    lemma_tiles_cover_upto(rs, from, to, b, rs.len() - 1);
    assert forall|i: int, j: int| #![trigger rs[i], rs[j]] 0 <= i < j < rs.len() implies rs[i].1 < rs[j].0 by {
        lemma_tiles_ascending(rs, from, to, i, j);
    }
}

/// A log emitted by `contract` whose first topic is one of `signatures`.
pub open spec fn emitted_by(log: Log, contract: Seq<u8>, signatures: Seq<Seq<u8>>) -> bool {
    &&& log.address@ == contract
    &&& log.topics@.len() > 0
    &&& signatures.contains(log.topics@[0]@)
}

/// The views of a list of 32-byte words.
pub open spec fn word_views(ws: Seq<[u8; 32]>) -> Seq<Seq<u8>> {
    ws.map_values(|w: [u8; 32]| w@)
}

fn is_known_topic(topic: &[u8; 32], signatures: &Vec<[u8; 32]>) -> (r: bool)
    ensures
        r == word_views(signatures@).contains(topic@),
{
    let n = signatures.len();
    for i in 0..n
        invariant
            n == signatures@.len(),
            forall|k: int| 0 <= k < i ==> signatures@[k]@ != topic@,
    {
        if bytes_equal(&signatures[i], topic) {
            assert(word_views(signatures@)[i as int] == topic@);
            return true;
        }
    }
    assert forall|k: int| 0 <= k < word_views(signatures@).len() implies word_views(signatures@)[k] != topic@ by {
        assert(word_views(signatures@)[k] == signatures@[k]@);
    }
    false
}

/// Keeps, in order, the logs emitted by `contract` whose first topic is one of
/// `signatures`: the filter that `eth_getLogs` applies on the node's side, applied here
/// to the logs of a block's receipts.
pub fn filter_contract_logs(logs: Vec<Log>, contract: &Address, signatures: &Vec<[u8; 32]>) -> (out: Vec<Log>)
    ensures
        out@ == logs@.filter(|l: Log| emitted_by(l, contract@, word_views(signatures@))),
{
    let ghost orig = logs@;
    let ghost pred = |l: Log| emitted_by(l, contract@, word_views(signatures@));
    let mut rest = logs;
    let mut out: Vec<Log> = Vec::new();
    let n = rest.len();
    assert(orig.take(0).filter(pred) =~= Seq::<Log>::empty()) by {
        reveal_with_fuel(Seq::<_>::filter, 1);
    }
    assert(orig.skip(0) =~= orig);
    for i in 0..n
        invariant
            n == orig.len(),
            pred == (|l: Log| emitted_by(l, contract@, word_views(signatures@))),
            rest@ == orig.skip(i as int),
            out@ == orig.take(i as int).filter(pred),
    {
        let log = rest.remove(0);
        assert(rest@ =~= orig.skip(i + 1));
        assert(orig.take(i + 1).drop_last() =~= orig.take(i as int));
        assert(orig.take(i + 1).last() == log);
        let keep = bytes_equal(&log.address, contract) && log.topics.len() > 0 && is_known_topic(
            &log.topics[0],
            signatures,
        );
        assert(keep == pred(log));
        proof {
            reveal_with_fuel(Seq::<_>::filter, 1);
        }
        if keep {
            out.push(log);
        }
    }
    assert(orig.take(n as int) =~= orig);
    out
}

/// The logs of a block's receipts, each receipt given by its logs, one receipt after
/// the other.
pub open spec fn receipt_logs(receipts: Seq<Vec<Log>>) -> Seq<Log> {
    receipts.map_values(|r: Vec<Log>| r@).flatten()
}

/// The contract's matching logs of block `block`, from what `eth_getBlockReceipts` gave
/// (each receipt given by its logs). The node having no receipts for the block is an
/// error, [`ChainError::MissingBlockReceipts`], never an empty block: the fallback is only
/// asked for a block that `eth_getLogs` just reported as holding too many matching logs.
pub fn logs_from_block_receipts(
    block: u64,
    receipts: Option<Vec<Vec<Log>>>,
    contract: &Address,
    signatures: &Vec<[u8; 32]>,
) -> (r: Result<Vec<Log>, ChainError>)
    ensures
        match receipts {
            None => r matches Err(ChainError::MissingBlockReceipts(b)) && b == block,
            Some(rs) => r matches Ok(out) && out@ == receipt_logs(rs@).filter(
                |l: Log| emitted_by(l, contract@, word_views(signatures@)),
            ),
        },
{
    match receipts {
        None => Err(ChainError::MissingBlockReceipts(block)),
        Some(rs) => {
            let ghost orig = rs@;
            let mut rest = rs;
            let mut all: Vec<Log> = Vec::new();
            let n = rest.len();
            assert(orig.skip(0) =~= orig);
            assert(receipt_logs(orig.take(0)) =~= Seq::<Log>::empty());
            for i in 0..n
                invariant
                    n == orig.len(),
                    rest@ == orig.skip(i as int),
                    all@ == receipt_logs(orig.take(i as int)),
            {
                let mut receipt = rest.remove(0);
                assert(rest@ =~= orig.skip(i + 1));
                let ghost before = all@;
                let ghost logs_i = receipt@;
                assert(orig[i as int] == receipt);
                all.append(&mut receipt);
                proof {
                    let m = orig.take(i as int).map_values(|r: Vec<Log>| r@);
                    assert(orig.take(i + 1).map_values(|r: Vec<Log>| r@) =~= m.push(logs_i));
                    m.lemma_flatten_push(logs_i);
                }
            }
            assert(orig.take(n as int) =~= orig);
            Ok(filter_contract_logs(all, contract, signatures))
        },
    }
}

/// The most `eth_getLogs` calls a pending range can still take: a range of `n + 1`
/// blocks is halved into a binary tree of at most `n + 1` leaves, so at most `2n + 1`
/// ranges are ever asked for.
pub open spec fn fetch_budget(r: (u64, u64)) -> nat {
    if r.0 <= r.1 {
        (2 * (r.1 - r.0) + 1) as nat
    } else {
        1
    }
}

/// The most receipts fallbacks a pending range can still take: one per block.
pub open spec fn receipts_budget(r: (u64, u64)) -> nat {
    if r.0 <= r.1 {
        (r.1 - r.0 + 1) as nat
    } else {
        1
    }
}

/// The `eth_getLogs` budget of a list of ranges.
pub open spec fn fetch_budgets(rs: Seq<(u64, u64)>) -> nat
    decreases rs.len(),
{
    if rs.len() == 0 {
        0
    } else {
        fetch_budgets(rs.drop_last()) + fetch_budget(rs.last())
    }
}

/// The receipts budget of a list of ranges.
pub open spec fn receipts_budgets(rs: Seq<(u64, u64)>) -> nat
    decreases rs.len(),
{
    if rs.len() == 0 {
        0
    } else {
        receipts_budgets(rs.drop_last()) + receipts_budget(rs.last())
    }
}

/// Halving a range of width `t - f` leaves two halves of width at most `(t - f) / 2`:
/// a range of `n + 1` blocks is down to single blocks after about `log2(n + 1)` halvings.
pub proof fn lemma_halves_shrink(f: u64, t: u64)
    requires
        f < t,
    ensures
        ({
            let mid = f + (t - f) / 2;
            &&& f <= mid < t
            &&& mid - f <= (t - f) / 2
            &&& t - (mid + 1) <= (t - f) / 2
        }),
{
}

/// A stack read from its top down: the order in which its ranges will be handed out.
pub open spec fn stack_order(p: Seq<(u64, u64)>) -> Seq<(u64, u64)> {
    Seq::new(p.len(), |i: int| p[p.len() - 1 - i])
}

/// What the driver must do next.
#[derive(Debug)]
pub enum SplitAction {
    /// Fetch the logs of blocks `from..=to` with `eth_getLogs`.
    Fetch { from: u64, to: u64 },
    /// Fetch the logs of the single block `block` through its receipts.
    FetchReceipts { block: u64 },
    /// Every block of the range has been fetched: the logs gathered so far are the result.
    Finish,
    /// Give up with this error.
    Fail(ChainError),
}

/// Where the splitter stands.
#[derive(Debug)]
pub enum SplitPhase {
    /// Waiting for the outcome of `eth_getLogs` on `from..=to`.
    Fetching { from: u64, to: u64 },
    /// Waiting for the receipts of `block`, whose `eth_getLogs` was rejected with `cause`.
    FallingBack { block: u64, cause: ChainError },
    Finished,
    Failed,
}

/// The bisection state of one `get_logs_split_on_error` call.
pub struct LogRangeSplitter {
    from: u64,
    to: u64,
    /// Ranges still to fetch; the top of the stack is the leftmost.
    pending: Vec<(u64, u64)>,
    phase: SplitPhase,
    /// Ranges fetched so far, in the order they were fetched.
    fetched: Ghost<Seq<(u64, u64)>>,
    /// The logs of each fetched range, in the same order.
    batches: Ghost<Seq<Seq<Log>>>,
    /// The logs gathered so far: the batches, one after the other.
    logs: Vec<Log>,
}

impl LogRangeSplitter {
    /// The range in flight, if any.
    pub open spec fn in_flight(phase: SplitPhase) -> Seq<(u64, u64)> {
        match phase {
            SplitPhase::Fetching { from, to } => seq![(from, to)],
            SplitPhase::FallingBack { block, .. } => seq![(block, block)],
            _ => Seq::empty(),
        }
    }

    pub closed spec fn first_block(&self) -> u64 {
        self.from
    }

    pub closed spec fn last_block(&self) -> u64 {
        self.to
    }

    pub closed spec fn phase(&self) -> SplitPhase {
        self.phase
    }

    /// The ranges whose logs have been fetched, in order.
    pub closed spec fn fetched_ranges(&self) -> Seq<(u64, u64)> {
        self.fetched@
    }

    /// The logs reported for each fetched range, in the order of [`Self::fetched_ranges`].
    pub closed spec fn fetched_batches(&self) -> Seq<Seq<Log>> {
        self.batches@
    }

    /// The logs gathered so far: the fetched batches, one after the other.
    pub closed spec fn collected(&self) -> Seq<Log> {
        self.logs@
    }

    /// The ranges fetched, the one in flight and those still pending, left to right.
    pub closed spec fn plan(&self) -> Seq<(u64, u64)> {
        self.fetched@ + Self::in_flight(self.phase) + stack_order(self.pending@)
    }

    /// The ranges still to fetch after the one in flight, left to right.
    pub closed spec fn pending(&self) -> Seq<(u64, u64)> {
        stack_order(self.pending@)
    }

    /// The most `eth_getLogs` calls still to come: every reported outcome of one lowers it.
    pub closed spec fn fetches_left(&self) -> nat {
        fetch_budgets(self.pending@) + match self.phase {
            SplitPhase::Fetching { from, to } => fetch_budget((from, to)),
            _ => 0,
        }
    }

    /// The most receipts fallbacks still to come: every reported outcome of one lowers it.
    pub closed spec fn receipts_left(&self) -> nat {
        receipts_budgets(self.pending@) + match self.phase {
            SplitPhase::Fetching { from, to } => receipts_budget((from, to)),
            SplitPhase::FallingBack { .. } => 1,
            _ => 0,
        }
    }

    pub closed spec fn wf(&self) -> bool {
        &&& self.logs@ == self.batches@.flatten()
        &&& self.batches@.len() == self.fetched@.len()
        &&& self.ranges_wf()
    }

    closed spec fn ranges_wf(&self) -> bool {
        if self.from <= self.to {
            match self.phase {
                SplitPhase::Failed => true,
                SplitPhase::Finished => self.pending@.len() == 0 && tiles(
                    self.fetched@,
                    self.from as int,
                    self.to as int,
                ),
                _ => tiles(self.plan(), self.from as int, self.to as int),
            }
        } else {
            // An inverted range is asked for as it is, once, and never split.
            &&& self.pending@.len() == 0
            &&& match self.phase {
                SplitPhase::Fetching { from, to } => from == self.from && to == self.to,
                SplitPhase::FallingBack { block, .. } => block == self.from,
                _ => true,
            }
        }
    }

    /// Every range the splitter asks to fetch lies within the range it was started on.
    pub proof fn lemma_request_within_range(&self)
        requires
            self.wf(),
            self.first_block() <= self.last_block(),
        ensures
            self.phase() matches SplitPhase::Fetching { from, to } ==> self.first_block() <= from
                <= to <= self.last_block(),
            self.phase() matches SplitPhase::FallingBack { block, .. } ==> self.first_block()
                <= block <= self.last_block(),
    {
        if !(self.phase is Finished) && !(self.phase is Failed) {
            let k = self.fetched@.len() as int;
            assert(self.plan()[k] == Self::in_flight(self.phase)[0]);
            lemma_tiles_bounds(self.plan(), self.from as int, self.to as int, k);
        }
    }

    /// Once finished, the fetched ranges partition the range left to right, each with the
    /// batch of logs reported for it.
    pub proof fn lemma_finished_partition(&self)
        requires
            self.wf(),
            self.phase() is Finished,
            self.first_block() <= self.last_block(),
        ensures
            tiles(self.fetched_ranges(), self.first_block() as int, self.last_block() as int),
            self.fetched_batches().len() == self.fetched_ranges().len(),
            self.collected() == self.fetched_batches().flatten(),
    {
    }

    /// Starts on blocks `from..=to`; the first action is to fetch the whole range.
    pub fn new(from: u64, to: u64) -> (s: Self)
        ensures
            s.wf(),
            s.first_block() == from,
            s.last_block() == to,
            s.phase() == (SplitPhase::Fetching { from, to }),
            s.fetched_ranges() == Seq::<(u64, u64)>::empty(),
            s.fetched_batches() == Seq::<Seq<Log>>::empty(),
            s.collected() == Seq::<Log>::empty(),
            s.pending() == Seq::<(u64, u64)>::empty(),
            s.plan() == seq![(from, to)],
            s.fetches_left() == fetch_budget((from, to)),
            s.receipts_left() == receipts_budget((from, to)),
    {
        let s = LogRangeSplitter {
            from,
            to,
            pending: Vec::new(),
            phase: SplitPhase::Fetching { from, to },
            fetched: Ghost(Seq::empty()),
            batches: Ghost(Seq::empty()),
            logs: Vec::new(),
        };
        assert(s.batches@.flatten() =~= Seq::<Log>::empty());
        assert(s.plan() =~= seq![(from, to)]);
        assert(s.pending() =~= Seq::<(u64, u64)>::empty());
        s
    }

    /// The action that starts the work: fetching the whole range.
    pub fn first_action(&self) -> (a: SplitAction)
        requires
            self.wf(),
            self.phase() is Fetching,
        ensures
            a == (SplitAction::Fetch { from: self.phase()->Fetching_from, to: self.phase()->Fetching_to }),
    {
        match &self.phase {
            SplitPhase::Fetching { from, to } => SplitAction::Fetch { from: *from, to: *to },
            _ => SplitAction::Finish,
        }
    }

    /// Hands out the next pending range, or finishes when none is left.
    fn advance(&mut self) -> (a: SplitAction)
        requires
            old(self).phase is Finished,
            old(self).logs@ == old(self).batches@.flatten(),
            old(self).batches@.len() == old(self).fetched@.len(),
            old(self).from > old(self).to ==> old(self).pending@.len() == 0,
            old(self).from <= old(self).to && old(self).pending@.len() == 0 ==> tiles(old(self).fetched@, old(self).from as int, old(self).to as int),
            old(self).from <= old(self).to && old(self).pending@.len() > 0 ==> tiles(
                old(self).fetched@ + stack_order(old(self).pending@),
                old(self).from as int,
                old(self).to as int,
            ),
        ensures
            final(self).wf(),
            final(self).from == old(self).from,
            final(self).to == old(self).to,
            final(self).fetched@ == old(self).fetched@,
            final(self).batches@ == old(self).batches@,
            final(self).logs@ == old(self).logs@,
            final(self).fetches_left() == fetch_budgets(old(self).pending@),
            final(self).receipts_left() == receipts_budgets(old(self).pending@),
            final(self).plan() == old(self).fetched@ + stack_order(old(self).pending@),
            old(self).pending@.len() == 0 ==> a == SplitAction::Finish && final(self).phase is Finished
                && final(self).pending() == Seq::<(u64, u64)>::empty(),
            old(self).pending@.len() > 0 ==> {
                let next = stack_order(old(self).pending@)[0];
                &&& a == (SplitAction::Fetch { from: next.0, to: next.1 })
                &&& final(self).phase == (SplitPhase::Fetching { from: next.0, to: next.1 })
                &&& final(self).pending() == stack_order(old(self).pending@).drop_first()
            },
    {
        let ghost p = self.pending@;
        match self.pending.pop() {
            Some(next) => {
                assert(p.drop_last() =~= self.pending@);
                self.phase = SplitPhase::Fetching { from: next.0, to: next.1 };
                assert(self.plan() =~= old(self).fetched@ + stack_order(old(self).pending@));
                assert(self.pending() =~= stack_order(p).drop_first());
                SplitAction::Fetch { from: next.0, to: next.1 }
            },
            None => {
                assert(self.plan() =~= old(self).fetched@ + stack_order(old(self).pending@));
                assert(self.pending() =~= Seq::<(u64, u64)>::empty());
                SplitAction::Finish
            },
        }
    }

    /// Appends `batch` to the logs gathered, as the batch of the range being fetched.
    fn gather(&mut self, batch: Vec<Log>)
        requires
            old(self).logs@ == old(self).batches@.flatten(),
        ensures
            final(self).logs@ == old(self).logs@ + batch@,
            final(self).batches@ == old(self).batches@.push(batch@),
            final(self).logs@ == final(self).batches@.flatten(),
            final(self).from == old(self).from,
            final(self).to == old(self).to,
            final(self).pending@ == old(self).pending@,
            final(self).phase == old(self).phase,
            final(self).fetched@ == old(self).fetched@,
    {
        let mut batch = batch;
        let ghost b = batch@;
        self.logs.append(&mut batch);
        proof {
            self.batches@.lemma_flatten_push(b);
            self.batches@ = self.batches@.push(b);
        }
    }

    /// The logs gathered: once finished, those of every block of the range, batch after
    /// batch in the order the ranges were fetched.
    pub fn into_logs(self) -> (logs: Vec<Log>)
        requires
            self.wf(),
        ensures
            logs@ == self.collected(),
            logs@ == self.fetched_batches().flatten(),
    {
        self.logs
    }

    /// `eth_getLogs` returned `batch` for the range in flight: the range counts as fetched,
    /// its logs are appended to those gathered, and the leftmost pending range is handed out
    /// next, or the work is finished when none is pending.
    pub fn on_fetched(&mut self, batch: Vec<Log>) -> (a: SplitAction)
        requires
            old(self).wf(),
            old(self).phase() is Fetching,
        ensures
            final(self).wf(),
            final(self).first_block() == old(self).first_block(),
            final(self).last_block() == old(self).last_block(),
            final(self).fetched_ranges() == old(self).fetched_ranges().push(
                (old(self).phase()->Fetching_from, old(self).phase()->Fetching_to),
            ),
            final(self).fetched_batches() == old(self).fetched_batches().push(batch@),
            final(self).collected() == old(self).collected() + batch@,
            final(self).plan() == old(self).plan(),
            final(self).fetches_left() < old(self).fetches_left(),
            final(self).receipts_left() <= old(self).receipts_left(),
            old(self).pending().len() == 0 ==> a == SplitAction::Finish && final(self).phase() is Finished
                && final(self).fetched_ranges() == old(self).plan(),
            old(self).pending().len() > 0 ==> {
                let next = old(self).pending()[0];
                &&& a == (SplitAction::Fetch { from: next.0, to: next.1 })
                &&& final(self).phase() == (SplitPhase::Fetching { from: next.0, to: next.1 })
                &&& final(self).pending() == old(self).pending().drop_first()
            },
            a is Finish && final(self).first_block() <= final(self).last_block() ==> tiles(
                final(self).fetched_ranges(),
                final(self).first_block() as int,
                final(self).last_block() as int,
            ),
    {
        let ghost cur = match self.phase {
            SplitPhase::Fetching { from, to } => (from, to),
            _ => (0u64, 0u64),
        };
        self.gather(batch);
        proof {
            self.fetched@ = self.fetched@.push(cur);
            assert(old(self).plan() =~= self.fetched@ + stack_order(self.pending@));
        }
        self.phase = SplitPhase::Finished;
        proof {
            if self.pending@.len() == 0 {
                assert(self.fetched@ + stack_order(self.pending@) =~= self.fetched@);
            }
        }
        self.advance()
    }

    /// `eth_getLogs` failed on the range in flight with `err`.
    pub fn on_fetch_failed(&mut self, err: ChainError) -> (a: SplitAction)
        requires
            old(self).wf(),
            old(self).phase() is Fetching,
        ensures
            final(self).wf(),
            final(self).first_block() == old(self).first_block(),
            final(self).last_block() == old(self).last_block(),
            final(self).fetched_ranges() == old(self).fetched_ranges(),
            final(self).fetched_batches() == old(self).fetched_batches(),
            final(self).collected() == old(self).collected(),
            final(self).fetches_left() < old(self).fetches_left(),
            final(self).receipts_left() <= old(self).receipts_left(),
            ({
                let from = old(self).phase()->Fetching_from;
                let to = old(self).phase()->Fetching_to;
                let mid = (from + (to - from) / 2) as u64;
                if log_response_too_large(err) && from < to {
                    &&& a == (SplitAction::Fetch { from, to: mid })
                    &&& final(self).phase() == (SplitPhase::Fetching { from, to: mid })
                    &&& final(self).pending() == seq![((mid + 1) as u64, to)] + old(self).pending()
                    &&& final(self).plan().len() == old(self).plan().len() + 1
                } else if log_response_too_large(err) {
                    &&& a == (SplitAction::FetchReceipts { block: from })
                    &&& final(self).phase() == (SplitPhase::FallingBack { block: from, cause: err })
                    &&& final(self).pending() == old(self).pending()
                } else {
                    &&& a == SplitAction::Fail(err)
                    &&& final(self).phase() is Failed
                }
            }),
    {
        let (from, to) = match self.phase {
            SplitPhase::Fetching { from, to } => (from, to),
            _ => (0u64, 0u64),
        };
        let too_large = err.is_log_response_too_large();
        if too_large && from < to {
            let mid = from + (to - from) / 2;
            self.pending.push((mid + 1, to));
            self.phase = SplitPhase::Fetching { from, to: mid };
            proof {
                assert(self.pending@.drop_last() =~= old(self).pending@);
                assert(fetch_budgets(self.pending@) == fetch_budgets(old(self).pending@) + fetch_budget(((mid + 1) as u64, to)));
                assert(receipts_budgets(self.pending@) == receipts_budgets(old(self).pending@) + receipts_budget(((mid + 1) as u64, to)));
                assert(self.pending() =~= seq![((mid + 1) as u64, to)] + old(self).pending());
                let old_plan = old(self).plan();
                let new_plan = self.plan();
                let k = self.fetched@.len() as int;
                assert(old_plan =~= self.fetched@ + seq![(from, to)] + stack_order(old(self).pending@));
                assert(new_plan =~= self.fetched@ + seq![(from, mid), ((mid + 1) as u64, to)] + stack_order(
                    old(self).pending@,
                ));
                assert(new_plan.len() == old_plan.len() + 1);
                if self.from <= self.to {
                    assert(forall|i: int| 0 <= i < k ==> new_plan[i] == old_plan[i]);
                    assert(forall|i: int| k + 1 < i < new_plan.len() ==> new_plan[i] == old_plan[i - 1]);
                    assert forall|i: int| 0 <= i < new_plan.len() - 1 implies #[trigger] adjacent(new_plan, i) by {
                        if i < k - 1 {
                            assert(adjacent(old_plan, i));
                        } else if i == k - 1 {
                            assert(adjacent(old_plan, i));
                        } else if i == k {
                        } else if i == k + 1 {
                            assert(adjacent(old_plan, k));
                        } else {
                            assert(adjacent(old_plan, i - 1));
                        }
                    }
                    assert forall|i: int| 0 <= i < new_plan.len() implies (#[trigger] new_plan[i]).0 <= new_plan[i].1 by {
                        if i > k + 1 {
                            assert(old_plan[i - 1].0 <= old_plan[i - 1].1);
                        } else if i < k {
                            assert(old_plan[i].0 <= old_plan[i].1);
                        }
                    }
                    if k == 0 {
                        assert(new_plan[0].0 == old_plan[0].0);
                    }
                    if old(self).pending@.len() == 0 {
                        assert(new_plan.last() == ((mid + 1) as u64, to));
                        assert(old_plan.last() == (from, to));
                    } else {
                        assert(new_plan.last() == old_plan[old_plan.len() - 1]);
                    }
                }
            }
            SplitAction::Fetch { from, to: mid }
        } else if too_large {
            self.phase = SplitPhase::FallingBack { block: from, cause: err };
            if self.from <= self.to {
                assert(self.plan() =~= old(self).plan());
            }
            SplitAction::FetchReceipts { block: from }
        } else {
            self.phase = SplitPhase::Failed;
            SplitAction::Fail(err)
        }
    }

    /// The receipts fallback returned `batch` for the block in flight: the block counts as
    /// fetched, its logs are appended to those gathered, and the leftmost pending range is
    /// handed out next, or the work is finished when none is pending.
    pub fn on_receipts_fetched(&mut self, batch: Vec<Log>) -> (a: SplitAction)
        requires
            old(self).wf(),
            old(self).phase() is FallingBack,
        ensures
            final(self).wf(),
            final(self).first_block() == old(self).first_block(),
            final(self).last_block() == old(self).last_block(),
            final(self).fetched_ranges() == old(self).fetched_ranges().push(
                (old(self).phase()->FallingBack_block, old(self).phase()->FallingBack_block),
            ),
            final(self).fetched_batches() == old(self).fetched_batches().push(batch@),
            final(self).collected() == old(self).collected() + batch@,
            final(self).fetches_left() <= old(self).fetches_left(),
            final(self).receipts_left() < old(self).receipts_left(),
            old(self).first_block() <= old(self).last_block() ==> final(self).plan() == old(self).plan(),
            old(self).pending().len() == 0 ==> a == SplitAction::Finish && final(self).phase() is Finished
                && (old(self).first_block() <= old(self).last_block() ==> final(self).fetched_ranges() == old(self).plan()),
            old(self).pending().len() > 0 ==> {
                let next = old(self).pending()[0];
                &&& a == (SplitAction::Fetch { from: next.0, to: next.1 })
                &&& final(self).phase() == (SplitPhase::Fetching { from: next.0, to: next.1 })
                &&& final(self).pending() == old(self).pending().drop_first()
            },
            a is Finish && final(self).first_block() <= final(self).last_block() ==> tiles(
                final(self).fetched_ranges(),
                final(self).first_block() as int,
                final(self).last_block() as int,
            ),
    {
        let ghost cur = match self.phase {
            SplitPhase::FallingBack { block, .. } => (block, block),
            _ => (0u64, 0u64),
        };
        self.gather(batch);
        proof {
            self.fetched@ = self.fetched@.push(cur);
            if self.from <= self.to {
                assert(old(self).plan() =~= self.fetched@ + stack_order(self.pending@));
            }
        }
        self.phase = SplitPhase::Finished;
        proof {
            if self.pending@.len() == 0 {
                assert(self.fetched@ + stack_order(self.pending@) =~= self.fetched@);
            }
        }
        self.advance()
    }

    /// The receipts fallback failed too: give up with the original rejection.
    pub fn on_receipts_failed(&mut self) -> (a: SplitAction)
        requires
            old(self).wf(),
            old(self).phase() is FallingBack,
        ensures
            final(self).wf(),
            final(self).phase() is Failed,
            final(self).fetched_ranges() == old(self).fetched_ranges(),
            final(self).fetched_batches() == old(self).fetched_batches(),
            final(self).collected() == old(self).collected(),
            final(self).fetches_left() <= old(self).fetches_left(),
            final(self).receipts_left() < old(self).receipts_left(),
            a == SplitAction::Fail(old(self).phase()->FallingBack_cause),
    {
        let mut phase = SplitPhase::Failed;
        std::mem::swap(&mut phase, &mut self.phase);
        match phase {
            SplitPhase::FallingBack { cause, .. } => SplitAction::Fail(cause),
            _ => SplitAction::Finish,
        }
    }
}

} // verus!
