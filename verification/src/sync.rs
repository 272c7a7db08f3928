//! The synchronization protocol: the command the worker takes, the events
//! a full sync emits, the pure sync pass over a chain snapshot, and the
//! consumer-side application of each event to the wallet state.

use vstd::prelude::*;

use crate::records::{CachedTx, CachedTxRec, HistoryRec, HistoryTxid, Txid, UtxoRec, UtxoTxid};
use crate::scanner::{window_hist, window_history_records, window_utxo_records, window_utxos,
    AddrData, AddrDataV, SCAN_WINDOW};
use crate::store::{find_first, find_tx_pos, merge_hist, merge_txs, merge_utxos, tx_keys,
    BlockInfo, FeeTiers, WalletState, WalletStateV};

verus! {

/// Transport security of the chain-indexing endpoint.
#[derive(Clone, Copy, PartialEq, Eq, Structural, Debug)]
pub enum ElectrumSec {
    Plain,
    Tls,
    Tor,
}

/// Mathematical view of an [`ElectrumServer`].
pub struct ElectrumServerV {
    pub host: Seq<char>,
    pub port: u16,
    pub sec: ElectrumSec,
}

/// A chain-indexing endpoint: host, port and transport variant.
#[derive(Debug, PartialEq, Eq)]
pub struct ElectrumServer {
    pub host: String,
    pub port: u16,
    pub sec: ElectrumSec,
}

impl View for ElectrumServer {
    type V = ElectrumServerV;

    open spec fn view(&self) -> ElectrumServerV {
        ElectrumServerV { host: self.host@, port: self.port, sec: self.sec }
    }
}

impl Clone for ElectrumServer {
    fn clone(&self) -> (r: Self)
        ensures
            r@ == self@,
    {
        ElectrumServer { host: self.host.clone(), port: self.port, sec: self.sec }
    }
}

/// A command the consumer or the ticker hands to the worker.
#[derive(Debug)]
pub enum Cmd {
    /// Run one full sync pass.
    Sync,
    /// Drain the next queued chain-tip notification, if any.
    Pull,
    /// Swap the endpoint and run a full pass against it.
    Update(ElectrumServer),
}

/// Mathematical view of a [`Cmd`].
pub enum CmdV {
    Sync,
    Pull,
    Update(ElectrumServerV),
}

impl View for Cmd {
    type V = CmdV;

    open spec fn view(&self) -> CmdV {
        match self {
            Cmd::Sync => CmdV::Sync,
            Cmd::Pull => CmdV::Pull,
            Cmd::Update(e) => CmdV::Update(e@),
        }
    }
}

impl DeepView for Cmd {
    type V = CmdV;

    open spec fn deep_view(&self) -> CmdV {
        self.view()
    }
}

/// What the worker does in response to one command.
#[derive(Clone, Copy, PartialEq, Eq, Structural, Debug)]
pub enum WorkerAction {
    /// Run the full-sync protocol against the current endpoint.
    RunFullSync,
    /// Drain one queued tip notification without blocking.
    PullTip,
    /// The command channel is gone: the worker must stop with a
    /// diagnosable fatal signal, never silently.
    Fatal,
}

/// The worker's own state between commands: the endpoint it targets.
#[derive(Debug)]
pub struct WorkerState {
    pub server: ElectrumServer,
}

impl View for WorkerState {
    type V = ElectrumServerV;

    open spec fn view(&self) -> ElectrumServerV {
        self.server@
    }
}

impl WorkerState {
    /// Take one command off the queue (`None` stands for a closed
    /// channel) and decide what to do: commands are served strictly in
    /// arrival order, an endpoint update taking effect before any command
    /// queued behind it.
    pub fn step(&mut self, cmd: Option<Cmd>) -> (a: WorkerAction)
        ensures
            match cmd {
                Some(Cmd::Sync) => a == WorkerAction::RunFullSync && final(self)@ == old(self)@,
                Some(Cmd::Pull) => a == WorkerAction::PullTip && final(self)@ == old(self)@,
                Some(Cmd::Update(e)) => a == WorkerAction::RunFullSync && final(self)@ == e@,
                None => a == WorkerAction::Fatal && final(self)@ == old(self)@,
            },
    {
        match cmd {
            Some(Cmd::Sync) => WorkerAction::RunFullSync,
            Some(Cmd::Pull) => WorkerAction::PullTip,
            Some(Cmd::Update(e)) => {
                self.server = e;
                WorkerAction::RunFullSync
            },
            None => WorkerAction::Fatal,
        }
    }
}

/// The passes a command sequence causes, each with the endpoint it runs
/// against: the queue is FIFO, so an endpoint update affects exactly the
/// commands behind it.
pub open spec fn worker_passes(server: ElectrumServerV, cmds: Seq<CmdV>) -> Seq<
    (WorkerAction, ElectrumServerV),
>
    decreases cmds.len(),
{
    if cmds.len() == 0 {
        Seq::empty()
    } else {
        match cmds[0] {
            CmdV::Sync => seq![(WorkerAction::RunFullSync, server)] + worker_passes(
                server,
                cmds.drop_first(),
            ),
            CmdV::Pull => seq![(WorkerAction::PullTip, server)] + worker_passes(
                server,
                cmds.drop_first(),
            ),
            CmdV::Update(e) => seq![(WorkerAction::RunFullSync, e)] + worker_passes(
                e,
                cmds.drop_first(),
            ),
        }
    }
}

/// Mathematical view of a [`Msg`].
pub enum MsgV {
    Connecting,
    Connected,
    Complete,
    LastBlock(BlockInfo),
    LastBlockUpdate(BlockInfo),
    FeeEstimate(u64, u64, u64),
    HistoryBatch(Seq<HistoryRec>, u32),
    UtxoBatch(Seq<UtxoRec>, u32),
    TxBatch(Seq<CachedTxRec>, u64, u64),
    ChannelDisconnected,
    Error(Seq<char>),
}

/// An event of the ordered stream a sync pass emits to the consumer.
#[derive(Debug, PartialEq, Eq)]
pub enum Msg {
    /// A connection attempt starts.
    Connecting,
    /// The endpoint answered.
    Connected,
    /// The pass finished; everything discovered has been emitted.
    Complete,
    /// The chain tip at subscription time.
    LastBlock(BlockInfo),
    /// A later tip notification drained by a pull.
    LastBlockUpdate(BlockInfo),
    /// Fee tiers for 1, 2 and 3 blocks, in satoshis per kilo-vbyte.
    FeeEstimate(u64, u64, u64),
    /// One scan window's history records, with the running batch counter.
    HistoryBatch(Vec<HistoryTxid>, u32),
    /// One scan window's UTXO records, with the running batch counter.
    UtxoBatch(Vec<UtxoTxid>, u32),
    /// One chunk of fetched transactions, with batches done and total.
    TxBatch(Vec<CachedTx>, u64, u64),
    /// The far end of the command channel is gone: fatal for the worker.
    ChannelDisconnected,
    /// An adapter call failed; the rest of the pass is abandoned.
    Error(String),
}

impl View for Msg {
    type V = MsgV;

    open spec fn view(&self) -> MsgV {
        match self {
            Msg::Connecting => MsgV::Connecting,
            Msg::Connected => MsgV::Connected,
            Msg::Complete => MsgV::Complete,
            Msg::LastBlock(b) => MsgV::LastBlock(*b),
            Msg::LastBlockUpdate(b) => MsgV::LastBlockUpdate(*b),
            Msg::FeeEstimate(a, b, c) => MsgV::FeeEstimate(*a, *b, *c),
            Msg::HistoryBatch(v, n) => MsgV::HistoryBatch(v.deep_view(), *n),
            Msg::UtxoBatch(v, n) => MsgV::UtxoBatch(v.deep_view(), *n),
            Msg::TxBatch(v, d, t) => MsgV::TxBatch(v.deep_view(), *d, *t),
            Msg::ChannelDisconnected => MsgV::ChannelDisconnected,
            Msg::Error(s) => MsgV::Error(s@),
        }
    }
}

impl DeepView for Msg {
    type V = MsgV;

    open spec fn deep_view(&self) -> MsgV {
        self.view()
    }
}

/// The progress tag the consumer derives from the event stream, advanced
/// on each applied event.
#[derive(Debug, PartialEq, Eq)]
pub enum ElectrumState {
    Connecting,
    QueryingBlockchainState,
    RetrievingFees,
    /// Retrieving history; the payload is the running batch counter.
    RetrievingHistory(u32),
    /// Retrieving transactions; batches done out of total.
    RetrievingTransactions(u64, u64),
    /// The pass completed against an endpoint of this transport variant.
    Complete(ElectrumSec),
    /// The attempt failed with this message; the next sync restarts it.
    Error(String),
}

/// Mathematical view of a [`ChainSnapshot`].
pub struct ChainSnapshotV {
    pub tip: BlockInfo,
    pub fees: FeeTiers,
    pub change: Seq<AddrDataV>,
    pub receiving: Seq<AddrDataV>,
    pub txs: Seq<CachedTxRec>,
}

/// Everything one sync pass learns from the chain-indexing service,
/// keyed so the pass is a pure function of it: the tip, the fee tiers,
/// the two derivation chains' per-address answers, and the transaction
/// bodies by identifier.
#[derive(Debug)]
pub struct ChainSnapshot {
    pub tip: BlockInfo,
    pub fees: FeeTiers,
    pub change: Vec<AddrData>,
    pub receiving: Vec<AddrData>,
    pub txs: Vec<CachedTx>,
}

impl View for ChainSnapshot {
    type V = ChainSnapshotV;

    open spec fn view(&self) -> ChainSnapshotV {
        ChainSnapshotV {
            tip: self.tip,
            fees: self.fees,
            change: self.change.deep_view(),
            receiving: self.receiving.deep_view(),
            txs: self.txs.deep_view(),
        }
    }
}

/// Add a transaction id to the running union, keeping first-seen order
/// and dropping duplicates.
pub open spec fn add_txid(s: Seq<Txid>, t: Txid) -> Seq<Txid> {
    if s.contains(t) {
        s
    } else {
        s.push(t)
    }
}

/// Add every id of `ts`, in order.
pub open spec fn add_txids(s: Seq<Txid>, ts: Seq<Txid>) -> Seq<Txid>
    decreases ts.len(),
{
    if ts.len() == 0 {
        s
    } else {
        add_txids(add_txid(s, ts[0]), ts.drop_first())
    }
}

/// The transaction ids a history batch references.
pub open spec fn hist_txids(h: Seq<HistoryRec>) -> Seq<Txid> {
    h.map_values(|r: HistoryRec| r.txid)
}

/// The transaction ids a UTXO batch references.
pub open spec fn utxo_txids(u: Seq<UtxoRec>) -> Seq<Txid> {
    u.map_values(|r: UtxoRec| r.txid)
}

/// Append a transaction id unless it is already present.
fn push_txid(acc: &mut Vec<Txid>, t: Txid)
    ensures
        final(acc)@ == add_txid(old(acc)@, t),
{
    let ghost s = acc@;
    let mut i: usize = 0;
    let mut present = false;
    while i < acc.len() && !present
        invariant
            i <= s.len(),
            s == acc@,
            present ==> s.contains(t),
            !present ==> forall|j: int| 0 <= j < i ==> s[j] != t,
        decreases s.len() - i + (if present {
            0int
        } else {
            1int
        }),
    {
        if acc[i] == t {
            present = true;
            proof {
                assert(s[i as int] == t);
            }
        } else {
            i += 1;
        }
    }
    if !present {
        proof {
            assert(!s.contains(t));
        }
        acc.push(t);
    }
}

/// Add the ids a history batch references to the running union.
fn push_hist_txids(acc: &mut Vec<Txid>, batch: &Vec<HistoryTxid>)
    ensures
        final(acc)@ == add_txids(old(acc)@, hist_txids(batch.deep_view())),
{
    let ghost target = add_txids(old(acc)@, hist_txids(batch.deep_view()));
    let ghost ts = hist_txids(batch.deep_view());
    let mut k: usize = 0;
    proof {
        assert(ts.skip(0) =~= ts);
    }
    while k < batch.len()
        invariant
            k <= ts.len(),
            ts == hist_txids(batch.deep_view()),
            ts.len() == batch@.len(),
            add_txids(acc@, ts.skip(k as int)) == target,
        decreases ts.len() - k,
    {
        proof {
            assert(ts.skip(k as int)[0] == ts[k as int]);
            assert(ts.skip(k as int).drop_first() =~= ts.skip(k as int + 1));
            assert(ts[k as int] == batch@[k as int]@.txid);
        }
        push_txid(acc, batch[k].txid);
        k += 1;
    }
    proof {
        assert(ts.skip(ts.len() as int) =~= Seq::<Txid>::empty());
    }
}

/// Add the ids a UTXO batch references to the running union.
fn push_utxo_txids(acc: &mut Vec<Txid>, batch: &Vec<UtxoTxid>)
    ensures
        final(acc)@ == add_txids(old(acc)@, utxo_txids(batch.deep_view())),
{
    let ghost target = add_txids(old(acc)@, utxo_txids(batch.deep_view()));
    let ghost ts = utxo_txids(batch.deep_view());
    let mut k: usize = 0;
    proof {
        assert(ts.skip(0) =~= ts);
    }
    while k < batch.len()
        invariant
            k <= ts.len(),
            ts == utxo_txids(batch.deep_view()),
            ts.len() == batch@.len(),
            add_txids(acc@, ts.skip(k as int)) == target,
        decreases ts.len() - k,
    {
        proof {
            assert(ts.skip(k as int)[0] == ts[k as int]);
            assert(ts.skip(k as int).drop_first() =~= ts.skip(k as int + 1));
            assert(ts[k as int] == batch@[k as int]@.txid);
        }
        push_txid(acc, batch[k].txid);
        k += 1;
    }
    proof {
        assert(ts.skip(ts.len() as int) =~= Seq::<Txid>::empty());
    }
}

/// Past the last known address every window is empty.
pub proof fn lemma_window_hist_beyond(chain: Seq<AddrDataV>, change: bool, offset: int, count: nat)
    requires
        offset >= chain.len(),
    ensures
        window_hist(chain, change, offset, count).len() == 0,
    decreases count,
{
    if count > 0 {
        lemma_window_hist_beyond(chain, change, offset + 1, (count - 1) as nat);
    }
}

/// Running maximum of the derivation indices a history batch touches.
pub open spec fn max_index_hist(s: Seq<HistoryRec>, acc: u32) -> u32
    decreases s.len(),
{
    if s.len() == 0 {
        acc
    } else {
        max_index_hist(
            s.drop_first(),
            if s[0].index > acc {
                s[0].index
            } else {
                acc
            },
        )
    }
}

/// Compute the running maximum of a window's derivation indices.
fn window_max_index(batch: &Vec<HistoryTxid>, acc0: u32) -> (r: u32)
    ensures
        r == max_index_hist(batch.deep_view(), acc0),
{
    let ghost s = batch.deep_view();
    let mut acc = acc0;
    let mut k: usize = 0;
    proof {
        assert(s.skip(0) =~= s);
    }
    while k < batch.len()
        invariant
            k <= s.len(),
            s == batch.deep_view(),
            max_index_hist(s.skip(k as int), acc) == max_index_hist(s, acc0),
        decreases s.len() - k,
    {
        proof {
            assert(s.skip(k as int)[0] == s[k as int]);
            assert(s.skip(k as int).drop_first() =~= s.skip(k as int + 1));
            assert(s[k as int] == batch@[k as int]@);
        }
        if batch[k].index > acc {
            acc = batch[k].index;
        }
        k += 1;
    }
    proof {
        assert(s.skip(s.len() as int) =~= Seq::<HistoryRec>::empty());
    }
    acc
}

/// What scanning one derivation chain yields, starting from a running
/// batch counter, index cursor and transaction-id union.
#[verifier::ext_equal]
pub struct ScanResultV {
    /// The emitted events: a history batch per window, a UTXO batch per
    /// non-empty window, ending with the empty window's history batch.
    pub events: Seq<MsgV>,
    /// The chain's next free index: the highest index observed in any
    /// non-empty window, or the starting cursor if none was.
    pub upto: u32,
    /// The transaction-id union extended by everything the scan saw.
    pub txids: Seq<Txid>,
    /// The batch counter after the scan.
    pub counter: u32,
}

/// Scan a derivation chain window by window: each window's history is
/// queried; an empty window emits its (empty) history batch and halts
/// the chain's scan; a non-empty window extends the index cursor and the
/// transaction-id union, and emits its history and UTXO batches.
pub open spec fn scan_chain_spec(
    chain: Seq<AddrDataV>,
    change: bool,
    offset: int,
    counter: u32,
    upto: u32,
    txids: Seq<Txid>,
) -> ScanResultV
    decreases chain.len() + SCAN_WINDOW - offset,
{
    let wh = window_hist(chain, change, offset, SCAN_WINDOW as nat);
    if offset >= chain.len() || wh.len() == 0 {
        ScanResultV {
            events: seq![MsgV::HistoryBatch(wh, counter)],
            upto,
            txids,
            counter: (counter + 1) as u32,
        }
    } else {
        let wu = window_utxos(chain, change, offset, SCAN_WINDOW as nat);
        let upto2 = max_index_hist(wh, upto);
        let t2 = add_txids(add_txids(txids, hist_txids(wh)), utxo_txids(wu));
        let rest = scan_chain_spec(
            chain,
            change,
            offset + SCAN_WINDOW,
            (counter + 2) as u32,
            upto2,
            t2,
        );
        ScanResultV {
            events: seq![
                MsgV::HistoryBatch(wh, counter),
                MsgV::UtxoBatch(wu, (counter + 1) as u32),
            ] + rest.events,
            upto: rest.upto,
            txids: rest.txids,
            counter: rest.counter,
        }
    }
}

/// Scan one derivation chain against the given per-address answers,
/// appending the emitted events to `events` and the observed transaction
/// ids to `txids`. Returns the chain's next free index and the batch
/// counter after the scan.
pub fn scan_chain(
    chain: &Vec<AddrData>,
    change: bool,
    counter0: u32,
    events: &mut Vec<Msg>,
    txids: &mut Vec<Txid>,
) -> (r: (u32, u32))
    requires
        chain.deep_view().len() <= 0x4000_0000,
        counter0 <= 0x8000_0000u32,
    ensures
        ({
            let sr = scan_chain_spec(chain.deep_view(), change, 0, counter0, 0, old(txids)@);
            &&& final(events).deep_view() == old(events).deep_view() + sr.events
            &&& final(txids)@ == sr.txids
            &&& r.0 == sr.upto
            &&& r.1 == sr.counter
            &&& r.1 as int <= counter0 as int + chain.deep_view().len() + 21
        }),
{
    let ghost cv = chain.deep_view();
    let ghost full = scan_chain_spec(cv, change, 0, counter0, 0, old(txids)@);
    let mut evs: Vec<Msg> = Vec::new();
    let mut offset: u32 = 0;
    let mut counter: u32 = counter0;
    let mut upto: u32 = 0;
    let mut done = false;
    proof {
        assert(evs.deep_view() =~= Seq::<MsgV>::empty());
        assert(Seq::<MsgV>::empty() + full.events =~= full.events);
    }
    while !done
        invariant
            cv == chain.deep_view(),
            cv.len() <= 0x4000_0000,
            counter0 <= 0x8000_0000u32,
            offset as int <= cv.len() + 20,
            counter as int <= counter0 as int + offset as int + 1,
            !done ==> counter as int <= counter0 as int + offset as int,
            !done ==> ({
                let cur = scan_chain_spec(cv, change, offset as int, counter, upto, txids@);
                &&& full.events == evs.deep_view() + cur.events
                &&& full.upto == cur.upto
                &&& full.txids == cur.txids
                &&& full.counter == cur.counter
            }),
            done ==> ({
                &&& evs.deep_view() == full.events
                &&& txids@ == full.txids
                &&& upto == full.upto
                &&& counter == full.counter
            }),
        decreases cv.len() + 20 - offset + (if done {
            0int
        } else {
            1int
        }),
    {
        let ghost cur = scan_chain_spec(cv, change, offset as int, counter, upto, txids@);
        let ghost pre_evs = evs.deep_view();
        let ghost pre_upto = upto;
        let ghost pre_txids = txids@;
        let wh_vec = window_history_records(chain, change, offset);
        let ghost wh = window_hist(cv, change, offset as int, SCAN_WINDOW as nat);
        if wh_vec.len() == 0 {
            proof {
                assert(wh.len() == 0);
                assert(cur.events == seq![MsgV::HistoryBatch(wh, counter)]);
            }
            evs.push(Msg::HistoryBatch(wh_vec, counter));
            proof {
                assert(evs.deep_view() =~= pre_evs.push(MsgV::HistoryBatch(wh, counter)));
                assert(pre_evs + cur.events =~= pre_evs.push(MsgV::HistoryBatch(wh, counter)));
            }
            counter = counter + 1;
            done = true;
        } else {
            proof {
                if (offset as int) >= cv.len() {
                    lemma_window_hist_beyond(cv, change, offset as int, SCAN_WINDOW as nat);
                }
                assert((offset as int) < cv.len());
            }
            let ghost wu = window_utxos(cv, change, offset as int, SCAN_WINDOW as nat);
            push_hist_txids(txids, &wh_vec);
            upto = window_max_index(&wh_vec, upto);
            evs.push(Msg::HistoryBatch(wh_vec, counter));
            let wu_vec = window_utxo_records(chain, change, offset);
            push_utxo_txids(txids, &wu_vec);
            evs.push(Msg::UtxoBatch(wu_vec, counter + 1));
            proof {
                let hb = MsgV::HistoryBatch(wh, counter);
                let ub = MsgV::UtxoBatch(wu, (counter + 1) as u32);
                let rest = scan_chain_spec(
                    cv,
                    change,
                    offset as int + SCAN_WINDOW,
                    (counter + 2) as u32,
                    max_index_hist(wh, pre_upto),
                    add_txids(add_txids(pre_txids, hist_txids(wh)), utxo_txids(wu)),
                );
                assert(cur.events == seq![hb, ub] + rest.events);
                assert(evs.deep_view() =~= pre_evs + seq![hb, ub]);
                assert(pre_evs + (seq![hb, ub] + rest.events) =~= (pre_evs + seq![hb, ub])
                    + rest.events);
            }
            counter = counter + 2;
            offset = offset + SCAN_WINDOW;
        }
    }
    let ghost pre_events = events.deep_view();
    let mut evs2 = evs;
    events.append(&mut evs2);
    proof {
        assert(events.deep_view() =~= pre_events + full.events);
    }
    (upto, counter)
}

/// The transaction a fetch returns for an id: the snapshot's body, or an
/// empty body when the snapshot has none.
pub open spec fn lookup_tx(txs: Seq<CachedTxRec>, t: Txid) -> CachedTxRec {
    let i = find_first(tx_keys(txs), t);
    if i >= 0 {
        txs[i]
    } else {
        CachedTxRec { txid: t, raw: Seq::empty() }
    }
}

/// The transactions fetched for the ids `from..to` of the union.
pub open spec fn chunk_recs(txids: Seq<Txid>, txs: Seq<CachedTxRec>, from: int, to: int) -> Seq<
    CachedTxRec,
> {
    txids.subrange(from, to).map_values(|t: Txid| lookup_tx(txs, t))
}

/// How many fetch batches a transaction-id union needs, at the fixed
/// batch width.
pub open spec fn tx_batch_total(n: int) -> int {
    n / 20 + if n % 20 == 0 {
        0int
    } else {
        1int
    }
}

/// The fetch stage's events: the ids are fetched in batches of the fixed
/// width, each batch reporting how many batches are done out of the
/// total, so the reported fraction grows monotonically to one.
pub open spec fn tx_events(
    txids: Seq<Txid>,
    txs: Seq<CachedTxRec>,
    k: int,
    done: u64,
    total: u64,
) -> Seq<MsgV>
    decreases txids.len() - k,
{
    if k < 0 || k >= txids.len() {
        Seq::empty()
    } else {
        let to = if k + 20 <= txids.len() {
            k + 20
        } else {
            txids.len() as int
        };
        seq![MsgV::TxBatch(chunk_recs(txids, txs, k, to), (done + 1) as u64, total)] + tx_events(
            txids,
            txs,
            to,
            (done + 1) as u64,
            total,
        )
    }
}

/// Fetch the union's transactions in batches of the fixed width,
/// appending one event per batch.
fn fetch_tx_batches(txids: &Vec<Txid>, txs: &Vec<CachedTx>, events: &mut Vec<Msg>)
    ensures
        final(events).deep_view() == old(events).deep_view() + tx_events(
            txids@,
            txs.deep_view(),
            0,
            0,
            tx_batch_total(txids@.len() as int) as u64,
        ),
{
    let ghost txsv = txs.deep_view();
    let len = txids.len();
    let total_usize = len / 20 + (if len % 20 == 0 {
        0
    } else {
        1
    });
    let total: u64 = total_usize as u64;
    let ghost full = tx_events(txids@, txsv, 0, 0, total);
    proof {
        vstd::arithmetic::div_mod::lemma_fundamental_div_mod(len as int, 20);
    }
    let mut evs: Vec<Msg> = Vec::new();
    let mut k: usize = 0;
    let mut done: u64 = 0;
    proof {
        assert(evs.deep_view() =~= Seq::<MsgV>::empty());
        assert(Seq::<MsgV>::empty() + full.skip(0) =~= full);
    }
    while k < len
        invariant
            k <= len,
            len == txids@.len(),
            txsv == txs.deep_view(),
            total == tx_batch_total(len as int) as u64,
            20 * (total as int) >= len as int,
            k as int == 20 * (done as int) || k == len,
            full == tx_events(txids@, txsv, 0, 0, total),
            full == evs.deep_view() + tx_events(txids@, txsv, k as int, done, total),
        decreases len - k,
    {
        let ghost pre_evs = evs.deep_view();
        let to = if len - k >= 20 {
            k + 20
        } else {
            len
        };
        let mut chunk: Vec<CachedTx> = Vec::new();
        let mut j: usize = k;
        proof {
            assert(chunk.deep_view() =~= chunk_recs(txids@, txsv, k as int, k as int));
        }
        while j < to
            invariant
                k <= j <= to <= len,
                len == txids@.len(),
                txsv == txs.deep_view(),
                chunk.deep_view() == chunk_recs(txids@, txsv, k as int, j as int),
            decreases to - j,
        {
            let t = txids[j];
            let c = match find_tx_pos(txs, t) {
                Some(i) => txs[i].clone(),
                None => CachedTx { txid: t, raw: Vec::new() },
            };
            proof {
                if find_first(tx_keys(txsv), t) >= 0 {
                } else {
                    assert(c@.raw =~= Seq::<u8>::empty());
                }
                assert(c@ == lookup_tx(txsv, t));
                assert(txids@.subrange(k as int, j as int + 1) =~= txids@.subrange(
                    k as int,
                    j as int,
                ).push(txids@[j as int]));
                assert(chunk_recs(txids@, txsv, k as int, j as int + 1) =~= chunk_recs(
                    txids@,
                    txsv,
                    k as int,
                    j as int,
                ).push(lookup_tx(txsv, txids@[j as int])));
            }
            let ghost pre_chunk = chunk.deep_view();
            chunk.push(c);
            proof {
                assert(chunk.deep_view() =~= pre_chunk.push(lookup_tx(txsv, txids@[j as int])));
            }
            j += 1;
        }
        proof {
            assert(done as int + 1 <= total as int);
        }
        done = done + 1;
        let ghost cur = tx_events(txids@, txsv, k as int, (done - 1) as u64, total);
        evs.push(Msg::TxBatch(chunk, done, total));
        proof {
            let hd = MsgV::TxBatch(
                chunk_recs(txids@, txsv, k as int, to as int),
                done,
                total,
            );
            assert(cur == seq![hd] + tx_events(txids@, txsv, to as int, done, total));
            assert(evs.deep_view() =~= pre_evs + seq![hd]);
            assert(pre_evs + (seq![hd] + tx_events(txids@, txsv, to as int, done, total)) =~= (
            pre_evs + seq![hd]) + tx_events(txids@, txsv, to as int, done, total));
        }
        k = to;
    }
    proof {
        assert(tx_events(txids@, txsv, len as int, done, total) =~= Seq::<MsgV>::empty());
        assert(evs.deep_view() + Seq::<MsgV>::empty() =~= evs.deep_view());
    }
    let ghost pre_events = events.deep_view();
    let mut evs2 = evs;
    events.append(&mut evs2);
    proof {
        assert(events.deep_view() =~= pre_events + full);
    }
}

/// The whole full-sync protocol as a function of what the service would
/// answer: connection events, the tip, the fee tiers, both chains'
/// scans (change first), the transaction fetch batches, and completion.
pub open spec fn sync_events(snap: ChainSnapshotV) -> Seq<MsgV> {
    let sc = scan_chain_spec(snap.change, true, 0, 0, 0, Seq::empty());
    let sr = scan_chain_spec(snap.receiving, false, 0, sc.counter, 0, sc.txids);
    let total = tx_batch_total(sr.txids.len() as int);
    seq![
        MsgV::Connecting,
        MsgV::Connected,
        MsgV::LastBlock(snap.tip),
        MsgV::FeeEstimate(snap.fees.fast, snap.fees.medium, snap.fees.slow),
    ] + sc.events + sr.events + tx_events(sr.txids, snap.txs, 0, 0, total as u64) + seq![
        MsgV::Complete,
    ]
}

/// Run one full sync pass against a snapshot of the service's answers,
/// producing the ordered event stream: exactly [`sync_events`] of the
/// snapshot.
pub fn electrum_sync(snapshot: &ChainSnapshot) -> (r: Vec<Msg>)
    requires
        snapshot@.change.len() <= 0x4000_0000,
        snapshot@.receiving.len() <= 0x4000_0000,
    ensures
        r.deep_view() == sync_events(snapshot@),
{
    let ghost snapv = snapshot@;
    let mut events: Vec<Msg> = Vec::new();
    events.push(Msg::Connecting);
    events.push(Msg::Connected);
    events.push(Msg::LastBlock(snapshot.tip));
    events.push(Msg::FeeEstimate(snapshot.fees.fast, snapshot.fees.medium, snapshot.fees.slow));
    let ghost prefix = seq![
        MsgV::Connecting,
        MsgV::Connected,
        MsgV::LastBlock(snapv.tip),
        MsgV::FeeEstimate(snapv.fees.fast, snapv.fees.medium, snapv.fees.slow),
    ];
    proof {
        assert(events.deep_view() =~= prefix);
    }
    let mut txids: Vec<Txid> = Vec::new();
    proof {
        assert(txids@ =~= Seq::<Txid>::empty());
    }
    let ghost sc = scan_chain_spec(snapv.change, true, 0, 0, 0, Seq::empty());
    let ghost sr = scan_chain_spec(snapv.receiving, false, 0, sc.counter, 0, sc.txids);
    let c1 = scan_chain(&snapshot.change, true, 0, &mut events, &mut txids).1;
    proof {
        assert(events.deep_view() == prefix + sc.events);
        assert(c1 == sc.counter);
        assert(txids@ == sc.txids);
    }
    let _scan_recv = scan_chain(&snapshot.receiving, false, c1, &mut events, &mut txids);
    proof {
        assert(events.deep_view() == (prefix + sc.events) + sr.events);
        assert(txids@ == sr.txids);
    }
    fetch_tx_batches(&txids, &snapshot.txs, &mut events);
    let ghost txev = tx_events(
        sr.txids,
        snapv.txs,
        0,
        0,
        tx_batch_total(sr.txids.len() as int) as u64,
    );
    proof {
        assert(events.deep_view() == ((prefix + sc.events) + sr.events) + txev);
    }
    let ghost pre_complete = events.deep_view();
    events.push(Msg::Complete);
    proof {
        assert(events.deep_view() =~= pre_complete.push(MsgV::Complete));
        assert(events.deep_view() =~= ((prefix + sc.events) + sr.events) + txev + seq![
            MsgV::Complete,
        ]);
        assert(events.deep_view() =~= sync_events(snapv));
    }
    events
}

/// What applying one event yields: the progress tag to show, if it
/// changed, and whether the event is fatal to the session.
pub struct HandleOutcome {
    pub state: Option<ElectrumState>,
    pub fatal: bool,
}

/// Apply one event of the stream to the wallet state and derive the
/// progress tag the consumer shows. Only the consumer's thread calls
/// this: the worker emits batches and never touches the wallet state.
pub fn handle_electrum(wallet: &mut WalletState, msg: Msg, server: &ElectrumServer) -> (r:
    HandleOutcome)
    ensures
        match msg {
            Msg::Connecting => final(wallet)@ == old(wallet)@ && !r.fatal && r.state
                == Some(ElectrumState::Connecting),
            Msg::Connected => final(wallet)@ == old(wallet)@ && !r.fatal && r.state
                == Some(ElectrumState::QueryingBlockchainState),
            Msg::LastBlock(b) => final(wallet)@ == (WalletStateV {
                last_block: Some(b),
                ..old(wallet)@
            }) && !r.fatal && r.state == Some(ElectrumState::RetrievingFees),
            Msg::LastBlockUpdate(b) => final(wallet)@ == (WalletStateV {
                last_block: Some(b),
                ..old(wallet)@
            }) && !r.fatal && r.state is None,
            Msg::FeeEstimate(f1, f2, f3) => final(wallet)@ == (WalletStateV {
                fees: FeeTiers { fast: f1, medium: f2, slow: f3 },
                ..old(wallet)@
            }) && !r.fatal && r.state == Some(ElectrumState::RetrievingHistory(0)),
            Msg::HistoryBatch(b, n) => final(wallet)@ == (WalletStateV {
                history: merge_hist(old(wallet)@.history, b.deep_view()),
                ..old(wallet)@
            }) && !r.fatal && r.state == Some(ElectrumState::RetrievingHistory(n)),
            Msg::UtxoBatch(b, n) => final(wallet)@ == (WalletStateV {
                utxos: merge_utxos(old(wallet)@.utxos, b.deep_view()),
                ..old(wallet)@
            }) && !r.fatal && r.state == Some(ElectrumState::RetrievingHistory(n)),
            Msg::TxBatch(b, d, t) => final(wallet)@ == (WalletStateV {
                txs: merge_txs(old(wallet)@.txs, b.deep_view()),
                ..old(wallet)@
            }) && !r.fatal && r.state == Some(ElectrumState::RetrievingTransactions(d, t)),
            Msg::Complete => final(wallet)@ == old(wallet)@ && !r.fatal && r.state
                == Some(ElectrumState::Complete(server.sec)),
            Msg::Error(s) => final(wallet)@ == old(wallet)@ && !r.fatal && (r.state
                matches Some(ElectrumState::Error(t)) && t@ == s@),
            Msg::ChannelDisconnected => final(wallet)@ == old(wallet)@ && r.fatal && r.state
                is None,
        },
{
    match msg {
        Msg::Connecting => HandleOutcome {
            state: Some(ElectrumState::Connecting),
            fatal: false,
        },
        Msg::Connected => HandleOutcome {
            state: Some(ElectrumState::QueryingBlockchainState),
            fatal: false,
        },
        Msg::LastBlock(b) => {
            wallet.update_last_block(b);
            HandleOutcome { state: Some(ElectrumState::RetrievingFees), fatal: false }
        },
        Msg::LastBlockUpdate(b) => {
            wallet.update_last_block(b);
            HandleOutcome { state: None, fatal: false }
        },
        Msg::FeeEstimate(f1, f2, f3) => {
            wallet.update_fees(f1, f2, f3);
            HandleOutcome { state: Some(ElectrumState::RetrievingHistory(0)), fatal: false }
        },
        Msg::HistoryBatch(b, n) => {
            wallet.update_history(b);
            HandleOutcome { state: Some(ElectrumState::RetrievingHistory(n)), fatal: false }
        },
        Msg::UtxoBatch(b, n) => {
            wallet.update_utxos(b);
            HandleOutcome { state: Some(ElectrumState::RetrievingHistory(n)), fatal: false }
        },
        Msg::TxBatch(b, d, t) => {
            wallet.update_transactions(b);
            HandleOutcome {
                state: Some(ElectrumState::RetrievingTransactions(d, t)),
                fatal: false,
            }
        },
        Msg::Complete => HandleOutcome {
            state: Some(ElectrumState::Complete(server.sec)),
            fatal: false,
        },
        Msg::Error(s) => HandleOutcome { state: Some(ElectrumState::Error(s)), fatal: false },
        Msg::ChannelDisconnected => HandleOutcome { state: None, fatal: true },
    }
}

/// A derivation chain with no history at any address.
pub open spec fn chain_all_empty(chain: Seq<AddrDataV>) -> bool {
    forall|i: int| 0 <= i < chain.len() ==> chain[i].history.len() == 0
}

/// On a chain without history every window is empty.
pub proof fn lemma_window_hist_all_empty(
    chain: Seq<AddrDataV>,
    change: bool,
    offset: int,
    count: nat,
)
    requires
        chain_all_empty(chain),
    ensures
        window_hist(chain, change, offset, count).len() == 0,
    decreases count,
{
    if count > 0 {
        lemma_window_hist_all_empty(chain, change, offset + 1, (count - 1) as nat);
    }
}

/// Scanning a chain without history emits exactly one empty history
/// batch, carrying the running counter, and leaves the cursor and the
/// transaction-id union untouched.
pub proof fn lemma_scan_zero_history(
    chain: Seq<AddrDataV>,
    change: bool,
    counter: u32,
    txids: Seq<Txid>,
)
    requires
        chain_all_empty(chain),
    ensures
        scan_chain_spec(chain, change, 0, counter, 0, txids) =~= (ScanResultV {
            events: seq![MsgV::HistoryBatch(Seq::empty(), counter)],
            upto: 0,
            txids,
            counter: (counter + 1) as u32,
        }),
{
    lemma_window_hist_all_empty(chain, change, 0, SCAN_WINDOW as nat);
    let wh = window_hist(chain, change, 0, SCAN_WINDOW as nat);
    assert(wh =~= Seq::<HistoryRec>::empty());
    assert(seq![MsgV::HistoryBatch(wh, counter)] =~= seq![
        MsgV::HistoryBatch(Seq::empty(), counter),
    ]);
}

/// A wallet with no history on either chain completes a sync by emitting
/// exactly one empty-window history batch per chain, with batch counters
/// 0 and 1 (change chain first), no transaction batches, and then the
/// completion event.
pub proof fn lemma_sync_zero_history(snap: ChainSnapshotV)
    requires
        chain_all_empty(snap.change),
        chain_all_empty(snap.receiving),
    ensures
        sync_events(snap) =~= seq![
            MsgV::Connecting,
            MsgV::Connected,
            MsgV::LastBlock(snap.tip),
            MsgV::FeeEstimate(snap.fees.fast, snap.fees.medium, snap.fees.slow),
            MsgV::HistoryBatch(Seq::empty(), 0),
            MsgV::HistoryBatch(Seq::empty(), 1),
            MsgV::Complete,
        ],
{
    lemma_scan_zero_history(snap.change, true, 0, Seq::empty());
    let sc = scan_chain_spec(snap.change, true, 0, 0, 0, Seq::empty());
    lemma_scan_zero_history(snap.receiving, false, sc.counter, sc.txids);
    let sr = scan_chain_spec(snap.receiving, false, 0, sc.counter, 0, sc.txids);
    assert(sr.txids.len() == 0);
    assert(tx_events(sr.txids, snap.txs, 0, 0, tx_batch_total(0) as u64) =~= Seq::<MsgV>::empty());
}

/// The running maximum of a batch's indices: at least the start, an
/// upper bound on every index, and attained unless it is the start.
pub proof fn lemma_max_index_hist(s: Seq<HistoryRec>, acc: u32)
    ensures
        max_index_hist(s, acc) >= acc,
        forall|j: int| 0 <= j < s.len() ==> s[j].index <= max_index_hist(s, acc),
        max_index_hist(s, acc) == acc || exists|j: int|
            0 <= j < s.len() && s[j].index == max_index_hist(s, acc),
    decreases s.len(),
{
    if s.len() > 0 {
        let acc2 = if s[0].index > acc {
            s[0].index
        } else {
            acc
        };
        lemma_max_index_hist(s.drop_first(), acc2);
        let m = max_index_hist(s, acc);
        assert forall|j: int| 0 <= j < s.len() implies s[j].index <= m by {
            if j > 0 {
                assert(s.drop_first()[j - 1] == s[j]);
            }
        }
        if m != acc {
            if m == acc2 && acc2 == s[0].index {
                assert(s[0].index == m);
            } else {
                let j = choose|j: int|
                    0 <= j < s.drop_first().len() && s.drop_first()[j].index == m;
                assert(s[j + 1].index == m);
            }
        }
    }
}

/// All history records the scan of a chain walks through: the windows
/// before the halting empty window, in order.
pub open spec fn scanned_hist(chain: Seq<AddrDataV>, change: bool, offset: int) -> Seq<HistoryRec>
    decreases chain.len() + SCAN_WINDOW - offset,
{
    let wh = window_hist(chain, change, offset, SCAN_WINDOW as nat);
    if offset >= chain.len() || wh.len() == 0 {
        Seq::empty()
    } else {
        wh + scanned_hist(chain, change, offset + SCAN_WINDOW)
    }
}

/// The scan's next free index is exactly the highest derivation index
/// observed in any non-empty window: it bounds every scanned record's
/// index, and unless no record was scanned beyond the starting cursor,
/// some scanned record attains it.
pub proof fn lemma_scan_next_free(
    chain: Seq<AddrDataV>,
    change: bool,
    offset: int,
    counter: u32,
    upto: u32,
    txids: Seq<Txid>,
)
    ensures
        ({
            let sr = scan_chain_spec(chain, change, offset, counter, upto, txids);
            let sc = scanned_hist(chain, change, offset);
            &&& sr.upto >= upto
            &&& forall|j: int| 0 <= j < sc.len() ==> sc[j].index <= sr.upto
            &&& (sr.upto == upto || exists|j: int|
                0 <= j < sc.len() && sc[j].index == sr.upto)
        }),
    decreases chain.len() + SCAN_WINDOW - offset,
{
    let wh = window_hist(chain, change, offset, SCAN_WINDOW as nat);
    if offset >= chain.len() || wh.len() == 0 {
    } else {
        let upto2 = max_index_hist(wh, upto);
        lemma_max_index_hist(wh, upto);
        let t2 = add_txids(add_txids(txids, hist_txids(wh)), utxo_txids(window_utxos(chain, change, offset, SCAN_WINDOW as nat)));
        lemma_scan_next_free(chain, change, offset + SCAN_WINDOW, (counter + 2) as u32, upto2, t2);
        let sr = scan_chain_spec(chain, change, offset, counter, upto, txids);
        let rest_sc = scanned_hist(chain, change, offset + SCAN_WINDOW);
        let sc = scanned_hist(chain, change, offset);
        assert(sc == wh + rest_sc);
        assert forall|j: int| 0 <= j < sc.len() implies sc[j].index <= sr.upto by {
            if j < wh.len() {
                assert(sc[j] == wh[j]);
            } else {
                assert(sc[j] == rest_sc[j - wh.len()]);
            }
        }
        if sr.upto != upto {
            if sr.upto == upto2 {
                if upto2 != upto {
                    let j = choose|j: int| 0 <= j < wh.len() && wh[j].index == upto2;
                    assert(sc[j] == wh[j]);
                    assert(sc[j].index == sr.upto);
                }
            } else {
                let j = choose|j: int|
                    0 <= j < rest_sc.len() && rest_sc[j].index == sr.upto;
                assert(sc[wh.len() + j] == rest_sc[j]);
                assert(sc[wh.len() + j].index == sr.upto);
            }
        }
    }
}

/// Scanning halts exactly at the first empty window: the last event is
/// that window's empty history batch, and every earlier history batch of
/// the scan is non-empty.
pub proof fn lemma_scan_halts_at_first_empty(
    chain: Seq<AddrDataV>,
    change: bool,
    offset: int,
    counter: u32,
    upto: u32,
    txids: Seq<Txid>,
)
    ensures
        ({
            let sr = scan_chain_spec(chain, change, offset, counter, upto, txids);
            &&& sr.events.len() >= 1
            &&& (sr.events.last() matches MsgV::HistoryBatch(recs, c) && recs.len() == 0)
            &&& forall|i: int|
                0 <= i < sr.events.len() - 1 ==> (#[trigger] sr.events[i] matches
                MsgV::HistoryBatch(recs2, c2) ==> recs2.len() > 0)
        }),
    decreases chain.len() + SCAN_WINDOW - offset,
{
    let wh = window_hist(chain, change, offset, SCAN_WINDOW as nat);
    let sr = scan_chain_spec(chain, change, offset, counter, upto, txids);
    if offset >= chain.len() || wh.len() == 0 {
        if offset >= chain.len() {
            lemma_window_hist_beyond(chain, change, offset, SCAN_WINDOW as nat);
        }
        assert(sr.events.last() == MsgV::HistoryBatch(wh, counter));
    } else {
        let wu = window_utxos(chain, change, offset, SCAN_WINDOW as nat);
        let upto2 = max_index_hist(wh, upto);
        let t2 = add_txids(add_txids(txids, hist_txids(wh)), utxo_txids(wu));
        lemma_scan_halts_at_first_empty(
            chain,
            change,
            offset + SCAN_WINDOW,
            (counter + 2) as u32,
            upto2,
            t2,
        );
        let rest = scan_chain_spec(chain, change, offset + SCAN_WINDOW, (counter + 2) as u32, upto2, t2);
        let head = seq![
            MsgV::HistoryBatch(wh, counter),
            MsgV::UtxoBatch(wu, (counter + 1) as u32),
        ];
        assert(sr.events == head + rest.events);
        assert(sr.events.last() == rest.events.last());
        assert forall|i: int|
            0 <= i < sr.events.len() - 1 implies (#[trigger] sr.events[i] matches
        MsgV::HistoryBatch(recs2, c2) ==> recs2.len() > 0) by {
            if i == 0 {
                assert(sr.events[0] == MsgV::HistoryBatch(wh, counter));
            } else if i == 1 {
                assert(sr.events[1] == MsgV::UtxoBatch(wu, (counter + 1) as u32));
            } else {
                assert(sr.events[i] == rest.events[i - 2]);
            }
        }
    }
}

/// An endpoint update with a full sync queued behind it yields exactly
/// two full passes, both against the new endpoint: the swap happens when
/// the update is dequeued, before the queued sync runs. A caller issuing
/// the two concurrently cannot know their queue order in advance; the
/// order of arrival alone decides.
pub proof fn lemma_update_then_sync_targets_new_endpoint(
    server0: ElectrumServerV,
    e: ElectrumServerV,
)
    ensures
        worker_passes(server0, seq![CmdV::Update(e), CmdV::Sync]) =~= seq![
            (WorkerAction::RunFullSync, e),
            (WorkerAction::RunFullSync, e),
        ],
{
    let cmds = seq![CmdV::Update(e), CmdV::Sync];
    assert(cmds[0] == CmdV::Update(e));
    assert(cmds.drop_first() =~= seq![CmdV::Sync]);
    assert(seq![CmdV::Sync].drop_first() =~= Seq::<CmdV>::empty());
    assert(worker_passes(e, Seq::<CmdV>::empty()) =~= Seq::<(WorkerAction, ElectrumServerV)>::empty());
    assert(worker_passes(e, seq![CmdV::Sync]) =~= seq![(WorkerAction::RunFullSync, e)]);
}

} // verus!
