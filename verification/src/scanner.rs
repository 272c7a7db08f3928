//! Address-scanner data: the per-address answers the chain-indexing
//! service gives for a derivation chain, and the construction of history
//! and UTXO records for one gap-limit window.

use vstd::prelude::*;

use crate::records::{clone_bytes, HistoryRec, HistoryTxid, HistoryType, Txid, UtxoRec, UtxoTxid};

verus! {

/// Width of one scan window: the gap limit is one empty window.
pub const SCAN_WINDOW: u32 = 20;

/// One history item the service reports for a script: the transaction
/// and its confirmation height (-1 for unconfirmed).
#[derive(Clone, Copy, PartialEq, Eq, Structural, Debug)]
pub struct ScriptHist {
    pub txid: Txid,
    pub height: i32,
}

impl DeepView for ScriptHist {
    type V = ScriptHist;

    open spec fn deep_view(&self) -> ScriptHist {
        *self
    }
}

/// One unspent output the service reports for a script.
#[derive(Clone, Copy, PartialEq, Eq, Structural, Debug)]
pub struct ScriptUtxo {
    pub txid: Txid,
    pub height: u32,
    pub vout: u32,
    pub value: u64,
}

impl DeepView for ScriptUtxo {
    type V = ScriptUtxo;

    open spec fn deep_view(&self) -> ScriptUtxo {
        *self
    }
}

/// Mathematical view of an [`AddrData`].
pub struct AddrDataV {
    pub script: Seq<u8>,
    pub history: Seq<ScriptHist>,
    pub utxos: Seq<ScriptUtxo>,
}

/// What the service knows about one derived address: its script bytes,
/// its history items and its unspent outputs. A derivation chain is a
/// sequence of these, position giving the derivation index.
#[derive(Debug)]
pub struct AddrData {
    pub script: Vec<u8>,
    pub history: Vec<ScriptHist>,
    pub utxos: Vec<ScriptUtxo>,
}

impl View for AddrData {
    type V = AddrDataV;

    open spec fn view(&self) -> AddrDataV {
        AddrDataV { script: self.script@, history: self.history@, utxos: self.utxos@ }
    }
}

impl DeepView for AddrData {
    type V = AddrDataV;

    open spec fn deep_view(&self) -> AddrDataV {
        self.view()
    }
}

/// The history records one address contributes: one record per reported
/// history item, classified Change on the change chain and Incoming on
/// the receiving chain.
pub open spec fn addr_hist_recs(a: AddrDataV, index: u32, change: bool) -> Seq<HistoryRec> {
    a.history.map_values(
        |h: ScriptHist|
            HistoryRec {
                txid: h.txid,
                height: h.height,
                address: a.script,
                index,
                ty: if change {
                    HistoryType::Change
                } else {
                    HistoryType::Incoming
                },
            },
    )
}

/// The UTXO records one address contributes.
pub open spec fn addr_utxo_recs(a: AddrDataV, index: u32, change: bool) -> Seq<UtxoRec> {
    a.utxos.map_values(
        |u: ScriptUtxo|
            UtxoRec {
                txid: u.txid,
                height: u.height,
                vout: u.vout,
                value: u.value,
                address: a.script,
                index,
                change,
            },
    )
}

/// What one address contributes at a given position, or nothing beyond
/// the chain's known addresses.
pub open spec fn hist_at(chain: Seq<AddrDataV>, change: bool, idx: int) -> Seq<HistoryRec> {
    if 0 <= idx < chain.len() {
        addr_hist_recs(chain[idx], idx as u32, change)
    } else {
        Seq::empty()
    }
}

/// UTXO counterpart of [`hist_at`].
pub open spec fn utxos_at(chain: Seq<AddrDataV>, change: bool, idx: int) -> Seq<UtxoRec> {
    if 0 <= idx < chain.len() {
        addr_utxo_recs(chain[idx], idx as u32, change)
    } else {
        Seq::empty()
    }
}

/// All history records of the `count` consecutive addresses starting at
/// `offset`: one scan window when `count` is the window width.
pub open spec fn window_hist(
    chain: Seq<AddrDataV>,
    change: bool,
    offset: int,
    count: nat,
) -> Seq<HistoryRec>
    decreases count,
{
    if count == 0 {
        Seq::empty()
    } else {
        hist_at(chain, change, offset) + window_hist(chain, change, offset + 1, (count - 1) as nat)
    }
}

/// UTXO counterpart of [`window_hist`].
pub open spec fn window_utxos(
    chain: Seq<AddrDataV>,
    change: bool,
    offset: int,
    count: nat,
) -> Seq<UtxoRec>
    decreases count,
{
    if count == 0 {
        Seq::empty()
    } else {
        utxos_at(chain, change, offset) + window_utxos(chain, change, offset + 1, (count - 1) as nat)
    }
}

/// Extending a window by one address appends that address's records.
pub proof fn lemma_window_hist_snoc(chain: Seq<AddrDataV>, change: bool, offset: int, count: nat)
    ensures
        window_hist(chain, change, offset, (count + 1) as nat) == window_hist(
            chain,
            change,
            offset,
            count,
        ) + hist_at(chain, change, offset + count),
    decreases count,
{
    if count == 0 {
        assert(window_hist(chain, change, offset + 1, 0) =~= Seq::<HistoryRec>::empty());
        assert(hist_at(chain, change, offset) + Seq::<HistoryRec>::empty() =~= hist_at(
            chain,
            change,
            offset,
        ));
        assert(Seq::<HistoryRec>::empty() + hist_at(chain, change, offset) =~= hist_at(
            chain,
            change,
            offset,
        ));
    } else {
        lemma_window_hist_snoc(chain, change, offset + 1, (count - 1) as nat);
        assert((hist_at(chain, change, offset) + window_hist(
            chain,
            change,
            offset + 1,
            (count - 1) as nat,
        )) + hist_at(chain, change, offset + count) =~= hist_at(chain, change, offset) + (
        window_hist(chain, change, offset + 1, (count - 1) as nat) + hist_at(
            chain,
            change,
            offset + count,
        )));
    }
}

/// UTXO counterpart of [`lemma_window_hist_snoc`].
pub proof fn lemma_window_utxos_snoc(chain: Seq<AddrDataV>, change: bool, offset: int, count: nat)
    ensures
        window_utxos(chain, change, offset, (count + 1) as nat) == window_utxos(
            chain,
            change,
            offset,
            count,
        ) + utxos_at(chain, change, offset + count),
    decreases count,
{
    if count == 0 {
        assert(window_utxos(chain, change, offset + 1, 0) =~= Seq::<UtxoRec>::empty());
        assert(utxos_at(chain, change, offset) + Seq::<UtxoRec>::empty() =~= utxos_at(
            chain,
            change,
            offset,
        ));
        assert(Seq::<UtxoRec>::empty() + utxos_at(chain, change, offset) =~= utxos_at(
            chain,
            change,
            offset,
        ));
    } else {
        lemma_window_utxos_snoc(chain, change, offset + 1, (count - 1) as nat);
        assert((utxos_at(chain, change, offset) + window_utxos(
            chain,
            change,
            offset + 1,
            (count - 1) as nat,
        )) + utxos_at(chain, change, offset + count) =~= utxos_at(chain, change, offset) + (
        window_utxos(chain, change, offset + 1, (count - 1) as nat) + utxos_at(
            chain,
            change,
            offset + count,
        )));
    }
}

/// The history records for the addresses of one scan window, in address
/// order.
pub fn window_history_records(chain: &Vec<AddrData>, change: bool, offset: u32) -> (r: Vec<
    HistoryTxid,
>)
    requires
        offset <= 0x7FFF_FFE0u32,
    ensures
        r.deep_view() == window_hist(chain.deep_view(), change, offset as int, SCAN_WINDOW as nat),
{
    let ghost cv = chain.deep_view();
    let mut r: Vec<HistoryTxid> = Vec::new();
    let mut w: u32 = 0;
    proof {
        assert(r.deep_view() =~= Seq::<HistoryRec>::empty());
        assert(window_hist(cv, change, offset as int, 0) =~= Seq::<HistoryRec>::empty());
    }
    while w < SCAN_WINDOW
        invariant
            w <= SCAN_WINDOW,
            offset <= 0x7FFF_FFE0u32,
            cv == chain.deep_view(),
            r.deep_view() == window_hist(cv, change, offset as int, w as nat),
        decreases SCAN_WINDOW - w,
    {
        let idx = offset + w;
        proof {
            lemma_window_hist_snoc(cv, change, offset as int, w as nat);
        }
        if (idx as usize) < chain.len() {
            let ghost pre = r.deep_view();
            let a = &chain[idx as usize];
            proof {
                assert(a@ == cv[idx as int]);
            }
            let mut part = addr_history_records(a, idx, change);
            let ghost part_v = part.deep_view();
            r.append(&mut part);
            proof {
                assert(r.deep_view() =~= pre + part_v);
            }
        } else {
            proof {
                assert(hist_at(cv, change, offset as int + w as int) =~= Seq::<HistoryRec>::empty());
                assert(r.deep_view() =~= r.deep_view() + Seq::<HistoryRec>::empty());
            }
        }
        w += 1;
    }
    r
}

/// The UTXO records for the addresses of one scan window, in address
/// order.
pub fn window_utxo_records(chain: &Vec<AddrData>, change: bool, offset: u32) -> (r: Vec<UtxoTxid>)
    requires
        offset <= 0x7FFF_FFE0u32,
    ensures
        r.deep_view() == window_utxos(chain.deep_view(), change, offset as int, SCAN_WINDOW as nat),
{
    let ghost cv = chain.deep_view();
    let mut r: Vec<UtxoTxid> = Vec::new();
    let mut w: u32 = 0;
    proof {
        assert(r.deep_view() =~= Seq::<UtxoRec>::empty());
        assert(window_utxos(cv, change, offset as int, 0) =~= Seq::<UtxoRec>::empty());
    }
    while w < SCAN_WINDOW
        invariant
            w <= SCAN_WINDOW,
            offset <= 0x7FFF_FFE0u32,
            cv == chain.deep_view(),
            r.deep_view() == window_utxos(cv, change, offset as int, w as nat),
        decreases SCAN_WINDOW - w,
    {
        let idx = offset + w;
        proof {
            lemma_window_utxos_snoc(cv, change, offset as int, w as nat);
        }
        if (idx as usize) < chain.len() {
            let ghost pre = r.deep_view();
            let a = &chain[idx as usize];
            proof {
                assert(a@ == cv[idx as int]);
            }
            let mut part = addr_utxo_records(a, idx, change);
            let ghost part_v = part.deep_view();
            r.append(&mut part);
            proof {
                assert(r.deep_view() =~= pre + part_v);
            }
        } else {
            proof {
                assert(utxos_at(cv, change, offset as int + w as int) =~= Seq::<UtxoRec>::empty());
                assert(r.deep_view() =~= r.deep_view() + Seq::<UtxoRec>::empty());
            }
        }
        w += 1;
    }
    r
}

/// Build one address's history records.
fn addr_history_records(a: &AddrData, index: u32, change: bool) -> (r: Vec<HistoryTxid>)
    ensures
        r.deep_view() == addr_hist_recs(a@, index, change),
{
    let ghost full = addr_hist_recs(a@, index, change);
    let mut r: Vec<HistoryTxid> = Vec::new();
    let mut j: usize = 0;
    proof {
        assert(r.deep_view() =~= full.take(0));
    }
    while j < a.history.len()
        invariant
            j <= a.history@.len(),
            full == addr_hist_recs(a@, index, change),
            full.len() == a.history@.len(),
            r.deep_view() == full.take(j as int),
        decreases a.history@.len() - j,
    {
        let ghost pre = r.deep_view();
        let h = a.history[j];
        let rec = HistoryTxid {
            txid: h.txid,
            height: h.height,
            address: clone_bytes(&a.script),
            index,
            ty: if change {
                HistoryType::Change
            } else {
                HistoryType::Incoming
            },
        };
        proof {
            assert(full[j as int] == rec@);
        }
        r.push(rec);
        proof {
            assert(r.deep_view() =~= pre.push(full[j as int]));
            assert(full.take(j as int + 1) =~= full.take(j as int).push(full[j as int]));
        }
        j += 1;
    }
    proof {
        assert(full.take(a.history@.len() as int) =~= full);
    }
    r
}

/// Build one address's UTXO records.
fn addr_utxo_records(a: &AddrData, index: u32, change: bool) -> (r: Vec<UtxoTxid>)
    ensures
        r.deep_view() == addr_utxo_recs(a@, index, change),
{
    let ghost full = addr_utxo_recs(a@, index, change);
    let mut r: Vec<UtxoTxid> = Vec::new();
    let mut j: usize = 0;
    proof {
        assert(r.deep_view() =~= full.take(0));
    }
    while j < a.utxos.len()
        invariant
            j <= a.utxos@.len(),
            full == addr_utxo_recs(a@, index, change),
            full.len() == a.utxos@.len(),
            r.deep_view() == full.take(j as int),
        decreases a.utxos@.len() - j,
    {
        let ghost pre = r.deep_view();
        let u = a.utxos[j];
        let rec = UtxoTxid {
            txid: u.txid,
            height: u.height,
            vout: u.vout,
            value: u.value,
            address: clone_bytes(&a.script),
            index,
            change,
        };
        proof {
            assert(full[j as int] == rec@);
        }
        r.push(rec);
        proof {
            assert(r.deep_view() =~= pre.push(full[j as int]));
            assert(full.take(j as int + 1) =~= full.take(j as int).push(full[j as int]));
        }
        j += 1;
    }
    proof {
        assert(full.take(a.utxos@.len() as int) =~= full);
    }
    r
}

} // verus!
