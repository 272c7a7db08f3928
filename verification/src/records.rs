//! Core wallet record types: transaction identifiers, history and UTXO
//! records discovered during synchronization, and the prevout projection
//! consumed by coin selection.

use vstd::prelude::*;

verus! {

/// A transaction identifier: 256 bits held as four 64-bit words.
#[derive(Clone, Copy, PartialEq, Eq, Structural, Hash, Debug)]
pub struct Txid {
    pub w0: u64,
    pub w1: u64,
    pub w2: u64,
    pub w3: u64,
}

/// A reference to one output of a transaction.
#[derive(Clone, Copy, PartialEq, Eq, Structural, Hash, Debug)]
pub struct OutPoint {
    pub txid: Txid,
    pub vout: u32,
}

/// Classification of a history entry relative to the wallet.
#[derive(Clone, Copy, PartialEq, Eq, Structural, Hash, Debug)]
pub enum HistoryType {
    Incoming,
    Outcoming,
    Change,
}

impl HistoryType {
    /// Spec-level name of the icon that represents this classification.
    pub open spec fn icon_name_spec(self) -> Seq<char> {
        match self {
            HistoryType::Incoming => "media-playlist-consecutive-symbolic"@,
            HistoryType::Outcoming => "mail-send-symbolic"@,
            HistoryType::Change => "view-refresh-symbolic"@,
        }
    }

    /// Icon name used to render this classification.
    pub fn icon_name(self) -> (r: &'static str)
        ensures
            r@ == self.icon_name_spec(),
    {
        match self {
            HistoryType::Incoming => "media-playlist-consecutive-symbolic",
            HistoryType::Outcoming => "mail-send-symbolic",
            HistoryType::Change => "view-refresh-symbolic",
        }
    }
}

/// Mathematical view of a [`HistoryTxid`].
pub struct HistoryRec {
    pub txid: Txid,
    pub height: i32,
    pub address: Seq<u8>,
    pub index: u32,
    pub ty: HistoryType,
}

/// One wallet-affecting appearance of a transaction: which address it
/// touched, at which derivation index, and at which confirmation height
/// (-1 stands for unconfirmed, 0 for not yet seen).
#[derive(Debug, PartialEq, Eq)]
pub struct HistoryTxid {
    pub txid: Txid,
    pub height: i32,
    /// Script bytes identifying the touched address.
    pub address: Vec<u8>,
    /// Non-hardened derivation index of the address.
    pub index: u32,
    pub ty: HistoryType,
}

impl View for HistoryTxid {
    type V = HistoryRec;

    open spec fn view(&self) -> HistoryRec {
        HistoryRec {
            txid: self.txid,
            height: self.height,
            address: self.address@,
            index: self.index,
            ty: self.ty,
        }
    }
}

impl DeepView for HistoryTxid {
    type V = HistoryRec;

    open spec fn deep_view(&self) -> HistoryRec {
        self.view()
    }
}

impl Clone for HistoryTxid {
    fn clone(&self) -> (r: Self)
        ensures
            r@ == self@,
    {
        HistoryTxid {
            txid: self.txid,
            height: self.height,
            address: clone_bytes(&self.address),
            index: self.index,
            ty: self.ty,
        }
    }
}

/// Mathematical view of a [`UtxoTxid`].
pub struct UtxoRec {
    pub txid: Txid,
    pub height: u32,
    pub vout: u32,
    pub value: u64,
    pub address: Seq<u8>,
    pub index: u32,
    pub change: bool,
}

impl UtxoRec {
    /// The outpoint identifying this unspent output.
    pub open spec fn outpoint(self) -> OutPoint {
        OutPoint { txid: self.txid, vout: self.vout }
    }
}

/// An unspent transaction output owned by the wallet: its outpoint,
/// value in satoshis, owning address, derivation index and chain
/// (height 0 stands for unconfirmed).
#[derive(Debug, PartialEq, Eq)]
pub struct UtxoTxid {
    pub txid: Txid,
    pub height: u32,
    pub vout: u32,
    /// Value in satoshis.
    pub value: u64,
    /// Script bytes identifying the owning address.
    pub address: Vec<u8>,
    /// Non-hardened derivation index of the address.
    pub index: u32,
    /// Whether the owning address belongs to the change chain.
    pub change: bool,
}

impl View for UtxoTxid {
    type V = UtxoRec;

    open spec fn view(&self) -> UtxoRec {
        UtxoRec {
            txid: self.txid,
            height: self.height,
            vout: self.vout,
            value: self.value,
            address: self.address@,
            index: self.index,
            change: self.change,
        }
    }
}

impl DeepView for UtxoTxid {
    type V = UtxoRec;

    open spec fn deep_view(&self) -> UtxoRec {
        self.view()
    }
}

impl Clone for UtxoTxid {
    fn clone(&self) -> (r: Self)
        ensures
            r@ == self@,
    {
        UtxoTxid {
            txid: self.txid,
            height: self.height,
            vout: self.vout,
            value: self.value,
            address: clone_bytes(&self.address),
            index: self.index,
            change: self.change,
        }
    }
}

impl UtxoTxid {
    /// The outpoint identifying this unspent output.
    pub fn outpoint(&self) -> (r: OutPoint)
        ensures
            r == self@.outpoint(),
    {
        OutPoint { txid: self.txid, vout: self.vout }
    }
}

/// A candidate spendable previous output considered during coin selection:
/// the projection of a [`UtxoTxid`] that selection and transaction
/// construction need.
#[derive(Clone, Copy, PartialEq, Eq, Structural, Hash, Debug)]
pub struct Prevout {
    pub outpoint: OutPoint,
    /// Value in satoshis.
    pub amount: u64,
    /// Whether the output belongs to the change chain.
    pub change: bool,
    /// Non-hardened derivation index of the owning address.
    pub index: u32,
}

impl Prevout {
    /// Spec-level projection of a UTXO record to its prevout.
    pub open spec fn of_utxo(u: UtxoRec) -> Prevout {
        Prevout {
            outpoint: u.outpoint(),
            amount: u.value,
            change: u.change,
            index: u.index,
        }
    }

    /// Project a UTXO record to the prevout considered by coin selection.
    pub fn from_utxo(utxo: &UtxoTxid) -> (r: Prevout)
        ensures
            r == Prevout::of_utxo(utxo@),
    {
        Prevout {
            outpoint: utxo.outpoint(),
            amount: utxo.value,
            change: utxo.change,
            index: utxo.index,
        }
    }
}

impl<'a> From<&'a UtxoTxid> for Prevout {
    fn from(utxo: &'a UtxoTxid) -> (r: Prevout) {
        Prevout::from_utxo(utxo)
    }
}

impl<'a> vstd::std_specs::convert::FromSpecImpl<&'a UtxoTxid> for Prevout {
    open spec fn obeys_from_spec() -> bool {
        true
    }

    open spec fn from_spec(utxo: &'a UtxoTxid) -> Self {
        Prevout::of_utxo(utxo@)
    }
}

/// Mathematical view of a [`CachedTx`].
pub struct CachedTxRec {
    pub txid: Txid,
    pub raw: Seq<u8>,
}

/// A full transaction held in the wallet's cache, as fetched from the
/// chain-indexing service: its identifier and its raw serialized bytes.
#[derive(Debug, PartialEq, Eq)]
pub struct CachedTx {
    pub txid: Txid,
    /// Raw serialized transaction bytes.
    pub raw: Vec<u8>,
}

impl View for CachedTx {
    type V = CachedTxRec;

    open spec fn view(&self) -> CachedTxRec {
        CachedTxRec { txid: self.txid, raw: self.raw@ }
    }
}

impl DeepView for CachedTx {
    type V = CachedTxRec;

    open spec fn deep_view(&self) -> CachedTxRec {
        self.view()
    }
}

impl Clone for CachedTx {
    fn clone(&self) -> (r: Self)
        ensures
            r@ == self@,
    {
        CachedTx { txid: self.txid, raw: clone_bytes(&self.raw) }
    }
}

/// Copy a byte vector.
pub fn clone_bytes(v: &Vec<u8>) -> (r: Vec<u8>)
    ensures
        r@ == v@,
{
    let r = v.clone();
    proof {
        assert(r@ =~= v@);
    }
    r
}

/// Compare two byte vectors for equality of their contents.
pub fn bytes_eq(a: &Vec<u8>, b: &Vec<u8>) -> (r: bool)
    ensures
        r == (a@ == b@),
{
    if a.len() != b.len() {
        return false;
    }
    let mut i: usize = 0;
    while i < a.len()
        invariant
            i <= a@.len(),
            a@.len() == b@.len(),
            forall|j: int| 0 <= j < i ==> a@[j] == b@[j],
        decreases a@.len() - i,
    {
        if a[i] != b[i] {
            return false;
        }
        i += 1;
    }
    proof {
        assert(a@ =~= b@);
    }
    true
}

} // verus!
