//! The wallet state store: the in-memory aggregate of UTXOs, history,
//! cached transactions, chain tip and fee tiers, mutated only by applying
//! the batches that synchronization emits, and queried for balances and
//! coin selection.

use vstd::prelude::*;

use crate::records::{
    bytes_eq, CachedTx, CachedTxRec, HistoryRec, HistoryTxid, OutPoint, Prevout, Txid, UtxoRec,
    UtxoTxid,
};

verus! {

/// Index of the first occurrence of `k` in `s`, or -1 when `s` does not
/// contain it.
pub open spec fn find_first<K>(s: Seq<K>, k: K) -> int
    decreases s.len(),
{
    if s.len() == 0 {
        -1
    } else if s[0] == k {
        0
    } else {
        let r = find_first(s.drop_first(), k);
        if r < 0 {
            -1
        } else {
            r + 1
        }
    }
}

/// What `find_first` returns: -1 exactly when the key is absent, and
/// otherwise the first position holding the key.
pub proof fn lemma_find_first<K>(s: Seq<K>, k: K)
    ensures
        find_first(s, k) == -1 ==> forall|j: int| 0 <= j < s.len() ==> s[j] != k,
        find_first(s, k) >= 0 ==> {
            &&& find_first(s, k) < s.len()
            &&& s[find_first(s, k)] == k
            &&& forall|j: int| 0 <= j < find_first(s, k) ==> s[j] != k
        },
    decreases s.len(),
{
    if s.len() > 0 && s[0] != k {
        lemma_find_first(s.drop_first(), k);
        assert forall|j: int| 0 <= j < s.len() && find_first(s, k) == -1 implies s[j] != k by {
            if j > 0 {
                assert(s.drop_first()[j - 1] == s[j]);
            }
        }
        if find_first(s, k) >= 0 {
            assert(s.drop_first()[find_first(s, k) - 1] == s[find_first(s, k)]);
            assert forall|j: int| 0 <= j < find_first(s, k) implies s[j] != k by {
                if j > 0 {
                    assert(s.drop_first()[j - 1] == s[j]);
                }
            }
        }
    }
}

/// Appending an element leaves earlier occurrences in place: the first
/// occurrence moves only when the key was absent.
pub proof fn lemma_find_first_push<K>(s: Seq<K>, k: K, x: K)
    ensures
        find_first(s.push(x), k) == if find_first(s, k) >= 0 {
            find_first(s, k)
        } else if x == k {
            s.len() as int
        } else {
            -1
        },
    decreases s.len(),
{
    if s.len() == 0 {
        assert(s.push(x).len() == 1);
        assert(s.push(x)[0] == x);
        if x != k {
            assert(s.push(x).drop_first() =~= Seq::<K>::empty());
            assert(find_first(Seq::<K>::empty(), k) == -1);
        }
    } else {
        assert(s.push(x)[0] == s[0]);
        if s[0] == k {
            assert(find_first(s.push(x), k) == 0);
        } else {
            assert(s.push(x).drop_first() =~= s.drop_first().push(x));
            lemma_find_first_push(s.drop_first(), k, x);
            assert(find_first(s.push(x), k) == {
                let r = find_first(s.drop_first().push(x), k);
                if r < 0 {
                    -1
                } else {
                    r + 1
                }
            });
        }
    }
}

/// The key sequence of a UTXO set: each record's outpoint.
pub open spec fn utxo_keys(s: Seq<UtxoRec>) -> Seq<OutPoint> {
    s.map_values(|u: UtxoRec| u.outpoint())
}

/// Position of the UTXO record with the given outpoint, or -1.
pub open spec fn find_utxo(s: Seq<UtxoRec>, op: OutPoint) -> int {
    find_first(utxo_keys(s), op)
}

/// Insert a UTXO record, replacing the record with the same outpoint when
/// one is present and appending otherwise.
pub open spec fn upsert_utxo(s: Seq<UtxoRec>, u: UtxoRec) -> Seq<UtxoRec> {
    let i = find_utxo(s, u.outpoint());
    if i >= 0 {
        s.update(i, u)
    } else {
        s.push(u)
    }
}

/// Apply a UTXO batch from left to right, merging by outpoint identity.
pub open spec fn merge_utxos(s: Seq<UtxoRec>, b: Seq<UtxoRec>) -> Seq<UtxoRec>
    decreases b.len(),
{
    if b.len() == 0 {
        s
    } else {
        merge_utxos(upsert_utxo(s, b[0]), b.drop_first())
    }
}

/// The record stored under an outpoint, if any.
pub open spec fn utxo_lookup(s: Seq<UtxoRec>, op: OutPoint) -> Option<UtxoRec> {
    let i = find_utxo(s, op);
    if i >= 0 {
        Some(s[i])
    } else {
        None
    }
}

/// No two records of the set share an outpoint.
pub open spec fn utxos_unique(s: Seq<UtxoRec>) -> bool {
    forall|i: int, j: int|
        0 <= i < j < s.len() ==> s[i].outpoint() != s[j].outpoint()
}

/// Upserting preserves outpoint uniqueness.
pub proof fn lemma_upsert_utxo_unique(s: Seq<UtxoRec>, u: UtxoRec)
    requires
        utxos_unique(s),
    ensures
        utxos_unique(upsert_utxo(s, u)),
{
    lemma_find_first(utxo_keys(s), u.outpoint());
    let i = find_utxo(s, u.outpoint());
    if i >= 0 {
        assert(utxo_keys(s)[i] == s[i].outpoint());
        assert forall|a: int, b: int|
            0 <= a < b < upsert_utxo(s, u).len() implies upsert_utxo(s, u)[a].outpoint()
            != upsert_utxo(s, u)[b].outpoint() by {
            assert(s[a].outpoint() != s[b].outpoint());
        }
    } else {
        assert forall|a: int, b: int|
            0 <= a < b < upsert_utxo(s, u).len() implies upsert_utxo(s, u)[a].outpoint()
            != upsert_utxo(s, u)[b].outpoint() by {
            if b == s.len() {
                assert(utxo_keys(s)[a] == s[a].outpoint());
            }
        }
    }
}

/// Merging preserves outpoint uniqueness.
pub proof fn lemma_merge_utxos_unique(s: Seq<UtxoRec>, b: Seq<UtxoRec>)
    requires
        utxos_unique(s),
    ensures
        utxos_unique(merge_utxos(s, b)),
    decreases b.len(),
{
    if b.len() > 0 {
        lemma_upsert_utxo_unique(s, b[0]);
        lemma_merge_utxos_unique(upsert_utxo(s, b[0]), b.drop_first());
    }
}

/// Upserting a record leaves it retrievable under its outpoint.
pub proof fn lemma_upsert_utxo_lookup_self(s: Seq<UtxoRec>, u: UtxoRec)
    ensures
        utxo_lookup(upsert_utxo(s, u), u.outpoint()) == Some(u),
{
    let k = utxo_keys(s);
    let op = u.outpoint();
    lemma_find_first(k, op);
    let i = find_first(k, op);
    if i >= 0 {
        assert(utxo_keys(s.update(i, u)) =~= k);
        assert(s.update(i, u)[i] == u);
    } else {
        assert(utxo_keys(s.push(u)) =~= k.push(op));
        lemma_find_first_push(k, op, op);
        assert(s.push(u)[s.len() as int] == u);
    }
}

/// Upserting a record leaves every other outpoint's lookup unchanged.
pub proof fn lemma_upsert_utxo_lookup_other(s: Seq<UtxoRec>, u: UtxoRec, op2: OutPoint)
    requires
        op2 != u.outpoint(),
    ensures
        utxo_lookup(upsert_utxo(s, u), op2) == utxo_lookup(s, op2),
{
    let k = utxo_keys(s);
    let op = u.outpoint();
    lemma_find_first(k, op);
    lemma_find_first(k, op2);
    let i = find_first(k, op);
    let j = find_first(k, op2);
    if i >= 0 {
        assert(utxo_keys(s.update(i, u)) =~= k);
        if j >= 0 {
            assert(k[i] == op);
            assert(k[j] == op2);
            assert(i != j);
            assert(s.update(i, u)[j] == s[j]);
        }
    } else {
        assert(utxo_keys(s.push(u)) =~= k.push(op));
        lemma_find_first_push(k, op2, op);
        if j >= 0 {
            assert(s.push(u)[j] == s[j]);
        }
    }
}

/// Merging a batch none of whose outpoints equals `op` leaves `op`'s
/// lookup unchanged.
pub proof fn lemma_merge_utxos_lookup_other(s: Seq<UtxoRec>, b: Seq<UtxoRec>, op: OutPoint)
    requires
        forall|i: int| 0 <= i < b.len() ==> b[i].outpoint() != op,
    ensures
        utxo_lookup(merge_utxos(s, b), op) == utxo_lookup(s, op),
    decreases b.len(),
{
    if b.len() > 0 {
        lemma_upsert_utxo_lookup_other(s, b[0], op);
        assert forall|i: int| 0 <= i < b.drop_first().len() implies b.drop_first()[i].outpoint()
            != op by {
            assert(b.drop_first()[i] == b[i + 1]);
        }
        lemma_merge_utxos_lookup_other(upsert_utxo(s, b[0]), b.drop_first(), op);
    }
}

/// Whether some record of `s` carries the given outpoint.
pub open spec fn contains_op(s: Seq<UtxoRec>, op: OutPoint) -> bool {
    exists|i: int| 0 <= i < s.len() && s[i].outpoint() == op
}

/// The last record of `b` carrying the given outpoint.
pub open spec fn last_with_op(b: Seq<UtxoRec>, op: OutPoint) -> UtxoRec
    recommends
        contains_op(b, op),
    decreases b.len(),
{
    if b.len() == 0 {
        arbitrary()
    } else if contains_op(b.drop_first(), op) {
        last_with_op(b.drop_first(), op)
    } else {
        b[0]
    }
}

/// In a uniquely keyed set, a position's record is the first (and only)
/// occurrence of its outpoint.
pub proof fn lemma_unique_find(s: Seq<UtxoRec>, p: int)
    requires
        utxos_unique(s),
        0 <= p < s.len(),
    ensures
        find_first(utxo_keys(s), s[p].outpoint()) == p,
{
    let op = s[p].outpoint();
    lemma_find_first(utxo_keys(s), op);
    let f = find_first(utxo_keys(s), op);
    assert(utxo_keys(s)[p] == op);
    assert(f >= 0);
    assert(s[f].outpoint() == utxo_keys(s)[f]);
    if f < p {
        assert(s[f].outpoint() != s[p].outpoint());
    }
    if f > p {
        assert(utxo_keys(s)[p] != op);
    }
}

/// After a merge, each outpoint of the batch retrieves the last record
/// of the batch carrying it: the last observation wins.
pub proof fn lemma_merge_lookup_last_occurrence(s: Seq<UtxoRec>, b: Seq<UtxoRec>)
    ensures
        forall|i: int|
            0 <= i < b.len() ==> utxo_lookup(merge_utxos(s, b), b[i].outpoint()) == Some(
                last_with_op(b, b[i].outpoint()),
            ),
    decreases b.len(),
{
    if b.len() > 0 {
        let u = b[0];
        let t = upsert_utxo(s, u);
        let rest = b.drop_first();
        lemma_merge_lookup_last_occurrence(t, rest);
        assert forall|i: int|
            0 <= i < b.len() implies utxo_lookup(merge_utxos(s, b), b[i].outpoint()) == Some(
            last_with_op(b, b[i].outpoint()),
        ) by {
            let op = b[i].outpoint();
            if i == 0 {
                if contains_op(rest, op) {
                    let j = choose|j: int| 0 <= j < rest.len() && rest[j].outpoint() == op;
                    assert(utxo_lookup(merge_utxos(t, rest), rest[j].outpoint()) == Some(
                        last_with_op(rest, rest[j].outpoint()),
                    ));
                } else {
                    lemma_upsert_utxo_lookup_self(s, u);
                    assert forall|k: int| 0 <= k < rest.len() implies rest[k].outpoint()
                        != op by {
                        if rest[k].outpoint() == op {
                            assert(contains_op(rest, op));
                        }
                    }
                    lemma_merge_utxos_lookup_other(t, rest, op);
                }
            } else {
                assert(rest[i - 1] == b[i]);
                assert(contains_op(rest, op));
                assert(utxo_lookup(merge_utxos(t, rest), rest[i - 1].outpoint()) == Some(
                    last_with_op(rest, rest[i - 1].outpoint()),
                ));
            }
        }
    }
}

/// The positional picture of a merge into a uniquely keyed set that
/// already carries every outpoint of the batch: each position whose
/// outpoint the batch mentions ends up holding the batch's last record
/// for it, and every other position is untouched.
pub open spec fn overwrite_ops(t: Seq<UtxoRec>, b: Seq<UtxoRec>) -> Seq<UtxoRec> {
    Seq::new(
        t.len(),
        |p: int|
            if contains_op(b, t[p].outpoint()) {
                last_with_op(b, t[p].outpoint())
            } else {
                t[p]
            },
    )
}

/// Merging into a uniquely keyed set that already carries every
/// outpoint of the batch only overwrites in place.
pub proof fn lemma_merge_overwrite(t: Seq<UtxoRec>, b: Seq<UtxoRec>)
    requires
        utxos_unique(t),
        forall|i: int| 0 <= i < b.len() ==> contains_op(t, b[i].outpoint()),
    ensures
        merge_utxos(t, b) == overwrite_ops(t, b),
    decreases b.len(),
{
    if b.len() == 0 {
        assert(overwrite_ops(t, b) =~= t);
    } else {
        let u = b[0];
        let op0 = u.outpoint();
        let rest = b.drop_first();
        let j = choose|j: int| 0 <= j < t.len() && t[j].outpoint() == op0;
        lemma_unique_find(t, j);
        assert(find_utxo(t, op0) == j);
        let t1 = t.update(j, u);
        assert(upsert_utxo(t, u) == t1);
        lemma_upsert_utxo_unique(t, u);
        assert forall|i: int| 0 <= i < rest.len() implies contains_op(t1, rest[i].outpoint()) by {
            assert(contains_op(t, b[i + 1].outpoint()));
            let w = choose|w: int| 0 <= w < t.len() && t[w].outpoint() == rest[i].outpoint();
            assert(t1[w].outpoint() == rest[i].outpoint());
        }
        lemma_merge_overwrite(t1, rest);
        assert forall|p: int|
            0 <= p < t.len() implies overwrite_ops(t1, rest)[p] == overwrite_ops(t, b)[p] by {
            let opp = t[p].outpoint();
            assert(t1[p].outpoint() == opp);
            if contains_op(rest, opp) {
                let w = choose|w: int| 0 <= w < rest.len() && rest[w].outpoint() == opp;
                assert(b[w + 1].outpoint() == opp);
                assert(contains_op(b, opp));
            } else if opp == op0 {
                assert(p == j) by {
                    if p != j {
                        assert(t[p].outpoint() != t[j].outpoint());
                    }
                }
                assert(contains_op(b, opp)) by {
                    assert(b[0].outpoint() == opp);
                }
                assert(last_with_op(b, opp) == u);
                assert(overwrite_ops(t1, rest)[p] == t1[j]);
            } else {
                assert(!contains_op(b, opp)) by {
                    if contains_op(b, opp) {
                        let w = choose|w: int| 0 <= w < b.len() && b[w].outpoint() == opp;
                        assert(w > 0);
                        assert(rest[w - 1].outpoint() == opp);
                        assert(contains_op(rest, opp));
                    }
                }
                assert(p != j);
                assert(overwrite_ops(t1, rest)[p] == t1[p]);
            }
        }
        assert(overwrite_ops(t1, rest) =~= overwrite_ops(t, b));
    }
}

/// Applying the same UTXO batch twice to a uniquely keyed UTXO set —
/// the shape the store's invariant guarantees — yields the same set as
/// applying it once, duplicate outpoints within the batch included.
pub proof fn lemma_merge_utxos_idempotent(s: Seq<UtxoRec>, b: Seq<UtxoRec>)
    requires
        utxos_unique(s),
    ensures
        merge_utxos(merge_utxos(s, b), b) == merge_utxos(s, b),
{
    let m = merge_utxos(s, b);
    lemma_merge_utxos_unique(s, b);
    lemma_merge_lookup_last_occurrence(s, b);
    assert forall|i: int| 0 <= i < b.len() implies contains_op(m, b[i].outpoint()) by {
        let op = b[i].outpoint();
        lemma_find_first(utxo_keys(m), op);
        let f = find_first(utxo_keys(m), op);
        assert(utxo_lookup(m, op) is Some);
        assert(f >= 0);
        assert(m[f].outpoint() == utxo_keys(m)[f]);
    }
    lemma_merge_overwrite(m, b);
    assert forall|p: int| 0 <= p < m.len() implies overwrite_ops(m, b)[p] == m[p] by {
        let op = m[p].outpoint();
        if contains_op(b, op) {
            let i = choose|i: int| 0 <= i < b.len() && b[i].outpoint() == op;
            assert(utxo_lookup(m, b[i].outpoint()) == Some(last_with_op(b, b[i].outpoint())));
            lemma_unique_find(m, p);
            assert(m[p] == last_with_op(b, op));
        }
    }
    assert(overwrite_ops(m, b) =~= m);
}

/// The identity under which history records are merged: the same
/// transaction touching the same address at the same derivation index.
pub open spec fn hist_key(h: HistoryRec) -> (Txid, Seq<u8>, u32) {
    (h.txid, h.address, h.index)
}

/// The key sequence of a history set.
pub open spec fn hist_keys(s: Seq<HistoryRec>) -> Seq<(Txid, Seq<u8>, u32)> {
    s.map_values(|h: HistoryRec| hist_key(h))
}

/// Insert a history record, replacing the record with the same identity
/// when one is present and appending otherwise: a later observation of the
/// same entry (for example a confirmation) supersedes the earlier one.
pub open spec fn upsert_hist(s: Seq<HistoryRec>, h: HistoryRec) -> Seq<HistoryRec> {
    let i = find_first(hist_keys(s), hist_key(h));
    if i >= 0 {
        s.update(i, h)
    } else {
        s.push(h)
    }
}

/// Apply a history batch from left to right, merging by record identity.
pub open spec fn merge_hist(s: Seq<HistoryRec>, b: Seq<HistoryRec>) -> Seq<HistoryRec>
    decreases b.len(),
{
    if b.len() == 0 {
        s
    } else {
        merge_hist(upsert_hist(s, b[0]), b.drop_first())
    }
}

/// The key sequence of the transaction cache.
pub open spec fn tx_keys(s: Seq<CachedTxRec>) -> Seq<Txid> {
    s.map_values(|t: CachedTxRec| t.txid)
}

/// Insert a fetched transaction, replacing the cached copy under the same
/// identifier when one is present and appending otherwise.
pub open spec fn upsert_tx(s: Seq<CachedTxRec>, t: CachedTxRec) -> Seq<CachedTxRec> {
    let i = find_first(tx_keys(s), t.txid);
    if i >= 0 {
        s.update(i, t)
    } else {
        s.push(t)
    }
}

/// Apply a transaction batch from left to right, merging by identifier.
pub open spec fn merge_txs(s: Seq<CachedTxRec>, b: Seq<CachedTxRec>) -> Seq<CachedTxRec>
    decreases b.len(),
{
    if b.len() == 0 {
        s
    } else {
        merge_txs(upsert_tx(s, b[0]), b.drop_first())
    }
}

/// No two history records share an identity.
pub open spec fn hist_unique(s: Seq<HistoryRec>) -> bool {
    forall|i: int, j: int| 0 <= i < j < s.len() ==> hist_key(s[i]) != hist_key(s[j])
}

/// No two cached transactions share an identifier.
pub open spec fn txs_unique(s: Seq<CachedTxRec>) -> bool {
    forall|i: int, j: int| 0 <= i < j < s.len() ==> s[i].txid != s[j].txid
}

/// History sets stay uniquely keyed under merging: each batch record
/// replaces in place or appends a fresh identity.
pub proof fn lemma_merge_hist_unique(s: Seq<HistoryRec>, b: Seq<HistoryRec>)
    requires
        hist_unique(s),
    ensures
        hist_unique(merge_hist(s, b)),
    decreases b.len(),
{
    if b.len() > 0 {
        let h = b[0];
        lemma_find_first(hist_keys(s), hist_key(h));
        let i = find_first(hist_keys(s), hist_key(h));
        let s2 = upsert_hist(s, h);
        if i >= 0 {
            assert(hist_keys(s)[i] == hist_key(s[i]));
            assert forall|a: int, c: int|
                0 <= a < c < s2.len() implies hist_key(s2[a]) != hist_key(s2[c]) by {
                assert(hist_key(s[a]) != hist_key(s[c]));
            }
        } else {
            assert forall|a: int, c: int|
                0 <= a < c < s2.len() implies hist_key(s2[a]) != hist_key(s2[c]) by {
                if c == s.len() {
                    assert(hist_keys(s)[a] == hist_key(s[a]));
                }
            }
        }
        lemma_merge_hist_unique(s2, b.drop_first());
    }
}

/// The transaction cache stays uniquely keyed under merging.
pub proof fn lemma_merge_txs_unique(s: Seq<CachedTxRec>, b: Seq<CachedTxRec>)
    requires
        txs_unique(s),
    ensures
        txs_unique(merge_txs(s, b)),
    decreases b.len(),
{
    if b.len() > 0 {
        let t = b[0];
        lemma_find_first(tx_keys(s), t.txid);
        let i = find_first(tx_keys(s), t.txid);
        let s2 = upsert_tx(s, t);
        if i >= 0 {
            assert(tx_keys(s)[i] == s[i].txid);
            assert forall|a: int, c: int|
                0 <= a < c < s2.len() implies s2[a].txid != s2[c].txid by {
                assert(s[a].txid != s[c].txid);
            }
        } else {
            assert forall|a: int, c: int|
                0 <= a < c < s2.len() implies s2[a].txid != s2[c].txid by {
                if c == s.len() {
                    assert(tx_keys(s)[a] == s[a].txid);
                }
            }
        }
        lemma_merge_txs_unique(s2, b.drop_first());
    }
}

/// Total value in satoshis of a UTXO set.
pub open spec fn utxo_total(s: Seq<UtxoRec>) -> int
    decreases s.len(),
{
    if s.len() == 0 {
        0
    } else {
        s[0].value + utxo_total(s.drop_first())
    }
}

/// A UTXO is spendable by coin selection once it is confirmed.
pub open spec fn spendable(u: UtxoRec) -> bool {
    u.height >= 1
}

/// Total value in satoshis of the confirmed part of a UTXO set.
pub open spec fn confirmed_total(s: Seq<UtxoRec>) -> int
    decreases s.len(),
{
    if s.len() == 0 {
        0
    } else {
        (if spendable(s[0]) {
            s[0].value as int
        } else {
            0
        }) + confirmed_total(s.drop_first())
    }
}

/// Total value in satoshis of a prevout selection.
pub open spec fn prevout_total(s: Seq<Prevout>) -> int
    decreases s.len(),
{
    if s.len() == 0 {
        0
    } else {
        s[0].amount + prevout_total(s.drop_first())
    }
}

/// The selection policy: walk the UTXO set in storage order, taking every
/// confirmed output until the accumulated value reaches the requested
/// amount.
pub open spec fn greedy_pick(s: Seq<UtxoRec>, amount: int) -> Seq<Prevout>
    decreases s.len(),
{
    if amount <= 0 || s.len() == 0 {
        Seq::empty()
    } else if spendable(s[0]) {
        seq![Prevout::of_utxo(s[0])] + greedy_pick(s.drop_first(), amount - s[0].value)
    } else {
        greedy_pick(s.drop_first(), amount)
    }
}

/// Sums of UTXO sets are non-negative.
pub proof fn lemma_utxo_total_nonneg(s: Seq<UtxoRec>)
    ensures
        utxo_total(s) >= 0,
        confirmed_total(s) >= 0,
    decreases s.len(),
{
    if s.len() > 0 {
        lemma_utxo_total_nonneg(s.drop_first());
    }
}

/// One step of a prefix sum over a UTXO set.
pub proof fn lemma_utxo_total_skip_step(s: Seq<UtxoRec>, i: int)
    requires
        0 <= i < s.len(),
    ensures
        utxo_total(s.skip(i)) == s[i].value + utxo_total(s.skip(i + 1)),
        confirmed_total(s.skip(i)) == (if spendable(s[i]) {
            s[i].value as int
        } else {
            0
        }) + confirmed_total(s.skip(i + 1)),
{
    assert(s.skip(i).drop_first() =~= s.skip(i + 1));
    assert(s.skip(i)[0] == s[i]);
}

/// Appending to a prevout selection adds its amount to the total.
pub proof fn lemma_prevout_total_push(s: Seq<Prevout>, p: Prevout)
    ensures
        prevout_total(s.push(p)) == prevout_total(s) + p.amount,
    decreases s.len(),
{
    if s.len() == 0 {
        assert(s.push(p).drop_first() =~= Seq::<Prevout>::empty());
        assert(prevout_total(Seq::<Prevout>::empty()) == 0);
        assert(s.push(p)[0] == p);
    } else {
        assert(s.push(p)[0] == s[0]);
        assert(s.push(p).drop_first() =~= s.drop_first().push(p));
        lemma_prevout_total_push(s.drop_first(), p);
    }
}

/// A selection never has more inputs than the wallet has UTXOs.
pub proof fn lemma_greedy_pick_len(s: Seq<UtxoRec>, amount: int)
    ensures
        greedy_pick(s, amount).len() <= s.len(),
    decreases s.len(),
{
    if amount <= 0 || s.len() == 0 {
    } else if spendable(s[0]) {
        lemma_greedy_pick_len(s.drop_first(), amount - s[0].value);
    } else {
        lemma_greedy_pick_len(s.drop_first(), amount);
    }
}

/// When the confirmed balance covers the requested amount, the greedy
/// selection does too.
pub proof fn lemma_greedy_pick_covers(s: Seq<UtxoRec>, amount: int)
    requires
        confirmed_total(s) >= amount,
    ensures
        prevout_total(greedy_pick(s, amount)) >= amount,
    decreases s.len(),
{
    if amount <= 0 || s.len() == 0 {
        lemma_utxo_total_nonneg(s);
    } else if spendable(s[0]) {
        lemma_greedy_pick_covers(s.drop_first(), amount - s[0].value);
        let rest = greedy_pick(s.drop_first(), amount - s[0].value);
        let picked = seq![Prevout::of_utxo(s[0])] + rest;
        assert(picked[0] == Prevout::of_utxo(s[0]));
        assert(picked.drop_first() =~= rest);
    } else {
        lemma_greedy_pick_covers(s.drop_first(), amount);
    }
}

/// The whole chain's index cursor: the highest derivation index among the
/// history records of the given chain, or 0 when the chain has none.
pub open spec fn max_chain_index(s: Seq<HistoryRec>, change: bool) -> int
    decreases s.len(),
{
    if s.len() == 0 {
        0
    } else {
        let rest = max_chain_index(s.drop_first(), change);
        let v = if (s[0].ty is Change) == change {
            s[0].index as int
        } else {
            0
        };
        if v >= rest {
            v
        } else {
            rest
        }
    }
}

/// One step of the running maximum over a history set.
pub proof fn lemma_max_chain_index_skip_step(s: Seq<HistoryRec>, i: int, change: bool)
    requires
        0 <= i < s.len(),
    ensures
        max_chain_index(s.skip(i), change) == {
            let rest = max_chain_index(s.skip(i + 1), change);
            let v = if (s[i].ty is Change) == change {
                s[i].index as int
            } else {
                0
            };
            if v >= rest {
                v
            } else {
                rest
            }
        },
{
    assert(s.skip(i).drop_first() =~= s.skip(i + 1));
    assert(s.skip(i)[0] == s[i]);
}

/// The three fee-rate tiers retrieved once per sync, in satoshis per
/// kilo-vbyte.
#[derive(Clone, Copy, PartialEq, Eq, Structural, Debug)]
pub struct FeeTiers {
    pub fast: u64,
    pub medium: u64,
    pub slow: u64,
}

/// The chain tip as last reported by the indexing service.
#[derive(Clone, Copy, PartialEq, Eq, Structural, Debug)]
pub struct BlockInfo {
    pub height: u32,
}

/// Mathematical view of the whole wallet state.
#[verifier::ext_equal]
pub struct WalletStateV {
    pub utxos: Seq<UtxoRec>,
    pub history: Seq<HistoryRec>,
    pub txs: Seq<CachedTxRec>,
    pub last_block: Option<BlockInfo>,
    pub fees: FeeTiers,
    pub next_change: u32,
}

/// The in-memory wallet aggregate: the live UTXO set (unique per
/// outpoint), the history set (unique per record identity), the
/// transaction cache (unique per identifier), the last-seen chain tip, the
/// fee tiers, and the next change index to use when building a
/// transaction.
pub struct WalletState {
    pub utxos: Vec<UtxoTxid>,
    pub history: Vec<HistoryTxid>,
    pub txs: Vec<CachedTx>,
    pub last_block: Option<BlockInfo>,
    pub fees: FeeTiers,
    pub next_change: u32,
}

impl View for WalletState {
    type V = WalletStateV;

    open spec fn view(&self) -> WalletStateV {
        WalletStateV {
            utxos: self.utxos.deep_view(),
            history: self.history.deep_view(),
            txs: self.txs.deep_view(),
            last_block: self.last_block,
            fees: self.fees,
            next_change: self.next_change,
        }
    }
}

impl WalletStateV {
    /// Well-formedness: each collection is keyed uniquely and the change
    /// cursor stays a valid non-hardened index.
    pub open spec fn wf(self) -> bool {
        &&& utxos_unique(self.utxos)
        &&& hist_unique(self.history)
        &&& txs_unique(self.txs)
        &&& self.next_change < 0x8000_0000u32
    }
}

/// Position of the record with the given outpoint in the live UTXO set,
/// if any.
fn find_utxo_pos(v: &Vec<UtxoTxid>, op: OutPoint) -> (r: Option<usize>)
    ensures
        match r {
            Some(i) => (i as int) < v.deep_view().len() && find_first(
                utxo_keys(v.deep_view()),
                op,
            ) == i as int,
            None => find_first(utxo_keys(v.deep_view()), op) == -1,
        },
{
    let ghost s = v.deep_view();
    let mut i: usize = 0;
    while i < v.len()
        invariant
            i <= s.len(),
            s == v.deep_view(),
            forall|j: int| 0 <= j < i ==> s[j].outpoint() != op,
        decreases s.len() - i,
    {
        if v[i].outpoint() == op {
            proof {
                assert(s[i as int] == v@[i as int]@);
                lemma_find_first(utxo_keys(s), op);
                assert(utxo_keys(s)[i as int] == s[i as int].outpoint());
                assert forall|j: int| 0 <= j < i implies utxo_keys(s)[j] != op by {
                    assert(utxo_keys(s)[j] == s[j].outpoint());
                }
                assert(find_first(utxo_keys(s), op) == i);
            }
            return Some(i);
        }
        proof {
            assert(s[i as int] == v@[i as int]@);
        }
        i += 1;
    }
    proof {
        lemma_find_first(utxo_keys(s), op);
        assert forall|j: int| 0 <= j < s.len() implies utxo_keys(s)[j] != op by {
            assert(utxo_keys(s)[j] == s[j].outpoint());
        }
        assert(find_first(utxo_keys(s), op) == -1);
    }
    None
}

/// Position of the history record with the given identity, if any.
fn find_hist_pos(v: &Vec<HistoryTxid>, h: &HistoryTxid) -> (r: Option<usize>)
    ensures
        match r {
            Some(i) => (i as int) < v.deep_view().len() && find_first(
                hist_keys(v.deep_view()),
                hist_key(h@),
            ) == i as int,
            None => find_first(hist_keys(v.deep_view()), hist_key(h@)) == -1,
        },
{
    let ghost s = v.deep_view();
    let mut i: usize = 0;
    while i < v.len()
        invariant
            i <= s.len(),
            s == v.deep_view(),
            forall|j: int| 0 <= j < i ==> hist_key(s[j]) != hist_key(h@),
        decreases s.len() - i,
    {
        proof {
            assert(s[i as int] == v@[i as int]@);
        }
        if v[i].txid == h.txid && v[i].index == h.index && bytes_eq(&v[i].address, &h.address) {
            proof {
                lemma_find_first(hist_keys(s), hist_key(h@));
                assert(hist_keys(s)[i as int] == hist_key(s[i as int]));
                assert(hist_key(s[i as int]) == hist_key(h@));
                assert forall|j: int| 0 <= j < i implies hist_keys(s)[j] != hist_key(h@) by {
                    assert(hist_keys(s)[j] == hist_key(s[j]));
                }
                assert(find_first(hist_keys(s), hist_key(h@)) == i);
            }
            return Some(i);
        }
        i += 1;
    }
    proof {
        lemma_find_first(hist_keys(s), hist_key(h@));
        assert forall|j: int| 0 <= j < s.len() implies hist_keys(s)[j] != hist_key(h@) by {
            assert(hist_keys(s)[j] == hist_key(s[j]));
        }
        assert(find_first(hist_keys(s), hist_key(h@)) == -1);
    }
    None
}

/// Position of the cached transaction with the given identifier, if any.
pub(crate) fn find_tx_pos(v: &Vec<CachedTx>, txid: Txid) -> (r: Option<usize>)
    ensures
        match r {
            Some(i) => (i as int) < v.deep_view().len() && find_first(
                tx_keys(v.deep_view()),
                txid,
            ) == i as int,
            None => find_first(tx_keys(v.deep_view()), txid) == -1,
        },
{
    let ghost s = v.deep_view();
    let mut i: usize = 0;
    while i < v.len()
        invariant
            i <= s.len(),
            s == v.deep_view(),
            forall|j: int| 0 <= j < i ==> s[j].txid != txid,
        decreases s.len() - i,
    {
        proof {
            assert(s[i as int] == v@[i as int]@);
        }
        if v[i].txid == txid {
            proof {
                lemma_find_first(tx_keys(s), txid);
                assert(tx_keys(s)[i as int] == s[i as int].txid);
                assert forall|j: int| 0 <= j < i implies tx_keys(s)[j] != txid by {
                    assert(tx_keys(s)[j] == s[j].txid);
                }
                assert(find_first(tx_keys(s), txid) == i);
            }
            return Some(i);
        }
        i += 1;
    }
    proof {
        lemma_find_first(tx_keys(s), txid);
        assert forall|j: int| 0 <= j < s.len() implies tx_keys(s)[j] != txid by {
            assert(tx_keys(s)[j] == s[j].txid);
        }
        assert(find_first(tx_keys(s), txid) == -1);
    }
    None
}

impl WalletState {
    /// A fresh, empty wallet state.
    pub fn new() -> (r: WalletState)
        ensures
            r@.utxos == Seq::<UtxoRec>::empty(),
            r@.history == Seq::<HistoryRec>::empty(),
            r@.txs == Seq::<CachedTxRec>::empty(),
            r@.last_block is None,
            r@.fees == (FeeTiers { fast: 0, medium: 0, slow: 0 }),
            r@.next_change == 0,
            r@.wf(),
    {
        let r = WalletState {
            utxos: Vec::new(),
            history: Vec::new(),
            txs: Vec::new(),
            last_block: None,
            fees: FeeTiers { fast: 0, medium: 0, slow: 0 },
            next_change: 0,
        };
        proof {
            assert(r@.utxos =~= Seq::<UtxoRec>::empty());
            assert(r@.history =~= Seq::<HistoryRec>::empty());
            assert(r@.txs =~= Seq::<CachedTxRec>::empty());
        }
        r
    }

    /// Record a newly observed chain tip; nothing else changes.
    pub fn update_last_block(&mut self, block: BlockInfo)
        ensures
            final(self)@ == (WalletStateV { last_block: Some(block), ..old(self)@ }),
    {
        self.last_block = Some(block);
    }

    /// Replace the fee tiers; nothing else changes.
    pub fn update_fees(&mut self, fast: u64, medium: u64, slow: u64)
        ensures
            final(self)@ == (WalletStateV {
                fees: FeeTiers { fast, medium, slow },
                ..old(self)@
            }),
    {
        self.fees = FeeTiers { fast, medium, slow };
    }

    /// Insert one UTXO record, merging by outpoint identity.
    fn upsert_utxo_exec(&mut self, u: UtxoTxid)
        ensures
            final(self)@ == (WalletStateV {
                utxos: upsert_utxo(old(self)@.utxos, u@),
                ..old(self)@
            }),
    {
        let ghost s = self.utxos.deep_view();
        let op = u.outpoint();
        match find_utxo_pos(&self.utxos, op) {
            Some(i) => {
                self.utxos.set(i, u);
                proof {
                    assert(self.utxos.deep_view() =~= s.update(i as int, u@));
                    assert(self@ =~= (WalletStateV {
                        utxos: upsert_utxo(old(self)@.utxos, u@),
                        ..old(self)@
                    }));
                }
            },
            None => {
                self.utxos.push(u);
                proof {
                    assert(self.utxos.deep_view() =~= s.push(u@));
                    assert(self@ =~= (WalletStateV {
                        utxos: upsert_utxo(old(self)@.utxos, u@),
                        ..old(self)@
                    }));
                }
            },
        }
    }

    /// Apply a UTXO batch: records are merged into the live UTXO set by
    /// outpoint identity, a record replacing the stored one under the same
    /// outpoint; nothing else changes.
    pub fn update_utxos(&mut self, batch: Vec<UtxoTxid>)
        ensures
            final(self)@ == (WalletStateV {
                utxos: merge_utxos(old(self)@.utxos, batch.deep_view()),
                ..old(self)@
            }),
    {
        let ghost init = old(self)@;
        let ghost bv = batch.deep_view();
        let mut b = batch;
        while b.len() > 0
            invariant
                merge_utxos(self@.utxos, b.deep_view()) == merge_utxos(init.utxos, bv),
                self@ == (WalletStateV { utxos: self@.utxos, ..init }),
            decreases b@.len(),
        {
            let ghost pre = b.deep_view();
            let u = b.remove(0);
            proof {
                assert(b.deep_view() =~= pre.drop_first());
                assert(u@ == pre[0]);
            }
            self.upsert_utxo_exec(u);
        }
        proof {
            assert(b.deep_view().len() == 0);
            assert(merge_utxos(self@.utxos, b.deep_view()) == self@.utxos);
            assert(final(self)@ =~= (WalletStateV {
                utxos: merge_utxos(init.utxos, bv),
                ..init
            }));
        }
    }

    /// Insert one history record, merging by record identity.
    fn upsert_hist_exec(&mut self, h: HistoryTxid)
        ensures
            final(self)@ == (WalletStateV {
                history: upsert_hist(old(self)@.history, h@),
                ..old(self)@
            }),
    {
        let ghost s = self.history.deep_view();
        match find_hist_pos(&self.history, &h) {
            Some(i) => {
                self.history.set(i, h);
                proof {
                    assert(self.history.deep_view() =~= s.update(i as int, h@));
                    assert(self@ =~= (WalletStateV {
                        history: upsert_hist(old(self)@.history, h@),
                        ..old(self)@
                    }));
                }
            },
            None => {
                self.history.push(h);
                proof {
                    assert(self.history.deep_view() =~= s.push(h@));
                    assert(self@ =~= (WalletStateV {
                        history: upsert_hist(old(self)@.history, h@),
                        ..old(self)@
                    }));
                }
            },
        }
    }

    /// Apply a history batch: records are merged into the history set by
    /// (transaction, address, index) identity, a record replacing the
    /// stored one under the same identity, so that a later height
    /// observation supersedes an earlier pending one; nothing else
    /// changes.
    pub fn update_history(&mut self, batch: Vec<HistoryTxid>)
        ensures
            final(self)@ == (WalletStateV {
                history: merge_hist(old(self)@.history, batch.deep_view()),
                ..old(self)@
            }),
    {
        let ghost init = old(self)@;
        let ghost bv = batch.deep_view();
        let mut b = batch;
        while b.len() > 0
            invariant
                merge_hist(self@.history, b.deep_view()) == merge_hist(init.history, bv),
                self@ == (WalletStateV { history: self@.history, ..init }),
            decreases b@.len(),
        {
            let ghost pre = b.deep_view();
            let h = b.remove(0);
            proof {
                assert(b.deep_view() =~= pre.drop_first());
                assert(h@ == pre[0]);
            }
            self.upsert_hist_exec(h);
        }
        proof {
            assert(b.deep_view().len() == 0);
            assert(merge_hist(self@.history, b.deep_view()) == self@.history);
            assert(final(self)@ =~= (WalletStateV {
                history: merge_hist(init.history, bv),
                ..init
            }));
        }
    }

    /// Insert one fetched transaction, merging by identifier.
    fn upsert_tx_exec(&mut self, t: CachedTx)
        ensures
            final(self)@ == (WalletStateV {
                txs: upsert_tx(old(self)@.txs, t@),
                ..old(self)@
            }),
    {
        let ghost s = self.txs.deep_view();
        match find_tx_pos(&self.txs, t.txid) {
            Some(i) => {
                self.txs.set(i, t);
                proof {
                    assert(self.txs.deep_view() =~= s.update(i as int, t@));
                    assert(self@ =~= (WalletStateV {
                        txs: upsert_tx(old(self)@.txs, t@),
                        ..old(self)@
                    }));
                }
            },
            None => {
                self.txs.push(t);
                proof {
                    assert(self.txs.deep_view() =~= s.push(t@));
                    assert(self@ =~= (WalletStateV {
                        txs: upsert_tx(old(self)@.txs, t@),
                        ..old(self)@
                    }));
                }
            },
        }
    }

    /// Apply a fetched-transaction batch: each transaction is stored in
    /// the cache under its identifier, replacing any cached copy; nothing
    /// else changes.
    pub fn update_transactions(&mut self, batch: Vec<CachedTx>)
        ensures
            final(self)@ == (WalletStateV {
                txs: merge_txs(old(self)@.txs, batch.deep_view()),
                ..old(self)@
            }),
    {
        let ghost init = old(self)@;
        let ghost bv = batch.deep_view();
        let mut b = batch;
        while b.len() > 0
            invariant
                merge_txs(self@.txs, b.deep_view()) == merge_txs(init.txs, bv),
                self@ == (WalletStateV { txs: self@.txs, ..init }),
            decreases b@.len(),
        {
            let ghost pre = b.deep_view();
            let t = b.remove(0);
            proof {
                assert(b.deep_view() =~= pre.drop_first());
                assert(t@ == pre[0]);
            }
            self.upsert_tx_exec(t);
        }
        proof {
            assert(b.deep_view().len() == 0);
            assert(merge_txs(self@.txs, b.deep_view()) == self@.txs);
            assert(final(self)@ =~= (WalletStateV {
                txs: merge_txs(init.txs, bv),
                ..init
            }));
        }
    }

    /// Total value of the wallet's live UTXO set, in satoshis.
    pub fn balance(&self) -> (r: u64)
        requires
            utxo_total(self@.utxos) <= u64::MAX,
        ensures
            r == utxo_total(self@.utxos),
    {
        let ghost s = self.utxos.deep_view();
        let mut total: u64 = 0;
        let mut i: usize = 0;
        proof {
            assert(s.skip(0) =~= s);
        }
        while i < self.utxos.len()
            invariant
                i <= s.len(),
                s == self.utxos.deep_view(),
                utxo_total(s) <= u64::MAX,
                total + utxo_total(s.skip(i as int)) == utxo_total(s),
            decreases s.len() - i,
        {
            proof {
                assert(s[i as int] == self.utxos@[i as int]@);
                lemma_utxo_total_skip_step(s, i as int);
                lemma_utxo_total_nonneg(s.skip(i as int + 1));
            }
            total = total + self.utxos[i].value;
            i += 1;
        }
        proof {
            assert(s.skip(s.len() as int) =~= Seq::<UtxoRec>::empty());
        }
        total
    }

    /// Select confirmed UTXOs, in storage order, until their value covers
    /// `amount` satoshis. Returns the selected prevouts, or nothing
    /// exactly when the confirmed balance cannot cover the amount.
    pub fn coinselect(&self, amount: u64) -> (r: Option<Vec<Prevout>>)
        ensures
            r is Some <==> confirmed_total(self@.utxos) >= amount,
            r matches Some(sel) ==> {
                &&& sel@ == greedy_pick(self@.utxos, amount as int)
                &&& prevout_total(sel@) >= amount
            },
    {
        let ghost s = self.utxos.deep_view();
        let mut sel: Vec<Prevout> = Vec::new();
        let mut total: u128 = 0;
        let mut i: usize = 0;
        proof {
            assert(sel@ =~= Seq::<Prevout>::empty());
            assert(prevout_total(Seq::<Prevout>::empty()) == 0);
            assert(s.skip(0) =~= s);
            assert(s.take(0) =~= Seq::<UtxoRec>::empty());
            assert(confirmed_total(Seq::<UtxoRec>::empty()) == 0);
        }
        while i < self.utxos.len() && total < amount as u128
            invariant
                i <= s.len(),
                s == self.utxos.deep_view(),
                total == prevout_total(sel@),
                total == confirmed_total(s.take(i as int)),
                confirmed_total(s.take(i as int)) + confirmed_total(s.skip(i as int))
                    == confirmed_total(s),
                total < amount as u128 ==> greedy_pick(s, amount as int) == sel@ + greedy_pick(
                    s.skip(i as int),
                    amount - total,
                ),
                total >= amount as u128 ==> sel@ == greedy_pick(s, amount as int),
            decreases s.len() - i,
        {
            let ghost pre_sel = sel@;
            let ghost pre_total = total as int;
            proof {
                assert(s[i as int] == self.utxos@[i as int]@);
                assert(s.skip(i as int)[0] == s[i as int]);
                assert(s.skip(i as int).drop_first() =~= s.skip(i as int + 1));
                assert(s.take(i as int + 1) =~= s.take(i as int).push(s[i as int]));
                lemma_confirmed_total_push(s.take(i as int), s[i as int]);
                lemma_utxo_total_skip_step(s, i as int);
            }
            if self.utxos[i].height >= 1 {
                let p = Prevout::from_utxo(&self.utxos[i]);
                sel.push(p);
                total = total + self.utxos[i].value as u128;
                proof {
                    lemma_prevout_total_push(pre_sel, p);
                    let rem = amount - pre_total;
                    let g = greedy_pick(s.skip(i as int), rem);
                    assert(g == seq![p] + greedy_pick(s.skip(i as int + 1), rem - s[i as int].value));
                    if total >= amount as u128 {
                        assert(rem - s[i as int].value <= 0);
                        assert(greedy_pick(s.skip(i as int + 1), rem - s[i as int].value)
                            =~= Seq::<Prevout>::empty());
                        assert(sel@ =~= pre_sel + g);
                    } else {
                        assert(sel@ + greedy_pick(s.skip(i as int + 1), rem - s[i as int].value)
                            =~= pre_sel + g);
                    }
                }
            } else {
                proof {
                    assert(greedy_pick(s.skip(i as int), amount - pre_total) == greedy_pick(
                        s.skip(i as int + 1),
                        amount - pre_total,
                    ));
                }
            }
            i += 1;
        }
        if total >= amount as u128 {
            proof {
                lemma_utxo_total_nonneg(s.skip(i as int));
            }
            Some(sel)
        } else {
            proof {
                assert(i == s.len());
                assert(s.take(s.len() as int) =~= s);
            }
            None
        }
    }

    /// The highest derivation index the given chain's history has touched
    /// (`change` selects the change chain), or 0 when it has none: the
    /// chain's next free index after a completed sync.
    pub fn next_free_index(&self, change: bool) -> (r: u32)
        ensures
            r == max_chain_index(self@.history, change),
    {
        let ghost s = self.history.deep_view();
        let mut best: u32 = 0;
        let mut i: usize = 0;
        proof {
            assert(s.skip(0) =~= s);
        }
        while i < self.history.len()
            invariant
                i <= s.len(),
                s == self.history.deep_view(),
                max_chain_index(s, change) == {
                    let rest = max_chain_index(s.skip(i as int), change);
                    if best >= rest {
                        best as int
                    } else {
                        rest
                    }
                },
            decreases s.len() - i,
        {
            proof {
                assert(s[i as int] == self.history@[i as int]@);
                lemma_max_chain_index_skip_step(s, i as int, change);
            }
            let on_this_chain = match self.history[i].ty {
                crate::records::HistoryType::Change => change,
                _ => !change,
            };
            if on_this_chain && self.history[i].index > best {
                best = self.history[i].index;
            }
            i += 1;
        }
        proof {
            assert(s.skip(s.len() as int) =~= Seq::<HistoryRec>::empty());
        }
        best
    }

    /// The change index the next built transaction will consume.
    pub fn next_change_index(&self) -> (r: u32)
        ensures
            r == self@.next_change,
    {
        self.next_change
    }

    /// Record that a built transaction consumed the given change index, so
    /// that no later construction reuses it. Returns whether the cursor
    /// moved.
    pub fn update_next_change_index(&mut self, used: u32) -> (r: bool)
        requires
            used < 0x7FFF_FFFFu32,
        ensures
            r == (used >= old(self)@.next_change),
            final(self)@ == (WalletStateV {
                next_change: if used >= old(self)@.next_change {
                    (used + 1) as u32
                } else {
                    old(self)@.next_change
                },
                ..old(self)@
            }),
    {
        if used >= self.next_change {
            self.next_change = used + 1;
            true
        } else {
            proof {
                assert(self@ =~= (WalletStateV { next_change: self@.next_change, ..old(self)@ }));
            }
            false
        }
    }

    /// The live UTXO set.
    pub fn utxos(&self) -> (r: &Vec<UtxoTxid>)
        ensures
            r.deep_view() == self@.utxos,
    {
        &self.utxos
    }

    /// The history set.
    pub fn history(&self) -> (r: &Vec<HistoryTxid>)
        ensures
            r.deep_view() == self@.history,
    {
        &self.history
    }

    /// The transaction cache.
    pub fn transactions(&self) -> (r: &Vec<CachedTx>)
        ensures
            r.deep_view() == self@.txs,
    {
        &self.txs
    }

    /// The number of cached transactions.
    pub fn tx_count(&self) -> (r: usize)
        ensures
            r == self@.txs.len(),
    {
        self.txs.len()
    }

    /// The last-seen chain tip, if any was reported yet.
    pub fn last_block(&self) -> (r: Option<BlockInfo>)
        ensures
            r == self@.last_block,
    {
        self.last_block
    }

    /// The current fee tiers.
    pub fn fees(&self) -> (r: FeeTiers)
        ensures
            r == self@.fees,
    {
        self.fees
    }
}

/// Appending a record extends the confirmed total by its value when it is
/// spendable.
pub proof fn lemma_confirmed_total_push(s: Seq<UtxoRec>, u: UtxoRec)
    ensures
        confirmed_total(s.push(u)) == confirmed_total(s) + (if spendable(u) {
            u.value as int
        } else {
            0
        }),
    decreases s.len(),
{
    if s.len() == 0 {
        assert(s.push(u).drop_first() =~= Seq::<UtxoRec>::empty());
        assert(confirmed_total(Seq::<UtxoRec>::empty()) == 0);
        assert(s.push(u)[0] == u);
    } else {
        assert(s.push(u)[0] == s[0]);
        assert(s.push(u).drop_first() =~= s.drop_first().push(u));
        lemma_confirmed_total_push(s.drop_first(), u);
    }
}

} // verus!
