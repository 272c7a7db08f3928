use mycitadel::records::{HistoryType, HistoryTxid, Txid, UtxoTxid};
use mycitadel::store::{BlockInfo, WalletState};

fn txid(n: u64) -> Txid {
    Txid { w0: n, w1: 0, w2: 0, w3: 0 }
}

fn utxo(n: u64, vout: u32, height: u32, value: u64) -> UtxoTxid {
    UtxoTxid {
        txid: txid(n),
        height,
        vout,
        value,
        address: vec![n as u8],
        index: 0,
        change: false,
    }
}

fn hist(n: u64, height: i32, index: u32, ty: HistoryType) -> HistoryTxid {
    HistoryTxid { txid: txid(n), height, address: vec![index as u8], index, ty }
}

#[test]
fn utxo_batch_application_is_idempotent() {
    let mut w = WalletState::new();
    w.update_utxos(vec![utxo(1, 0, 3, 100)]);
    let batch = vec![utxo(1, 0, 5, 100), utxo(2, 1, 0, 250)];
    w.update_utxos(batch.clone());
    let once = w.utxos().clone();
    w.update_utxos(batch);
    assert_eq!(*w.utxos(), once);
    assert_eq!(once.len(), 2);
    assert_eq!(once[0].height, 5);
    assert_eq!(once[1].value, 250);
}

#[test]
fn utxo_batch_with_duplicate_outpoints_is_still_idempotent() {
    let mut w = WalletState::new();
    // The same outpoint twice in one batch: the later record wins, and
    // a second application changes nothing.
    let batch = vec![utxo(1, 0, 1, 100), utxo(1, 0, 9, 100)];
    w.update_utxos(batch.clone());
    let once = w.utxos().clone();
    w.update_utxos(batch);
    assert_eq!(*w.utxos(), once);
    assert_eq!(once.len(), 1);
    assert_eq!(once[0].height, 9);
}

#[test]
fn utxo_merge_replaces_by_outpoint() {
    let mut w = WalletState::new();
    w.update_utxos(vec![utxo(1, 0, 0, 100), utxo(1, 1, 0, 200)]);
    // Same txid, vout 0: confirmation replaces the unconfirmed record.
    w.update_utxos(vec![utxo(1, 0, 7, 100)]);
    assert_eq!(w.utxos().len(), 2);
    assert_eq!(w.utxos()[0].height, 7);
    assert_eq!(w.utxos()[1].height, 0);
}

#[test]
fn history_merge_replaces_by_identity() {
    let mut w = WalletState::new();
    w.update_history(vec![hist(1, -1, 4, HistoryType::Incoming)]);
    // The same (txid, address, index) seen confirmed supersedes pending.
    w.update_history(vec![hist(1, 42, 4, HistoryType::Incoming)]);
    assert_eq!(w.history().len(), 1);
    assert_eq!(w.history()[0].height, 42);
    // A different index is a distinct record.
    w.update_history(vec![hist(1, 42, 5, HistoryType::Incoming)]);
    assert_eq!(w.history().len(), 2);
}

#[test]
fn balance_sums_all_utxos() {
    let mut w = WalletState::new();
    assert_eq!(w.balance(), 0);
    w.update_utxos(vec![utxo(1, 0, 3, 600), utxo(2, 0, 0, 400)]);
    assert_eq!(w.balance(), 1000);
}

#[test]
fn coinselect_takes_confirmed_in_order() {
    let mut w = WalletState::new();
    w.update_utxos(vec![utxo(1, 0, 1, 600), utxo(2, 0, 0, 400), utxo(3, 0, 2, 500)]);
    let sel = w.coinselect(1000).expect("confirmed balance suffices");
    assert_eq!(sel.len(), 2);
    assert_eq!(sel[0].amount, 600);
    assert_eq!(sel[1].amount, 500);
    assert!(sel.iter().map(|p| p.amount).sum::<u64>() >= 1000);
}

#[test]
fn coinselect_fails_beyond_confirmed_balance() {
    let mut w = WalletState::new();
    w.update_utxos(vec![utxo(1, 0, 1, 600), utxo(2, 0, 0, 400), utxo(3, 0, 2, 500)]);
    // 400 of the 1500 total are unconfirmed.
    assert!(w.coinselect(1200).is_none());
    assert!(w.coinselect(1100).is_some());
}

#[test]
fn next_free_index_is_per_chain_maximum() {
    let mut w = WalletState::new();
    assert_eq!(w.next_free_index(false), 0);
    assert_eq!(w.next_free_index(true), 0);
    w.update_history(vec![
        hist(1, 10, 7, HistoryType::Incoming),
        hist(2, 11, 5, HistoryType::Change),
        hist(3, 12, 3, HistoryType::Incoming),
    ]);
    assert_eq!(w.next_free_index(false), 7);
    assert_eq!(w.next_free_index(true), 5);
}

#[test]
fn change_cursor_never_moves_backwards() {
    let mut w = WalletState::new();
    assert_eq!(w.next_change_index(), 0);
    assert!(w.update_next_change_index(3));
    assert_eq!(w.next_change_index(), 4);
    assert!(!w.update_next_change_index(2));
    assert_eq!(w.next_change_index(), 4);
    assert!(w.update_next_change_index(4));
    assert_eq!(w.next_change_index(), 5);
}

#[test]
fn tip_and_fees_are_plain_replacements() {
    let mut w = WalletState::new();
    assert!(w.last_block().is_none());
    w.update_last_block(BlockInfo { height: 733961 });
    assert_eq!(w.last_block().unwrap().height, 733961);
    w.update_fees(5000, 3000, 1000);
    let f = w.fees();
    assert_eq!((f.fast, f.medium, f.slow), (5000, 3000, 1000));
}

#[test]
fn transaction_cache_keeps_one_copy_per_txid() {
    let mut w = WalletState::new();
    w.update_transactions(vec![mycitadel::records::CachedTx { txid: txid(1), raw: vec![1] }]);
    w.update_transactions(vec![
        mycitadel::records::CachedTx { txid: txid(1), raw: vec![1] },
        mycitadel::records::CachedTx { txid: txid(2), raw: vec![2] },
    ]);
    assert_eq!(w.tx_count(), 2);
    assert_eq!(w.transactions()[0].raw, vec![1]);
    assert_eq!(w.transactions()[1].raw, vec![2]);
}
