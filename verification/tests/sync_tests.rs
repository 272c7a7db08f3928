use mycitadel::records::{CachedTx, HistoryType, Txid};
use mycitadel::scanner::{AddrData, ScriptHist, ScriptUtxo};
use mycitadel::store::{BlockInfo, FeeTiers, WalletState};
use mycitadel::sync::{
    electrum_sync, handle_electrum, scan_chain, Cmd, ChainSnapshot, ElectrumSec, ElectrumServer,
    ElectrumState, Msg, WorkerAction, WorkerState,
};

fn txid(n: u64) -> Txid {
    Txid { w0: n, w1: 0, w2: 0, w3: 0 }
}

fn server(host: &str) -> ElectrumServer {
    ElectrumServer { host: host.to_string(), port: 50001, sec: ElectrumSec::Tls }
}

fn empty_snapshot() -> ChainSnapshot {
    ChainSnapshot {
        tip: BlockInfo { height: 733961 },
        fees: FeeTiers { fast: 5000, medium: 2000, slow: 1000 },
        change: vec![],
        receiving: vec![],
        txs: vec![],
    }
}

#[test]
fn zero_history_sync_emits_one_empty_batch_per_chain() {
    let events = electrum_sync(&empty_snapshot());
    assert_eq!(
        events,
        vec![
            Msg::Connecting,
            Msg::Connected,
            Msg::LastBlock(BlockInfo { height: 733961 }),
            Msg::FeeEstimate(5000, 2000, 1000),
            Msg::HistoryBatch(vec![], 0),
            Msg::HistoryBatch(vec![], 1),
            Msg::Complete,
        ]
    );
}

#[test]
fn sync_with_history_emits_batches_then_transactions() {
    let snapshot = ChainSnapshot {
        tip: BlockInfo { height: 100 },
        fees: FeeTiers { fast: 3, medium: 2, slow: 1 },
        change: vec![AddrData {
            script: vec![0xC0],
            history: vec![ScriptHist { txid: txid(1), height: 4 }],
            utxos: vec![ScriptUtxo { txid: txid(1), height: 4, vout: 0, value: 900 }],
        }],
        receiving: vec![],
        txs: vec![CachedTx { txid: txid(1), raw: vec![0xAB, 0xCD] }],
    };
    let events = electrum_sync(&snapshot);
    assert_eq!(events.len(), 10);
    assert_eq!(events[0], Msg::Connecting);
    assert_eq!(events[1], Msg::Connected);
    assert_eq!(events[2], Msg::LastBlock(BlockInfo { height: 100 }));
    assert_eq!(events[3], Msg::FeeEstimate(3, 2, 1));
    // Window 0 of the change chain: one history and one UTXO batch.
    match &events[4] {
        Msg::HistoryBatch(recs, 0) => {
            assert_eq!(recs.len(), 1);
            assert_eq!(recs[0].txid, txid(1));
            assert_eq!(recs[0].ty, HistoryType::Change);
        }
        other => panic!("expected history batch, got {:?}", other),
    }
    match &events[5] {
        Msg::UtxoBatch(recs, 1) => {
            assert_eq!(recs.len(), 1);
            assert_eq!(recs[0].value, 900);
            assert!(recs[0].change);
        }
        other => panic!("expected utxo batch, got {:?}", other),
    }
    // The halting empty window of the change chain, then of receiving.
    assert_eq!(events[6], Msg::HistoryBatch(vec![], 2));
    assert_eq!(events[7], Msg::HistoryBatch(vec![], 3));
    // One transaction batch, complete fraction 1/1.
    assert_eq!(
        events[8],
        Msg::TxBatch(vec![CachedTx { txid: txid(1), raw: vec![0xAB, 0xCD] }], 1, 1)
    );
    assert_eq!(events[9], Msg::Complete);
}

#[test]
fn scan_halts_at_first_empty_window_and_reports_highest_index() {
    // 46 addresses: history at indexes 3 and 17 (window 0) and at 45
    // (window 2); window 1 is empty, so scanning must stop there and
    // never reach index 45.
    let mut chain: Vec<AddrData> = (0..46)
        .map(|i| AddrData { script: vec![i as u8], history: vec![], utxos: vec![] })
        .collect();
    chain[3].history.push(ScriptHist { txid: txid(1), height: 5 });
    chain[17].history.push(ScriptHist { txid: txid(2), height: 6 });
    chain[45].history.push(ScriptHist { txid: txid(3), height: 7 });

    let mut events = Vec::new();
    let mut txids = Vec::new();
    let (next_free, counter) = scan_chain(&chain, false, 0, &mut events, &mut txids);
    assert_eq!(next_free, 17);
    assert_eq!(counter, 3);
    assert_eq!(events.len(), 3);
    match &events[0] {
        Msg::HistoryBatch(recs, 0) => {
            assert_eq!(recs.len(), 2);
            assert_eq!(recs[0].index, 3);
            assert_eq!(recs[1].index, 17);
        }
        other => panic!("expected window 0 history batch, got {:?}", other),
    }
    assert!(matches!(&events[1], Msg::UtxoBatch(recs, 1) if recs.is_empty()));
    // The halting batch is window 1, empty; index 45 was never scanned.
    assert_eq!(events[2], Msg::HistoryBatch(vec![], 2));
    assert_eq!(txids.len(), 2);
}

#[test]
fn update_then_queued_sync_both_target_new_endpoint() {
    let mut w = WorkerState { server: server("old.example") };
    let a1 = w.step(Some(Cmd::Update(server("new.example"))));
    assert_eq!(a1, WorkerAction::RunFullSync);
    assert_eq!(w.server.host, "new.example");
    let a2 = w.step(Some(Cmd::Sync));
    assert_eq!(a2, WorkerAction::RunFullSync);
    assert_eq!(w.server.host, "new.example");
}

#[test]
fn worker_reports_closed_channel_as_fatal() {
    let mut w = WorkerState { server: server("x") };
    assert_eq!(w.step(None), WorkerAction::Fatal);
    assert_eq!(w.step(Some(Cmd::Pull)), WorkerAction::PullTip);
}

#[test]
fn consumer_applies_the_zero_history_stream() {
    let mut wallet = WalletState::new();
    let srv = server("e.example");
    let mut states = Vec::new();
    for msg in electrum_sync(&empty_snapshot()) {
        let out = handle_electrum(&mut wallet, msg, &srv);
        assert!(!out.fatal);
        if let Some(s) = out.state {
            states.push(s);
        }
    }
    assert_eq!(
        states,
        vec![
            ElectrumState::Connecting,
            ElectrumState::QueryingBlockchainState,
            ElectrumState::RetrievingFees,
            ElectrumState::RetrievingHistory(0),
            ElectrumState::RetrievingHistory(0),
            ElectrumState::RetrievingHistory(1),
            ElectrumState::Complete(ElectrumSec::Tls),
        ]
    );
    assert_eq!(wallet.last_block().unwrap().height, 733961);
    assert_eq!(wallet.fees().fast, 5000);
    assert!(wallet.utxos().is_empty());
    assert!(wallet.history().is_empty());
}

#[test]
fn consumer_flags_broken_channel_and_error() {
    let mut wallet = WalletState::new();
    let srv = server("e.example");
    let out = handle_electrum(&mut wallet, Msg::ChannelDisconnected, &srv);
    assert!(out.fatal);
    assert!(out.state.is_none());
    let out = handle_electrum(&mut wallet, Msg::Error("timed out".to_string()), &srv);
    assert!(!out.fatal);
    assert_eq!(out.state, Some(ElectrumState::Error("timed out".to_string())));
}
