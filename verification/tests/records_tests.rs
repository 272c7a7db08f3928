use mycitadel::records::{
    bytes_eq, HistoryType, HistoryTxid, OutPoint, Prevout, Txid, UtxoTxid,
};

fn txid(n: u64) -> Txid {
    Txid { w0: n, w1: 0, w2: 0, w3: 0 }
}

#[test]
fn icon_names_match_classification() {
    assert_eq!(
        HistoryType::Incoming.icon_name(),
        "media-playlist-consecutive-symbolic"
    );
    assert_eq!(HistoryType::Outcoming.icon_name(), "mail-send-symbolic");
    assert_eq!(HistoryType::Change.icon_name(), "view-refresh-symbolic");
}

#[test]
fn outpoint_projects_txid_and_vout() {
    let u = UtxoTxid {
        txid: txid(7),
        height: 5,
        vout: 3,
        value: 1000,
        address: vec![1, 2, 3],
        index: 9,
        change: false,
    };
    assert_eq!(u.outpoint(), OutPoint { txid: txid(7), vout: 3 });
}

#[test]
fn prevout_projection_keeps_selection_fields() {
    let u = UtxoTxid {
        txid: txid(8),
        height: 2,
        vout: 1,
        value: 5500,
        address: vec![4, 5],
        index: 11,
        change: true,
    };
    let p = Prevout::from(&u);
    assert_eq!(p.outpoint, OutPoint { txid: txid(8), vout: 1 });
    assert_eq!(p.amount, 5500);
    assert!(p.change);
    assert_eq!(p.index, 11);
}

#[test]
fn byte_vectors_compare_by_content() {
    assert!(bytes_eq(&vec![1, 2, 3], &vec![1, 2, 3]));
    assert!(!bytes_eq(&vec![1, 2, 3], &vec![1, 2, 4]));
    assert!(!bytes_eq(&vec![1, 2], &vec![1, 2, 3]));
    assert!(bytes_eq(&vec![], &vec![]));
}

#[test]
fn history_record_clone_is_deep() {
    let h = HistoryTxid {
        txid: txid(1),
        height: -1,
        address: vec![9, 9],
        index: 0,
        ty: HistoryType::Incoming,
    };
    let c = h.clone();
    assert_eq!(c, h);
}

#[test]
fn pending_and_mempool_labels() {
    let h = HistoryTxid {
        txid: txid(1),
        height: -1,
        address: vec![],
        index: 0,
        ty: HistoryType::Incoming,
    };
    assert_eq!(h.mining_info(), "pending");
    let u = UtxoTxid {
        txid: txid(1),
        height: 0,
        vout: 0,
        value: 1,
        address: vec![],
        index: 0,
        change: false,
    };
    assert_eq!(u.mining_info(), "mempool");
}

#[test]
fn confirmed_mining_info_is_a_rendered_date() {
    let h = HistoryTxid {
        txid: txid(1),
        height: 733961,
        address: vec![],
        index: 0,
        ty: HistoryType::Incoming,
    };
    let info = h.mining_info();
    assert!(!info.is_empty());
    assert_ne!(info, "pending");
    // The reference block was mined in 2022 in every time zone.
    assert!(info.starts_with("2022-"));
}
