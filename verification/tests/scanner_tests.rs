use mycitadel::records::{HistoryType, Txid};
use mycitadel::scanner::{window_history_records, window_utxo_records, AddrData, ScriptHist,
    ScriptUtxo};

fn txid(n: u64) -> Txid {
    Txid { w0: n, w1: 0, w2: 0, w3: 0 }
}

fn addr(script: Vec<u8>, hist: Vec<ScriptHist>, utxos: Vec<ScriptUtxo>) -> AddrData {
    AddrData { script, history: hist, utxos }
}

#[test]
fn receiving_windows_classify_incoming() {
    let chain = vec![
        addr(vec![0xA0], vec![ScriptHist { txid: txid(1), height: 5 }], vec![]),
        addr(vec![0xA1], vec![], vec![]),
        addr(
            vec![0xA2],
            vec![
                ScriptHist { txid: txid(2), height: -1 },
                ScriptHist { txid: txid(3), height: 9 },
            ],
            vec![],
        ),
    ];
    let recs = window_history_records(&chain, false, 0);
    assert_eq!(recs.len(), 3);
    assert_eq!(recs[0].txid, txid(1));
    assert_eq!(recs[0].index, 0);
    assert_eq!(recs[0].address, vec![0xA0]);
    assert_eq!(recs[0].ty, HistoryType::Incoming);
    assert_eq!(recs[1].txid, txid(2));
    assert_eq!(recs[1].index, 2);
    assert_eq!(recs[1].height, -1);
    assert_eq!(recs[2].txid, txid(3));
    assert_eq!(recs[2].address, vec![0xA2]);
}

#[test]
fn change_windows_classify_change() {
    let chain = vec![addr(vec![0xB0], vec![ScriptHist { txid: txid(4), height: 1 }], vec![])];
    let recs = window_history_records(&chain, true, 0);
    assert_eq!(recs.len(), 1);
    assert_eq!(recs[0].ty, HistoryType::Change);
}

#[test]
fn windows_beyond_the_chain_are_empty() {
    let chain = vec![addr(vec![0xC0], vec![ScriptHist { txid: txid(5), height: 1 }], vec![])];
    assert!(window_history_records(&chain, false, 20).is_empty());
    assert!(window_utxo_records(&chain, false, 20).is_empty());
}

#[test]
fn utxo_windows_carry_value_and_terminal() {
    let chain = vec![
        addr(vec![0xD0], vec![], vec![]),
        addr(
            vec![0xD1],
            vec![],
            vec![ScriptUtxo { txid: txid(6), height: 8, vout: 2, value: 777 }],
        ),
    ];
    let recs = window_utxo_records(&chain, true, 0);
    assert_eq!(recs.len(), 1);
    assert_eq!(recs[0].txid, txid(6));
    assert_eq!(recs[0].vout, 2);
    assert_eq!(recs[0].value, 777);
    assert_eq!(recs[0].index, 1);
    assert!(recs[0].change);
    assert_eq!(recs[0].address, vec![0xD1]);
}
