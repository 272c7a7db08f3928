use mycitadel::builder::{compose_psbt, BeneficiaryOutput, PayError, DEFAULT_SEQUENCE};
use mycitadel::records::{Txid, UtxoTxid};
use mycitadel::store::WalletState;

fn txid(n: u64) -> Txid {
    Txid { w0: n, w1: 0, w2: 0, w3: 0 }
}

fn utxo(n: u64, height: u32, value: u64) -> UtxoTxid {
    UtxoTxid {
        txid: txid(n),
        height,
        vout: 0,
        value,
        address: vec![n as u8],
        index: n as u32,
        change: false,
    }
}

fn beneficiary(value: u64) -> BeneficiaryOutput {
    // A 22-byte script, the size of a P2WPKH output.
    BeneficiaryOutput { script: vec![0; 22], value }
}

#[test]
fn fee_converges_to_the_exact_fixed_point() {
    let mut w = WalletState::new();
    w.update_utxos(vec![utxo(1, 3, 1_000_000)]);
    // One input, one 22-byte output: the unsigned transaction is
    // 4 + 1 + 41 + 1 + 31 + 4 = 82 bytes = 328 weight units; with a
    // satisfaction weight of 272 that is 600 weight units. At
    // 25_000 sat/kvb the charge is ceil(25_000 * 600 / 4000) = 3750.
    let t = compose_psbt(&w, &vec![beneficiary(50_000)], 25_000, 272, 0)
        .expect("construction converges");
    assert_eq!(t.fee, 3750);
    assert_eq!(t.version, 1);
    assert_eq!(t.lock_time, 0);
    assert_eq!(t.change_index, 0);
    assert_eq!(t.inputs.len(), 1);
    assert_eq!(t.inputs[0].outpoint.txid, txid(1));
    assert_eq!(t.inputs[0].seq_no, DEFAULT_SEQUENCE);
    assert!(!t.inputs[0].change);
    assert_eq!(t.outputs, vec![beneficiary(50_000)]);
    // Selected value covers outputs plus the converged fee.
    assert!(1_000_000 >= 50_000 + t.fee);
}

#[test]
fn zero_spendable_balance_is_insufficient_funds() {
    let w = WalletState::new();
    let r = compose_psbt(&w, &vec![beneficiary(50_000)], 25_000, 272, 0);
    assert_eq!(r.unwrap_err(), PayError::InsufficientFunds);
}

#[test]
fn unconfirmed_balance_does_not_count() {
    let mut w = WalletState::new();
    w.update_utxos(vec![utxo(1, 0, 1_000_000)]);
    let r = compose_psbt(&w, &vec![beneficiary(50_000)], 25_000, 272, 0);
    assert_eq!(r.unwrap_err(), PayError::InsufficientFunds);
}

#[test]
fn fee_below_dust_floor_never_stabilizes() {
    let mut w = WalletState::new();
    w.update_utxos(vec![utxo(1, 3, 1_000_000)]);
    // A zero rate recomputes a zero fee forever, never reaching the
    // dust floor the stop condition demands.
    let r = compose_psbt(&w, &vec![beneficiary(50_000)], 0, 272, 0);
    assert_eq!(r.unwrap_err(), PayError::FeeFailure);
}

#[test]
fn growing_fee_requirement_pulls_in_more_inputs() {
    let mut w = WalletState::new();
    // Two confirmed coins; outputs alone fit in the first, but the fee
    // pushes the requirement over it.
    w.update_utxos(vec![utxo(1, 2, 51_000), utxo(2, 5, 60_000)]);
    let t = compose_psbt(&w, &vec![beneficiary(50_000)], 25_000, 272, 0)
        .expect("construction converges");
    assert_eq!(t.inputs.len(), 2);
    // Two inputs: 4 + 1 + 82 + 1 + 31 + 4 = 123 bytes = 492 weight
    // units, plus 272 = 764; ceil(25_000 * 764 / 4000) = 4775.
    assert_eq!(t.fee, 4775);
    assert!(51_000 + 60_000 >= 50_000 + t.fee);
}
