//! The coin selector and transaction builder: given beneficiary outputs,
//! a fee rate and the wallet state, select confirmed inputs and converge
//! on a fee that is consistent with the size of the transaction it pays
//! for, within a bounded number of iterations.

use vstd::prelude::*;

use crate::records::{clone_bytes, OutPoint, Prevout, UtxoRec};
use crate::store::{
    confirmed_total, greedy_pick, lemma_greedy_pick_covers, lemma_greedy_pick_len, prevout_total,
    WalletState,
};

verus! {

/// The network dust-relay floor, in satoshis: the fee estimate every
/// construction starts from.
pub const DUST_RELAY_FEE: u64 = 3000;

/// Fee/size convergence is abandoned after this many iterations.
pub const MAX_FEE_ITERATIONS: u64 = 6;

/// Default input sequence number: no timelock or CSV spending support.
pub const DEFAULT_SEQUENCE: u32 = 0xFFFF_FFFF;

/// The most satoshis that can exist.
pub const MAX_MONEY: u64 = 2_100_000_000_000_000;

/// Caps that keep the fee arithmetic within machine integers: the
/// fee rate in satoshis per kilo-vbyte, the descriptor's satisfaction
/// weight in weight units, the beneficiary count, one output script's
/// bytes, and the wallet's UTXO count.
pub const MAX_FEE_RATE: u64 = 1_000_000_000;

pub const MAX_SATISFACTION_WEIGHT: u64 = 4_000_000;

pub const MAX_OUTPUTS: usize = 10_000;

pub const MAX_SCRIPT_LEN: usize = 10_000;

pub const MAX_WALLET_UTXOS: usize = 100_000;

/// Mathematical view of a [`BeneficiaryOutput`].
pub struct BeneficiaryV {
    pub script: Seq<u8>,
    pub value: u64,
}

/// One destination of the transaction under construction: a script and
/// the value in satoshis it receives.
#[derive(Debug, PartialEq, Eq)]
pub struct BeneficiaryOutput {
    pub script: Vec<u8>,
    pub value: u64,
}

impl View for BeneficiaryOutput {
    type V = BeneficiaryV;

    open spec fn view(&self) -> BeneficiaryV {
        BeneficiaryV { script: self.script@, value: self.value }
    }
}

impl DeepView for BeneficiaryOutput {
    type V = BeneficiaryV;

    open spec fn deep_view(&self) -> BeneficiaryV {
        self.view()
    }
}

impl Clone for BeneficiaryOutput {
    fn clone(&self) -> (r: Self)
        ensures
            r@ == self@,
    {
        BeneficiaryOutput { script: clone_bytes(&self.script), value: self.value }
    }
}

/// One finalized input of the template: the consumed outpoint, its
/// derivation terminal (chain and index), and the default sequence
/// number. Inputs commit to all outputs when signed.
#[derive(Clone, Copy, PartialEq, Eq, Structural, Debug)]
pub struct PsbtInput {
    pub outpoint: OutPoint,
    pub change: bool,
    pub index: u32,
    pub seq_no: u32,
}

/// The unsigned transaction template construction returns, together
/// with the change index it consumed.
#[derive(Debug, PartialEq, Eq)]
pub struct TxTemplate {
    pub version: i32,
    pub lock_time: u32,
    pub inputs: Vec<PsbtInput>,
    pub outputs: Vec<BeneficiaryOutput>,
    /// The converged fee, in satoshis.
    pub fee: u64,
    /// The change index the caller must retire on submission.
    pub change_index: u32,
}

/// A typed construction failure.
#[derive(Clone, Copy, PartialEq, Eq, Structural, Debug)]
pub enum PayError {
    /// No confirmed selection covers the outputs plus the fee estimate.
    InsufficientFunds,
    /// The fee did not stabilize within the iteration bound.
    FeeFailure,
}

/// Bytes a Bitcoin variable-length integer takes.
pub open spec fn varint_len(n: int) -> int {
    if n < 0xfd {
        1
    } else if n < 0x10000 {
        3
    } else if n < 0x1_0000_0000 {
        5
    } else {
        9
    }
}

/// Serialized bytes of one output: value, script length, script.
pub open spec fn out_size(b: BeneficiaryV) -> int {
    8 + varint_len(b.script.len() as int) + b.script.len()
}

/// Serialized bytes of all outputs.
pub open spec fn outs_size(outs: Seq<BeneficiaryV>) -> int
    decreases outs.len(),
{
    if outs.len() == 0 {
        0
    } else {
        out_size(outs[0]) + outs_size(outs.drop_first())
    }
}

/// Total value of the outputs, in satoshis.
pub open spec fn out_total(outs: Seq<BeneficiaryV>) -> int
    decreases outs.len(),
{
    if outs.len() == 0 {
        0
    } else {
        outs[0].value + out_total(outs.drop_first())
    }
}

/// Serialized size in bytes of the unsigned transaction: version, input
/// count, one legacy input of 41 bytes per selected prevout (36-byte
/// outpoint, empty script, 4-byte sequence), output count, outputs, and
/// lock time.
pub open spec fn tx_base_size(n_in: int, outs: Seq<BeneficiaryV>) -> int {
    4 + varint_len(n_in) + 41 * n_in + varint_len(outs.len() as int) + outs_size(outs) + 4
}

/// The fee the rate charges for the transaction: the unsigned size in
/// weight units plus the descriptor's worst-case satisfaction weight,
/// multiplied by the rate in satoshis per kilo-vbyte and rounded up
/// (one vbyte is four weight units, one kilo-vbyte four thousand).
pub open spec fn fee_for(rate: u64, n_in: int, outs: Seq<BeneficiaryV>, sat_weight: u64) -> int {
    let wu = 4 * tx_base_size(n_in, outs) + sat_weight;
    (rate * wu + 3999) / 4000
}

/// Outcome of the fee/size fixed-point iteration.
pub enum ComposeResultV {
    /// Converged: the selected prevouts and the stabilized fee.
    Built { sel: Seq<Prevout>, fee: int },
    /// Some iteration's requirement exceeded the confirmed balance.
    Insufficient,
    /// No fixed point within the iteration bound.
    FeeFail,
}

/// One run of the bounded fee/size iteration: each round selects
/// confirmed prevouts covering the outputs plus the current fee
/// estimate, recomputes the fee from the resulting size, and stops when
/// the estimate reproduces itself at or above the dust floor.
pub open spec fn fee_loop_spec(
    utxos: Seq<UtxoRec>,
    outs: Seq<BeneficiaryV>,
    rate: u64,
    sat_weight: u64,
    fee: int,
    iter: int,
) -> ComposeResultV
    decreases MAX_FEE_ITERATIONS - iter,
{
    if iter < 0 || iter >= MAX_FEE_ITERATIONS {
        ComposeResultV::FeeFail
    } else if confirmed_total(utxos) < out_total(outs) + fee {
        ComposeResultV::Insufficient
    } else {
        let sel = greedy_pick(utxos, out_total(outs) + fee);
        let next = fee_for(rate, sel.len() as int, outs, sat_weight);
        if next == fee && fee >= DUST_RELAY_FEE {
            ComposeResultV::Built { sel, fee }
        } else {
            fee_loop_spec(utxos, outs, rate, sat_weight, next, iter + 1)
        }
    }
}

/// What construction yields for the given wallet, outputs, rate and
/// satisfaction weight: the iteration started at the dust floor.
pub open spec fn compose_spec(
    utxos: Seq<UtxoRec>,
    outs: Seq<BeneficiaryV>,
    rate: u64,
    sat_weight: u64,
) -> ComposeResultV {
    fee_loop_spec(utxos, outs, rate, sat_weight, DUST_RELAY_FEE as int, 0)
}

/// Every converged construction is self-consistent, whatever fee the
/// iteration started from: the final fee is exactly what the rate
/// charges for the transaction built from the final selection, it is at
/// or above the dust floor, and the selection's value covers the
/// outputs plus that fee.
pub proof fn lemma_fee_loop_built(
    utxos: Seq<UtxoRec>,
    outs: Seq<BeneficiaryV>,
    rate: u64,
    sat_weight: u64,
    fee: int,
    iter: int,
)
    ensures
        fee_loop_spec(utxos, outs, rate, sat_weight, fee, iter) matches ComposeResultV::Built {
            sel,
            fee: f,
        } ==> {
            &&& f == fee_for(rate, sel.len() as int, outs, sat_weight)
            &&& f >= DUST_RELAY_FEE
            &&& sel == greedy_pick(utxos, out_total(outs) + f)
            &&& prevout_total(sel) >= out_total(outs) + f
        },
    decreases MAX_FEE_ITERATIONS - iter,
{
    if iter < 0 || iter >= MAX_FEE_ITERATIONS {
    } else if confirmed_total(utxos) < out_total(outs) + fee {
    } else {
        let sel = greedy_pick(utxos, out_total(outs) + fee);
        let next = fee_for(rate, sel.len() as int, outs, sat_weight);
        if next == fee && fee >= DUST_RELAY_FEE {
            lemma_greedy_pick_covers(utxos, out_total(outs) + fee);
        } else {
            lemma_fee_loop_built(utxos, outs, rate, sat_weight, next, iter + 1);
        }
    }
}

/// The builder's fixed-point law: when construction converges on a fee
/// f for UTXO set V and outputs O, then f equals the rate's charge for
/// the transaction built from the selected inputs, and the selected
/// value is at least the output total plus f.
pub proof fn lemma_builder_fee_fixed_point(
    utxos: Seq<UtxoRec>,
    outs: Seq<BeneficiaryV>,
    rate: u64,
    sat_weight: u64,
)
    ensures
        compose_spec(utxos, outs, rate, sat_weight) matches ComposeResultV::Built {
            sel,
            fee,
        } ==> {
            &&& fee == fee_for(rate, sel.len() as int, outs, sat_weight)
            &&& fee >= DUST_RELAY_FEE
            &&& prevout_total(sel) >= out_total(outs) + fee
        },
{
    lemma_fee_loop_built(utxos, outs, rate, sat_weight, DUST_RELAY_FEE as int, 0);
}

/// With no spendable balance, construction fails with insufficient
/// funds at once: already the first iteration's requirement, the output
/// total plus the dust-floor fee estimate, exceeds a zero confirmed
/// balance.
pub proof fn lemma_zero_balance_insufficient(
    utxos: Seq<UtxoRec>,
    outs: Seq<BeneficiaryV>,
    rate: u64,
    sat_weight: u64,
)
    requires
        confirmed_total(utxos) == 0,
    ensures
        compose_spec(utxos, outs, rate, sat_weight) is Insufficient,
{
    lemma_out_sums_nonneg(outs);
}

/// Convergence within the iteration bound: when the confirmed balance
/// covers both the dust-floor requirement and the once-recomputed fee,
/// and recomputing does not change how many inputs selection takes,
/// the iteration reaches its fixed point by the second round — well
/// within the bound. Wallets where every extra satoshi of fee drags in
/// another input can instead exhaust the bound and fail.
pub proof fn lemma_fee_converges_with_stable_selection(
    utxos: Seq<UtxoRec>,
    outs: Seq<BeneficiaryV>,
    rate: u64,
    sat_weight: u64,
)
    requires
        ({
            let n0 = greedy_pick(utxos, out_total(outs) + DUST_RELAY_FEE).len();
            let f1 = fee_for(rate, n0 as int, outs, sat_weight);
            &&& confirmed_total(utxos) >= out_total(outs) + DUST_RELAY_FEE
            &&& f1 >= DUST_RELAY_FEE
            &&& confirmed_total(utxos) >= out_total(outs) + f1
            &&& greedy_pick(utxos, out_total(outs) + f1).len() == n0
        }),
    ensures
        compose_spec(utxos, outs, rate, sat_weight) is Built,
{
    let o = out_total(outs);
    let n0 = greedy_pick(utxos, o + DUST_RELAY_FEE).len();
    let f1 = fee_for(rate, n0 as int, outs, sat_weight);
    if f1 == DUST_RELAY_FEE {
        assert(fee_loop_spec(utxos, outs, rate, sat_weight, DUST_RELAY_FEE as int, 0)
            is Built);
    } else {
        assert(fee_loop_spec(utxos, outs, rate, sat_weight, f1, 1) is Built);
        assert(fee_loop_spec(utxos, outs, rate, sat_weight, DUST_RELAY_FEE as int, 0)
            is Built);
    }
}

/// One step of the prefix sums over the outputs.
pub proof fn lemma_out_sums_skip_step(outs: Seq<BeneficiaryV>, i: int)
    requires
        0 <= i < outs.len(),
    ensures
        out_total(outs.skip(i)) == outs[i].value + out_total(outs.skip(i + 1)),
        outs_size(outs.skip(i)) == out_size(outs[i]) + outs_size(outs.skip(i + 1)),
{
    assert(outs.skip(i).drop_first() =~= outs.skip(i + 1));
    assert(outs.skip(i)[0] == outs[i]);
}

/// Output sums are non-negative.
pub proof fn lemma_out_sums_nonneg(outs: Seq<BeneficiaryV>)
    ensures
        out_total(outs) >= 0,
        outs_size(outs) >= 0,
    decreases outs.len(),
{
    if outs.len() > 0 {
        lemma_out_sums_nonneg(outs.drop_first());
    }
}

/// Bytes a variable-length integer takes.
fn varint_len_exec(n: u64) -> (r: u64)
    ensures
        r == varint_len(n as int),
{
    if n < 0xfd {
        1
    } else if n < 0x10000 {
        3
    } else if n < 0x1_0000_0000 {
        5
    } else {
        9
    }
}

/// Total value of the outputs, in satoshis.
fn out_total_exec(outs: &Vec<BeneficiaryOutput>) -> (r: u64)
    requires
        out_total(outs.deep_view()) <= MAX_MONEY,
    ensures
        r == out_total(outs.deep_view()),
{
    let ghost s = outs.deep_view();
    let mut total: u64 = 0;
    let mut i: usize = 0;
    proof {
        assert(s.skip(0) =~= s);
    }
    while i < outs.len()
        invariant
            i <= s.len(),
            s == outs.deep_view(),
            out_total(s) <= MAX_MONEY,
            total + out_total(s.skip(i as int)) == out_total(s),
        decreases s.len() - i,
    {
        proof {
            assert(s[i as int] == outs@[i as int]@);
            lemma_out_sums_skip_step(s, i as int);
            lemma_out_sums_nonneg(s.skip(i as int + 1));
        }
        total = total + outs[i].value;
        i += 1;
    }
    proof {
        assert(s.skip(s.len() as int) =~= Seq::<BeneficiaryV>::empty());
    }
    total
}

/// Serialized bytes of all outputs, bounded by the output caps.
fn outs_size_exec(outs: &Vec<BeneficiaryOutput>) -> (r: u64)
    requires
        outs.deep_view().len() <= MAX_OUTPUTS,
        forall|i: int|
            0 <= i < outs.deep_view().len() ==> #[trigger] outs.deep_view()[i].script.len()
                <= MAX_SCRIPT_LEN,
    ensures
        r == outs_size(outs.deep_view()),
        r <= 100_170_000u64,
{
    let ghost s = outs.deep_view();
    let mut total: u64 = 0;
    let mut i: usize = 0;
    proof {
        assert(s.take(0) =~= Seq::<BeneficiaryV>::empty());
        assert(s.skip(0) =~= s);
    }
    while i < outs.len()
        invariant
            i <= s.len(),
            s == outs.deep_view(),
            s.len() <= MAX_OUTPUTS,
            forall|k: int| 0 <= k < s.len() ==> #[trigger] s[k].script.len() <= MAX_SCRIPT_LEN,
            total == outs_size(s) - outs_size(s.skip(i as int)),
            total <= 10_017 * i,
        decreases s.len() - i,
    {
        proof {
            assert(s[i as int] == outs@[i as int]@);
            lemma_out_sums_skip_step(s, i as int);
            assert(out_size(s[i as int]) <= 10_017);
        }
        let slen = outs[i].script.len();
        let vsz = varint_len_exec(slen as u64);
        total = total + 8 + vsz + slen as u64;
        i += 1;
    }
    proof {
        assert(s.skip(s.len() as int) =~= Seq::<BeneficiaryV>::empty());
        lemma_out_sums_nonneg(s);
    }
    total
}

/// Finalize the selected prevouts as template inputs with the default
/// sequence number.
fn build_inputs(sel: &Vec<Prevout>) -> (r: Vec<PsbtInput>)
    ensures
        r@.len() == sel@.len(),
        forall|i: int|
            0 <= i < sel@.len() ==> r@[i] == (PsbtInput {
                outpoint: sel@[i].outpoint,
                change: sel@[i].change,
                index: sel@[i].index,
                seq_no: DEFAULT_SEQUENCE,
            }),
{
    let mut r: Vec<PsbtInput> = Vec::new();
    let mut i: usize = 0;
    while i < sel.len()
        invariant
            i <= sel@.len(),
            r@.len() == i,
            forall|k: int|
                0 <= k < i ==> r@[k] == (PsbtInput {
                    outpoint: sel@[k].outpoint,
                    change: sel@[k].change,
                    index: sel@[k].index,
                    seq_no: DEFAULT_SEQUENCE,
                }),
        decreases sel@.len() - i,
    {
        let p = sel[i];
        r.push(PsbtInput {
            outpoint: p.outpoint,
            change: p.change,
            index: p.index,
            seq_no: DEFAULT_SEQUENCE,
        });
        i += 1;
    }
    r
}

/// Copy the beneficiary outputs into the template.
fn clone_outputs(outs: &Vec<BeneficiaryOutput>) -> (r: Vec<BeneficiaryOutput>)
    ensures
        r.deep_view() == outs.deep_view(),
{
    let mut r: Vec<BeneficiaryOutput> = Vec::new();
    let mut i: usize = 0;
    while i < outs.len()
        invariant
            i <= outs@.len(),
            r.deep_view() == outs.deep_view().take(i as int),
        decreases outs@.len() - i,
    {
        let ghost pre = r.deep_view();
        r.push(outs[i].clone());
        proof {
            assert(r.deep_view() =~= pre.push(outs.deep_view()[i as int]));
            assert(outs.deep_view().take(i as int + 1) =~= outs.deep_view().take(
                i as int,
            ).push(outs.deep_view()[i as int]));
        }
        i += 1;
    }
    proof {
        assert(outs.deep_view().take(outs@.len() as int) =~= outs.deep_view());
    }
    r
}

/// Construct an unsigned transaction template paying the beneficiaries
/// at the given fee rate: select confirmed inputs and converge on a fee
/// consistent with the transaction's own size, within the iteration
/// bound, or fail with the typed error the iteration yields. The result
/// carries the change index the caller must retire on submission.
pub fn compose_psbt(
    wallet: &WalletState,
    beneficiaries: &Vec<BeneficiaryOutput>,
    fee_rate: u64,
    satisfaction_weight: u64,
    lock_time: u32,
) -> (r: Result<TxTemplate, PayError>)
    requires
        beneficiaries@.len() >= 1,
        beneficiaries@.len() <= MAX_OUTPUTS,
        forall|i: int|
            0 <= i < beneficiaries.deep_view().len()
                ==> #[trigger] beneficiaries.deep_view()[i].script.len() <= MAX_SCRIPT_LEN,
        out_total(beneficiaries.deep_view()) <= MAX_MONEY,
        fee_rate <= MAX_FEE_RATE,
        satisfaction_weight <= MAX_SATISFACTION_WEIGHT,
        wallet@.utxos.len() <= MAX_WALLET_UTXOS,
    ensures
        ({
            let outcome = compose_spec(
                wallet@.utxos,
                beneficiaries.deep_view(),
                fee_rate,
                satisfaction_weight,
            );
            match r {
                Ok(t) => {
                    &&& outcome matches ComposeResultV::Built { sel, fee } ==> {
                        &&& t.fee == fee
                        &&& t.inputs@.len() == sel.len()
                        &&& forall|i: int|
                            0 <= i < sel.len() ==> t.inputs@[i] == (PsbtInput {
                                outpoint: sel[i].outpoint,
                                change: sel[i].change,
                                index: sel[i].index,
                                seq_no: DEFAULT_SEQUENCE,
                            })
                    }
                    &&& outcome is Built
                    &&& t.outputs.deep_view() == beneficiaries.deep_view()
                    &&& t.version == 1
                    &&& t.lock_time == lock_time
                    &&& t.change_index == wallet@.next_change
                },
                Err(PayError::InsufficientFunds) => outcome is Insufficient,
                Err(PayError::FeeFailure) => outcome is FeeFail,
            }
        }),
{
    let ghost uv = wallet@.utxos;
    let ghost ov = beneficiaries.deep_view();
    let output_value = out_total_exec(beneficiaries);
    let osize = outs_size_exec(beneficiaries);
    let n_out_varint = varint_len_exec(beneficiaries.len() as u64);
    let mut fee: u64 = DUST_RELAY_FEE;
    let mut iter: u64 = 0;
    while iter < MAX_FEE_ITERATIONS
        invariant
            iter <= MAX_FEE_ITERATIONS,
            uv == wallet@.utxos,
            ov == beneficiaries.deep_view(),
            uv.len() <= MAX_WALLET_UTXOS,
            fee_rate <= MAX_FEE_RATE,
            satisfaction_weight <= MAX_SATISFACTION_WEIGHT,
            output_value == out_total(ov),
            output_value <= MAX_MONEY,
            osize == outs_size(ov),
            osize <= 100_170_000u64,
            n_out_varint == varint_len(ov.len() as int),
            fee <= 0x4_0000_0000_0000u64,
            fee_loop_spec(uv, ov, fee_rate, satisfaction_weight, fee as int, iter as int)
                == compose_spec(uv, ov, fee_rate, satisfaction_weight),
        decreases MAX_FEE_ITERATIONS - iter,
    {
        let amount = output_value + fee;
        match wallet.coinselect(amount) {
            None => {
                return Err(PayError::InsufficientFunds);
            },
            Some(sel) => {
                proof {
                    lemma_greedy_pick_len(uv, amount as int);
                    assert(sel@.len() <= MAX_WALLET_UTXOS);
                }
                let n_in = sel.len() as u64;
                let base = 4 + varint_len_exec(n_in) + 41 * n_in + n_out_varint + osize + 4;
                proof {
                    assert(varint_len(n_in as int) <= 9);
                    assert(varint_len(ov.len() as int) <= 9);
                    assert(base <= 104_270_026u64);
                }
                let wu = 4 * base + satisfaction_weight;
                proof {
                    assert(wu <= 421_080_104u64);
                    vstd::arithmetic::mul::lemma_mul_upper_bound(
                        fee_rate as int,
                        MAX_FEE_RATE as int,
                        wu as int,
                        421_080_104int,
                    );
                    assert(fee_rate * wu <= 421_080_104_000_000_000int);
                }
                let next = (fee_rate * wu + 3999) / 4000;
                proof {
                    assert(next <= 0x4_0000_0000_0000u64);
                }
                proof {
                    assert(base as int == tx_base_size(sel@.len() as int, ov));
                    assert(next as int == fee_for(
                        fee_rate,
                        sel@.len() as int,
                        ov,
                        satisfaction_weight,
                    ));
                }
                if next == fee && fee >= DUST_RELAY_FEE {
                    let inputs = build_inputs(&sel);
                    let outputs = clone_outputs(beneficiaries);
                    let change_index = wallet.next_change_index();
                    return Ok(TxTemplate {
                        version: 1,
                        lock_time,
                        inputs,
                        outputs,
                        fee,
                        change_index,
                    });
                }
                fee = next;
            },
        }
        iter = iter + 1;
    }
    Err(PayError::FeeFailure)
}

} // verus!
