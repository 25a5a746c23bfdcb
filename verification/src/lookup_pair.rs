//! The two circuits of a lookup: the witness side and the table side.

use crate::columns::lemma_mle_shifted;
use crate::errors::SnarkError;
use crate::field::{Fr, fneg, fsub, lemma_view_in_field, vals};
use crate::logup::{
    LogUpCircuit, LogUpProof, circuit_wf, column_ok, layer_den, layer_num, layer_sized,
    layer_sums, logup_state, logup_verdict, prove_circuit, shifted, top_halves, top_num, top_of,
    tops_cancel, up_den, up_num, vals4, verify_circuit_with_top,
};
use crate::mle::mle;
use crate::mle_laws::constant;
use crate::transcript::state_of;
use ark_crypto_primitives::sponge::merlin::Transcript;
use vstd::arithmetic::power2::{lemma_pow2_pos, lemma_pow2_unfold, pow2};
use vstd::prelude::*;

verus! {

/// The proofs and top fractions of a lookup's two circuits.
pub struct LookupPair {
    pub lookup_proof: LogUpProof,
    pub table_proof: LogUpProof,
    pub lookup_top: [Fr; 4],
    pub table_top: [Fr; 4],
}

/// The verdict on the two circuits, the witness side first.
pub open spec fn pair_verdict(
    lookup_proof: LogUpProof,
    table_proof: LogUpProof,
    lookup_top: [Fr; 4],
    table_top: [Fr; 4],
    lookup_n: nat,
    table_n: nat,
    t0: Seq<u8>,
) -> Result<(), SnarkError> {
    let lt = vals4(lookup_top);
    let tt = vals4(table_top);
    match logup_verdict(lookup_proof, lookup_n, lt, top_num(lt), t0) {
        Err(e) => Err(SnarkError::LogUp(e)),
        Ok(_) => match logup_verdict(
            table_proof,
            table_n,
            tt,
            top_num(tt),
            logup_state(lookup_proof, lt, t0),
        ) {
            Err(e) => Err(SnarkError::LogUp(e)),
            Ok(_) => Ok(()),
        },
    }
}

/// The transcript state after both circuits.
pub open spec fn pair_state(
    lookup_proof: LogUpProof,
    table_proof: LogUpProof,
    lookup_top: [Fr; 4],
    table_top: [Fr; 4],
    t0: Seq<u8>,
) -> Seq<u8> {
    logup_state(
        table_proof,
        vals4(table_top),
        logup_state(lookup_proof, vals4(lookup_top), t0),
    )
}

/// The numerator of the sum of two top fractions.
fn top_numerator(top: &[Fr; 4]) -> (r: Fr)
    ensures
        r@ == top_num(vals4(*top)),
{
    top[0].mul(top[3]).add(top[1].mul(top[2]))
}

/// Verify the two circuits of a lookup.
pub fn verify_pair(
    lookup_proof: &LogUpProof,
    table_proof: &LogUpProof,
    lookup_top: &[Fr; 4],
    table_top: &[Fr; 4],
    lookup_n: usize,
    table_n: usize,
    sponge: &mut Transcript,
) -> (r: Result<(), SnarkError>)
    ensures
        r == pair_verdict(
            *lookup_proof,
            *table_proof,
            *lookup_top,
            *table_top,
            lookup_n as nat,
            table_n as nat,
            state_of(*old(sponge)),
        ),
        r is Ok ==> {
            &&& state_of(*final(sponge)) == pair_state(
                *lookup_proof,
                *table_proof,
                *lookup_top,
                *table_top,
                state_of(*old(sponge)),
            )
            &&& lookup_proof.bottom_point@.len() == lookup_n + 1
            &&& table_proof.bottom_point@.len() == table_n + 1
        },
{
    let lookup_num: Fr = top_numerator(lookup_top);
    match verify_circuit_with_top(lookup_proof, lookup_n, *lookup_top, lookup_num, sponge) {
        Ok(_) => {},
        Err(e) => {
            return Err(SnarkError::LogUp(e));
        },
    }
    let table_num: Fr = top_numerator(table_top);
    match verify_circuit_with_top(table_proof, table_n, *table_top, table_num, sponge) {
        Ok(_) => Ok(()),
        Err(e) => Err(SnarkError::LogUp(e)),
    }
}

/// Whether the top fractions cancel.
pub fn check_tops_cancel(lookup_top: &[Fr; 4], table_top: &[Fr; 4]) -> (r: bool)
    ensures
        r == tops_cancel(vals4(*lookup_top), vals4(*table_top)),
{
    let lookup_num: Fr = top_numerator(lookup_top);
    let table_num: Fr = top_numerator(table_top);
    let lookup_den: Fr = lookup_top[2].mul(lookup_top[3]);
    let table_den: Fr = table_top[2].mul(table_top[3]);
    lookup_num.mul(table_den).add(lookup_den.mul(table_num)) == Fr::from_u64(0)
}

/// What holds of the two circuits that are proved for a witness and a table
/// with multiplicities: a verifier accepts them, and their bottom claims are
/// the values of the columns at the bottom points.
pub open spec fn honest_pair(
    pair: LookupPair,
    witness: Seq<int>,
    table: Seq<int>,
    mults: Seq<int>,
    beta: int,
    t0: Seq<u8>,
) -> bool {
    let lp = vals(pair.lookup_proof.bottom_point@);
    let tp = vals(pair.table_proof.bottom_point@);
    &&& witness.len() == pow2(lp.len())
    &&& table.len() == pow2(tp.len())
    &&& lp.len() >= 1
    &&& tp.len() >= 1
    &&& pair_verdict(
        pair.lookup_proof,
        pair.table_proof,
        pair.lookup_top,
        pair.table_top,
        (lp.len() - 1) as nat,
        (tp.len() - 1) as nat,
        t0,
    ) == Ok::<(), SnarkError>(())
    &&& pair.lookup_proof.layers@.len() == lp.len() - 1
    &&& pair.table_proof.layers@.len() == tp.len() - 1
    &&& pair.lookup_proof.bottom_denom@ == fsub(mle(witness, lp), beta)
    &&& pair.table_proof.bottom_denom@ == fsub(mle(table, tp), beta)
    &&& pair.table_proof.bottom_num@ == mle(mults, tp)
    &&& vals4(pair.lookup_top) == top_of_columns(
        constant(fneg(1), witness.len()),
        shifted(witness, beta),
    )
    &&& vals4(pair.table_top) == top_of_columns(mults, shifted(table, beta))
}

/// The top fractions of the layers above a bottom layer.
pub open spec fn top_of_columns(n: Seq<int>, d: Seq<int>) -> Seq<int>
    decreases n.len(),
{
    if n.len() <= 2 || d.len() != n.len() {
        seq![n[0], n[1], d[0], d[1]]
    } else {
        top_of_columns(up_num(n, d), up_den(d))
    }
}

/// A circuit's top is the top of its layers.
proof fn lemma_circuit_top(c: LogUpCircuit, k: int)
    requires
        circuit_wf(c),
        0 <= k < c.layers@.len(),
    ensures
        top_of(c) == top_of_columns(layer_num(c.layers@[k]), layer_den(c.layers@[k])),
    decreases c.layers@.len() - k,
{
    let m = c.layers@.len();
    vstd::arithmetic::power2::lemma2_to64();
    assert(layer_sized(c, k));
    if k == m - 1 {
        assert(pow2(1) == 2);
    } else {
        assert(layer_sums(c, k + 1));
        lemma_circuit_top(c, k + 1);
        lemma_pow2_unfold((m - k) as nat);
        lemma_pow2_unfold((m - k - 1) as nat);
        lemma_pow2_pos((m - k - 2) as nat);
        assert(pow2((m - k) as nat) > 2);
    }
}

/// Prove the two circuits of a lookup.
pub fn prove_pair(
    witness: &[Fr],
    table: &[Fr],
    mults: &[Fr],
    beta: Fr,
    sponge: &mut Transcript,
) -> (r: Result<LookupPair, SnarkError>)
    ensures
        r is Ok <==> column_ok(witness@.len()) && column_ok(table@.len()) && mults@.len()
            == table@.len(),
        r matches Err(e) ==> e is LogUp,
        r matches Ok(pair) ==> {
            &&& honest_pair(
                pair,
                vals(witness@),
                vals(table@),
                vals(mults@),
                beta@,
                state_of(*old(sponge)),
            )
            &&& state_of(*final(sponge)) == pair_state(
                pair.lookup_proof,
                pair.table_proof,
                pair.lookup_top,
                pair.table_top,
                state_of(*old(sponge)),
            )
        },
{
    let lookup_circuit: LogUpCircuit = match LogUpCircuit::lookup(witness, beta) {
        Ok(c) => c,
        Err(e) => {
            return Err(SnarkError::LogUp(e));
        },
    };
    let table_circuit: LogUpCircuit = match LogUpCircuit::table(table, mults, beta) {
        Ok(c) => c,
        Err(e) => {
            return Err(SnarkError::LogUp(e));
        },
    };
    let lookup_top: [Fr; 4] = top_halves(&lookup_circuit);
    let table_top: [Fr; 4] = top_halves(&table_circuit);
    let lookup_proof: LogUpProof = match prove_circuit(&lookup_circuit, sponge) {
        Ok(p) => p,
        Err(e) => {
            return Err(SnarkError::LogUp(e));
        },
    };
    let table_proof: LogUpProof = match prove_circuit(&table_circuit, sponge) {
        Ok(p) => p,
        Err(e) => {
            return Err(SnarkError::LogUp(e));
        },
    };
    proof {
        broadcast use lemma_view_in_field;

        lemma_mle_shifted(vals(witness@), beta@, vals(lookup_proof.bottom_point@));
        lemma_mle_shifted(vals(table@), beta@, vals(table_proof.bottom_point@));
        lemma_circuit_top(lookup_circuit, 0);
        lemma_circuit_top(table_circuit, 0);
    }
    Ok(LookupPair { lookup_proof, table_proof, lookup_top, table_top })
}

} // verus!
