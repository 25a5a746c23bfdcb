//! The lookup of envelope rows `(x, upper(x), lower(x))` of a sigmoid or tanh.
//!
//! The three columns are combined into one, `alpha_1 x + alpha_2 upper +
//! lower`, by two random coefficients.

use crate::columns::{
    count_codes, even_vars, lemma_count_bound, lemma_mle_zero_padded, lift, lifted_codes,
    multiplicities, pad_zeros, round_up_even, zero_padded,
};
use crate::errors::SnarkError;
use crate::field::{Fr, all_in_field, fadd, fmul, in_field, residue, vals};
use crate::logup::{column_ok, lower, tops_cancel, upper, vals4};
use crate::lookup_laws::law_lookup_cancels;
use crate::lookup_pair::{LookupPair, honest_pair, pair_state, prove_pair};
use crate::mle::{eval_multilinear_full, lemma_pow2_machine, log2_exact, mle, pow2_usize};
use crate::mle_laws::{combined, law_mle_linear};
use crate::network::ActivationKind;
use crate::params::{SigmaTables, summable_codes, table_sized};
use crate::pcs::{
    CommittedAux, MlPcs, abs_com, absorb_commitment, aux_of, commit_table, hyrax_open_at,
    lemma_pow2_injective, open_accepted, open_state,
};
use crate::pos_range::lemma_range_column;
use crate::ring::{group_in_field, lemma_residue_id};
use crate::sshape_helpers::envelope_tables;
use crate::sumcheck::lemma_fadd_assoc;
use crate::table_mle::{identity_mle_eval, identity_table, identity_value, law_identity_table};
use crate::transcript::{
    abs_fr, abs_u64, absorb_fr, absorb_u64, challenge, challenged, squeeze_one, state_of,
};
use ark_crypto_primitives::sponge::merlin::Transcript;
use vstd::arithmetic::power2::{lemma_pow2_strictly_increases, pow2};
use vstd::prelude::*;

verus! {

/// `alpha_1 x + alpha_2 upper + lower`.
pub open spec fn row_key(a1: int, a2: int, x: int, up: int, lo: int) -> int {
    fadd(fadd(fmul(a1, x), fmul(a2, up)), lo)
}

/// Three columns combined into one.
pub open spec fn row_keys(a1: int, a2: int, x: Seq<int>, up: Seq<int>, lo: Seq<int>) -> Seq<int> {
    Seq::new(x.len(), |i: int| row_key(a1, a2, x[i], up[i], lo[i]))
}

/// The table of all envelope rows, combined.
pub open spec fn envelope_table(a1: int, a2: int, upper: Seq<int>, lower: Seq<int>, m: nat) -> Seq<
    int,
> {
    row_keys(a1, a2, identity_table(m), upper, lower)
}

/// The extension of combined columns is the combination of their extensions.
pub proof fn law_mle_of_row_keys(
    a1: int,
    a2: int,
    x: Seq<int>,
    up: Seq<int>,
    lo: Seq<int>,
    r: Seq<int>,
)
    requires
        in_field(a1),
        in_field(a2),
        x.len() == pow2(r.len()),
        up.len() == pow2(r.len()),
        lo.len() == pow2(r.len()),
        all_in_field(x),
        all_in_field(up),
        all_in_field(lo),
        all_in_field(r),
    ensures
        mle(row_keys(a1, a2, x, up, lo), r) == row_key(a1, a2, mle(x, r), mle(up, r), mle(lo, r)),
{
    broadcast use group_in_field;

    let inner = combined(a2, up, lo);
    law_mle_linear(a2, up, lo, r);
    assert(all_in_field(inner));
    law_mle_linear(a1, x, inner, r);
    let keys = row_keys(a1, a2, x, up, lo);
    assert forall|i: int| 0 <= i < x.len() implies #[trigger] keys[i] == combined(a1, x, inner)[i] by {
        lemma_fadd_assoc(fmul(a1, x[i]), fmul(a2, up[i]), lo[i]);
    }
    assert(keys =~= combined(a1, x, inner));
    lemma_fadd_assoc(fmul(a1, mle(x, r)), fmul(a2, mle(up, r)), mle(lo, r));
}

/// The closed form of the table's extension: `alpha_1 identity(point) +
/// alpha_2 upper(point) + lower(point)`.
pub open spec fn envelope_value(
    a1: int,
    a2: int,
    upper: Seq<int>,
    lower: Seq<int>,
    point: Seq<int>,
) -> int {
    row_key(a1, a2, identity_value(point), mle(upper, point), mle(lower, point))
}

/// The closed form is the extension of the table.
pub proof fn law_envelope_table(
    a1: int,
    a2: int,
    upper: Seq<int>,
    lower: Seq<int>,
    point: Seq<int>,
)
    requires
        in_field(a1),
        in_field(a2),
        upper.len() == pow2(point.len()),
        lower.len() == pow2(point.len()),
        all_in_field(upper),
        all_in_field(lower),
        all_in_field(point),
    ensures
        mle(envelope_table(a1, a2, upper, lower, point.len()), point) == envelope_value(
            a1,
            a2,
            upper,
            lower,
            point,
        ),
{
    broadcast use group_in_field;

    law_identity_table(point);
    assert(all_in_field(identity_table(point.len())));
    law_mle_of_row_keys(a1, a2, identity_table(point.len()), upper, lower, point);
}

/// Evaluate the extension of the envelope table at a point.
pub fn sigma_envelope_3col_table_mle_eval(
    point: &[Fr],
    alpha_1: Fr,
    alpha_2: Fr,
    sigma_upper_table: &[Fr],
    sigma_lower_table: &[Fr],
) -> (r: Fr)
    requires
        sigma_upper_table@.len() == pow2(point@.len()),
        sigma_lower_table@.len() == pow2(point@.len()),
    ensures
        r@ == envelope_value(
            alpha_1@,
            alpha_2@,
            vals(sigma_upper_table@),
            vals(sigma_lower_table@),
            vals(point@),
        ),
{
    let upper: Fr = eval_multilinear_full(sigma_upper_table, point);
    let lower: Fr = eval_multilinear_full(sigma_lower_table, point);
    alpha_1.mul(identity_mle_eval(point)).add(alpha_2.mul(upper)).add(lower)
}

/// The upper and lower envelope tables of a function.
pub fn sigma_tables(pre: &SigmaTables, kind: ActivationKind) -> (r: Option<(&Vec<Fr>, &Vec<Fr>)>)
    requires
        pre.wf(),
    ensures
        match envelope_tables(*pre, kind) {
            None => r is None,
            Some((lower, upper)) => {
                &&& r matches Some((u, l))
                &&& vals(u@) == upper
                &&& vals(l@) == lower
                &&& u@.len() == l@.len()
                &&& summable_codes(u@)
                &&& summable_codes(l@)
                &&& table_sized(u@.len())
            },
        },
{
    match kind {
        ActivationKind::Sigmoid => Some((&pre.sigmoid_upper_fr, &pre.sigmoid_lower_fr)),
        ActivationKind::Tanh => Some((&pre.tanh_upper_fr, &pre.tanh_lower_fr)),
        ActivationKind::ReLU => None,
    }
}

// ---- The transcript ----

/// The state before the combining coefficients.
pub open spec fn env_t1(len_tag: u64, t0: Seq<u8>) -> Seq<u8> {
    abs_u64(t0, len_tag)
}

/// The first combining coefficient.
pub open spec fn env_alpha_1(len_tag: u64, t0: Seq<u8>) -> int {
    challenge(env_t1(len_tag, t0))
}

/// The second combining coefficient.
pub open spec fn env_alpha_2(len_tag: u64, t0: Seq<u8>) -> int {
    challenge(challenged(env_t1(len_tag, t0)))
}

/// The state before the challenge `beta`.
pub open spec fn env_t2<P: MlPcs>(
    len_tag: u64,
    mult: P::Commitment,
    witness_len: u64,
    table_len: u64,
    t0: Seq<u8>,
) -> Seq<u8> {
    abs_u64(
        abs_u64(abs_com::<P>(challenged(challenged(env_t1(len_tag, t0))), mult), witness_len),
        table_len,
    )
}

/// The challenge `beta`.
pub open spec fn env_beta<P: MlPcs>(
    len_tag: u64,
    mult: P::Commitment,
    witness_len: u64,
    table_len: u64,
    t0: Seq<u8>,
) -> int {
    challenge(env_t2::<P>(len_tag, mult, witness_len, table_len, t0))
}

/// The state after the challenges were bound.
pub open spec fn env_t3<P: MlPcs>(
    len_tag: u64,
    mult: P::Commitment,
    witness_len: u64,
    table_len: u64,
    t0: Seq<u8>,
) -> Seq<u8> {
    abs_fr(
        abs_fr(
            abs_fr(
                challenged(env_t2::<P>(len_tag, mult, witness_len, table_len, t0)),
                env_alpha_1(len_tag, t0),
            ),
            env_alpha_2(len_tag, t0),
        ),
        env_beta::<P>(len_tag, mult, witness_len, table_len, t0),
    )
}

// ---- The prover ----

/// The prover's side of an envelope lookup.
pub struct EnvelopeLookup<P: MlPcs> {
    pub alpha_1: Fr,
    pub alpha_2: Fr,
    pub beta: Fr,
    pub pair: LookupPair,
    pub witness_len: usize,
    pub table_len: usize,
    pub mult_commit: P::Commitment,
    pub mult_aux: CommittedAux<P>,
    pub mult_n_vars: usize,
}

/// What holds of an envelope lookup that was made for rows of indices and
/// envelope values.
pub open spec fn envelope_made<P: MlPcs>(
    ck: P::CommitterKey,
    look: EnvelopeLookup<P>,
    len_tag: u64,
    idx: Seq<i128>,
    up: Seq<int>,
    lo: Seq<int>,
    upper: Seq<int>,
    lower: Seq<int>,
    m: nat,
    t0: Seq<u8>,
    t1: Seq<u8>,
) -> bool {
    let (w, t) = (look.witness_len as u64, look.table_len as u64);
    let t3 = env_t3::<P>(len_tag, look.mult_commit, w, t, t0);
    let (a1, a2) = (look.alpha_1@, look.alpha_2@);
    &&& a1 == env_alpha_1(len_tag, t0)
    &&& a2 == env_alpha_2(len_tag, t0)
    &&& look.beta@ == env_beta::<P>(len_tag, look.mult_commit, w, t, t0)
    &&& look.witness_len == idx.len()
    &&& look.table_len == pow2(m)
    &&& look.mult_n_vars == even_vars(m)
    &&& look.mult_aux.table@.len() == pow2(even_vars(m))
    &&& vals(look.mult_aux.table@) == zero_padded(
        multiplicities(idx, pow2(m)),
        pow2(even_vars(m)),
    )
    &&& aux_of(ck, look.mult_commit, look.mult_aux)
    &&& honest_pair(
        look.pair,
        row_keys(a1, a2, lifted_codes(idx), up, lo),
        envelope_table(a1, a2, upper, lower, m),
        multiplicities(idx, pow2(m)),
        look.beta@,
        t3,
    )
    &&& t1 == pair_state(
        look.pair.lookup_proof,
        look.pair.table_proof,
        look.pair.lookup_top,
        look.pair.table_top,
        t3,
    )
}

/// Whether every row is the table's row at its index.
pub open spec fn rows_in_table(
    idx: Seq<i128>,
    up: Seq<int>,
    lo: Seq<int>,
    upper: Seq<int>,
    lower: Seq<int>,
) -> bool {
    forall|i: int|
        0 <= i < idx.len() ==> {
            &&& 0 <= #[trigger] idx[i] < upper.len()
            &&& up[i] == upper[idx[i] as int]
            &&& lo[i] == lower[idx[i] as int]
        }
}

/// The keys of rows, in the field.
fn combine_rows(a1: Fr, a2: Fr, x: &Vec<Fr>, up: &Vec<Fr>, lo: &Vec<Fr>) -> (r: Vec<Fr>)
    requires
        up@.len() == x@.len(),
        lo@.len() == x@.len(),
    ensures
        vals(r@) == row_keys(a1@, a2@, vals(x@), vals(up@), vals(lo@)),
        r@.len() == x@.len(),
{
    let mut out: Vec<Fr> = Vec::with_capacity(x.len());
    let mut i: usize = 0;
    while i < x.len()
        invariant
            i <= x@.len(),
            up@.len() == x@.len(),
            lo@.len() == x@.len(),
            out@.len() == i,
            forall|k: int|
                0 <= k < i ==> (#[trigger] out@[k])@ == row_keys(
                    a1@,
                    a2@,
                    vals(x@),
                    vals(up@),
                    vals(lo@),
                )[k],
        decreases x@.len() - i,
    {
        out.push(a1.mul(x[i]).add(a2.mul(up[i])).add(lo[i]));
        i += 1;
    }
    assert(vals(out@) =~= row_keys(a1@, a2@, vals(x@), vals(up@), vals(lo@)));
    out
}

/// The codes `0, 1, .., n-1` in the field.
fn identity_column(n: usize, Ghost(m): Ghost<nat>) -> (r: Vec<Fr>)
    requires
        n == pow2(m),
    ensures
        vals(r@) == identity_table(m),
        r@.len() == n,
{
    let mut out: Vec<Fr> = Vec::with_capacity(n);
    let mut i: usize = 0;
    while i < n
        invariant
            i <= n,
            out@.len() == i,
            forall|k: int| 0 <= k < i ==> (#[trigger] out@[k])@ == residue(k),
        decreases n - i,
    {
        out.push(Fr::from_u64(i as u64));
        proof {
            lemma_residue_id(i as int);
        }
        i += 1;
    }
    assert(vals(out@) =~= identity_table(m));
    out
}

/// Prove that rows occur in the envelope table. `len_tag` is bound first.
pub fn prove_envelope<P: MlPcs>(
    len_tag: u64,
    idx: &Vec<i128>,
    up: &Vec<Fr>,
    lo: &Vec<Fr>,
    table_upper: &Vec<Fr>,
    table_lower: &Vec<Fr>,
    ck: &P::CommitterKey,
    sponge: &mut Transcript,
    rng: &mut P::Randomness,
) -> (r: Result<EnvelopeLookup<P>, SnarkError>)
    requires
        up@.len() == idx@.len(),
        lo@.len() == idx@.len(),
        table_lower@.len() == table_upper@.len(),
        table_sized(table_upper@.len()),
    ensures
        forall|m: nat|
            #[trigger] pow2(m) == table_upper@.len() ==> {
                &&& r is Ok <==> column_ok(idx@.len()) && P::can_commit(*ck, pow2(even_vars(m)))
                &&& r matches Ok(look) ==> {
                    &&& envelope_made(
                        *ck,
                        look,
                        len_tag,
                        idx@,
                        vals(up@),
                        vals(lo@),
                        vals(table_upper@),
                        vals(table_lower@),
                        m,
                        state_of(*old(sponge)),
                        state_of(*final(sponge)),
                    )
                    &&& rows_in_table(
                        idx@,
                        vals(up@),
                        vals(lo@),
                        vals(table_upper@),
                        vals(table_lower@),
                    ) ==> tops_cancel(vals4(look.pair.lookup_top), vals4(look.pair.table_top))
                }
            },
        r matches Err(e) ==> e is Pcs || e is LogUp,
{
    let ghost m = choose|m: nat|
        2 <= m < 60 && #[trigger] pow2(m) == table_upper@.len() && pow2(even_vars(m)) <= usize::MAX;
    let ghost t0 = state_of(*sponge);
    let table_len: usize = table_upper.len();
    proof {
        assert forall|k: nat| #[trigger] pow2(k) == table_upper@.len() implies k == m by {
            lemma_pow2_injective(k, m);
        }
        lemma_pow2_machine(m);
    }
    absorb_u64(sponge, len_tag);
    let alpha_1: Fr = squeeze_one(sponge);
    let alpha_2: Fr = squeeze_one(sponge);
    let x: Vec<Fr> = lift(idx.as_slice());
    let witness: Vec<Fr> = combine_rows(alpha_1, alpha_2, &x, up, lo);
    let mults: Vec<Fr> = count_codes(idx.as_slice(), table_len);
    assert(vals(mults@).len() == mults@.len());
    let table_bits: usize = match log2_exact(table_len) {
        Some(b) => b,
        None => 0,
    };
    proof {
        lemma_pow2_injective(table_bits as nat, m);
    }
    let mult_n_vars: usize = round_up_even(table_bits);
    let mult_padded_len: usize = pow2_usize(mult_n_vars);
    proof {
        if m < mult_n_vars {
            lemma_pow2_strictly_increases(m, mult_n_vars as nat);
        }
    }
    let mults_padded: Vec<Fr> = pad_zeros(mults.as_slice(), mult_padded_len);
    let (mult_commit, mult_aux): (P::Commitment, CommittedAux<P>) = match commit_table::<P>(
        ck,
        mults_padded,
        rng,
    ) {
        Ok(c) => c,
        Err(e) => {
            return Err(e);
        },
    };
    absorb_commitment::<P>(sponge, &mult_commit);
    let witness_len: usize = witness.len();
    absorb_u64(sponge, witness_len as u64);
    absorb_u64(sponge, table_len as u64);
    let beta: Fr = squeeze_one(sponge);
    absorb_fr(sponge, alpha_1);
    absorb_fr(sponge, alpha_2);
    absorb_fr(sponge, beta);
    let ids: Vec<Fr> = identity_column(table_len, Ghost(m));
    let table: Vec<Fr> = combine_rows(alpha_1, alpha_2, &ids, table_upper, table_lower);
    proof {
        lemma_range_column(m);
    }
    let pair: LookupPair = match prove_pair(
        witness.as_slice(),
        table.as_slice(),
        mults.as_slice(),
        beta,
        sponge,
    ) {
        Ok(p) => p,
        Err(e) => {
            return Err(e);
        },
    };
    proof {
        if rows_in_table(
            idx@,
            vals(up@),
            vals(lo@),
            vals(table_upper@),
            vals(table_lower@),
        ) {
            let lp = vals(pair.lookup_proof.bottom_point@);
            let wv = vals(witness@);
            let tv = vals(table@);
            assert forall|j: int| 0 <= j < idx@.len() implies #[trigger] wv[j] == tv[idx@[j] as int] by {
                assert(0 <= idx@[j] < table_upper@.len());
                assert(identity_table(m)[idx@[j] as int] == residue(idx@[j] as int));
            }
            assert forall|j: int| 0 <= j < idx@.len() implies 0 <= #[trigger] idx@[j] < tv.len() by {}
            law_lookup_cancels(wv, tv, idx@, beta@, lp.len(), m);
        }
    }
    Ok(
        EnvelopeLookup {
            alpha_1,
            alpha_2,
            beta,
            pair,
            witness_len,
            table_len,
            mult_commit,
            mult_aux,
            mult_n_vars,
        },
    )
}

/// Open the multiplicities where the table's circuit ends, and check that the
/// value is its claim.
pub fn open_multiplicities<P: MlPcs>(
    look: &EnvelopeLookup<P>,
    which: &'static str,
    ck: &P::CommitterKey,
    sponge: &mut Transcript,
    rng: &mut P::Randomness,
) -> (r: Result<P::Proof, SnarkError>)
    ensures
        forall|idx: Seq<i128>, m: nat|
            #![trigger multiplicities(idx, pow2(m))]
            {
                &&& vals(look.mult_aux.table@) == zero_padded(
                    multiplicities(idx, pow2(m)),
                    pow2(even_vars(m)),
                )
                &&& idx.len() <= u64::MAX
                &&& look.mult_aux.table@.len() == pow2(even_vars(m))
                &&& look.mult_n_vars == even_vars(m)
                &&& look.pair.table_proof.bottom_point@.len() == m
                &&& look.pair.table_proof.bottom_num@ == mle(
                    multiplicities(idx, pow2(m)),
                    vals(look.pair.table_proof.bottom_point@),
                )
                &&& aux_of(*ck, look.mult_commit, look.mult_aux)
            } ==> {
                &&& r matches Ok(proof)
                &&& forall|vk: P::VerifierKey| #[trigger]
                    P::keys_match(*ck, vk) ==> {
                        &&& open_accepted::<P>(
                            vk,
                            look.mult_commit,
                            vals(look.pair.table_proof.bottom_point@),
                            look.pair.table_proof.bottom_num@,
                            proof,
                            look.mult_n_vars as nat,
                            state_of(*old(sponge)),
                        )
                        &&& state_of(*final(sponge)) == open_state::<P>(
                            vk,
                            look.mult_commit,
                            vals(look.pair.table_proof.bottom_point@),
                            look.pair.table_proof.bottom_num@,
                            proof,
                            look.mult_n_vars as nat,
                            state_of(*old(sponge)),
                        )
                    }
            },
{
    let ghost tp = vals(look.pair.table_proof.bottom_point@);
    let (value, proof): (Fr, P::Proof) = match hyrax_open_at::<P>(
        ck,
        &look.mult_aux,
        &look.mult_commit,
        look.pair.table_proof.bottom_point.as_slice(),
        sponge,
        rng,
    ) {
        Ok(x) => x,
        Err(e) => {
            proof {
                assert forall|m: nat| #[trigger] pow2(even_vars(m))
                    == look.mult_aux.table@.len() && tp.len() == m && aux_of(
                    *ck,
                    look.mult_commit,
                    look.mult_aux,
                ) implies false by {
                    assert(tp.len() <= even_vars(m));
                }
            }
            return Err(e);
        },
    };
    proof {
        assert forall|idx: Seq<i128>, m: nat|
            #![trigger multiplicities(idx, pow2(m))]
            {
                &&& vals(look.mult_aux.table@) == zero_padded(
                    multiplicities(idx, pow2(m)),
                    pow2(even_vars(m)),
                )
                &&& idx.len() <= u64::MAX
                &&& look.mult_aux.table@.len() == pow2(even_vars(m))
                &&& look.mult_n_vars == even_vars(m)
                &&& tp.len() == m
                &&& look.pair.table_proof.bottom_num@ == mle(multiplicities(idx, pow2(m)), tp)
                &&& aux_of(*ck, look.mult_commit, look.mult_aux)
            } implies value@ == look.pair.table_proof.bottom_num@ by {
            lemma_multiplicities_in_field(idx, pow2(m));
            lemma_mle_zero_padded(multiplicities(idx, pow2(m)), tp, even_vars(m));
            assert(pow2(even_vars(m)) == look.mult_aux.table@.len());
        }
    }
    if value != look.pair.table_proof.bottom_num {
        return Err(SnarkError::RelaxationSoundnessFinalCheckFailed { which });
    }
    Ok(proof)
}

/// Multiplicities are residues.
proof fn lemma_multiplicities_in_field(idx: Seq<i128>, len: nat)
    requires
        idx.len() <= u64::MAX,
    ensures
        all_in_field(multiplicities(idx, len)),
{
    assert forall|i: int| 0 <= i < len implies in_field(#[trigger] multiplicities(idx, len)[i]) by {
        lemma_count_bound(idx, i, idx.len());
    }
}

} // verus!
