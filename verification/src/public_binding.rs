//! The binding of the committed statement to the public one.
//!
//! The property's matrix and offset and the corners of the input box are
//! opened at challenges, where they must agree with the tables of the codes
//! that the public statement quantizes to.

use crate::column_set::picked;
use crate::columns::lifted_codes;
use crate::commit::TensorCommitments;
use crate::errors::{SnarkError, and_also, holds};
use crate::field::{Fr, vals};
use crate::mle::{copied, eval_multilinear_full, mle, pow2_usize, same_elements};
use crate::network::{ActivationKind, LayerShape, NetworkArchitecture, Property};
use crate::openings::{
    OpeningClaim, OpeningView, claim_accepted, claim_views, lemma_claims_accepted, open_full,
    open_pair_full, openings_state, openings_verdict, padded_vector, pair_open_state,
    pair_open_verdict, verify_openings, verify_pair_at,
};
use crate::params::SnarkParams;
use crate::pcs::{CommittedAux, MlPcs, aux_of};
use crate::qarray::{
    QArray1, QArray2, lemma_matrix_table_is_cells, matrix_fits, mle_table_from_matrix,
    mle_table_from_vector, padded_cells, vector_codes,
};
use crate::scale::Scale;
use crate::shapes::{matrix_vars, native_matrix_n_vars, native_vector_n_vars, vector_vars};
use crate::transcript::{abs_u64, absorb_u64, after_squeeze, squeeze, squeezed, state_of};
use ark_crypto_primitives::sponge::merlin::Transcript;
use vstd::arithmetic::power2::pow2;
use vstd::prelude::*;

verus! {

/// The proof that the commitments are those of the public statement.
pub struct PublicBindingProof<P: MlPcs> {
    pub spec_c_n_vars: usize,
    pub spec_d_n_vars: usize,
    pub x_n_vars: usize,
    pub r_spec_c: Vec<Fr>,
    pub r_spec_d: Vec<Fr>,
    pub r_x: Vec<Fr>,
    pub spec_c_open: P::Proof,
    pub spec_d_open: P::Proof,
    /// Joint opening of the box's corners.
    pub r_x_open: P::Proof,
    pub spec_c_eval: Fr,
    pub spec_d_eval: Fr,
    pub x_lower_eval: Fr,
    pub x_upper_eval: Fr,
    /// The claimed working scale.
    pub working_c: i64,
    pub working_e: i32,
    /// The claimed input scale.
    pub input_c: i64,
    pub input_e: i32,
}

/// Whether an architecture has a sigmoid or tanh layer.
pub open spec fn has_sshape(layers: Seq<LayerShape>) -> bool {
    exists|i: int| 0 <= i < layers.len() && is_sshape(#[trigger] layers[i])
}

/// Whether a layer is a sigmoid or tanh.
pub open spec fn is_sshape(l: LayerShape) -> bool {
    match l {
        LayerShape::Activation { kind } => kind is Sigmoid || kind is Tanh,
        LayerShape::Linear { .. } => false,
    }
}

/// The working scale of an architecture: the scale that was picked, or the one
/// of the envelope tables where the architecture needs them.
pub open spec fn working_scale(
    layers: Seq<LayerShape>,
    picked: Scale,
    sigma_x_scale_log2: i32,
) -> Scale {
    if has_sshape(layers) && picked.e != sigma_x_scale_log2 {
        Scale { c: 1, e: sigma_x_scale_log2 }
    } else {
        picked
    }
}

/// The working and input scales of a statement, from those that were picked
/// for its values: an architecture with a sigmoid or tanh works at the scale
/// of the envelope tables, and a given input scale is taken as it is.
pub fn derive_public_scales(
    architecture: &NetworkArchitecture,
    picked_working: Scale,
    picked_input: Scale,
    input_scale_log2: Option<i32>,
    sigma_x_scale_log2: i32,
) -> (r: (Scale, Scale))
    ensures
        r.0 == working_scale(architecture.layers@, picked_working, sigma_x_scale_log2),
        r.1 == (match input_scale_log2 {
            Some(e) => (Scale { c: 1, e }),
            None => picked_input,
        }),
        forall|i: int|
            #![trigger architecture.layers@[i]]
            0 <= i < architecture.layers@.len() && (architecture.layers@[i] == (
            LayerShape::Activation { kind: ActivationKind::Sigmoid }) || architecture.layers@[i]
                == (LayerShape::Activation { kind: ActivationKind::Tanh })) ==> r.0.e
                == sigma_x_scale_log2,
        (forall|i: int|
            #![trigger architecture.layers@[i]]
            0 <= i < architecture.layers@.len() ==> architecture.layers@[i] is Linear
                || architecture.layers@[i] == (LayerShape::Activation {
                kind: ActivationKind::ReLU,
            })) ==> r.0 == picked_working,
{
    let mut found: bool = false;
    let mut i: usize = 0;
    while i < architecture.layers.len()
        invariant
            i <= architecture.layers@.len(),
            found == exists|k: int| 0 <= k < i && is_sshape(#[trigger] architecture.layers@[k]),
        decreases architecture.layers@.len() - i,
    {
        match architecture.layers[i] {
            LayerShape::Activation { kind: ActivationKind::Sigmoid } => {
                assert(is_sshape(architecture.layers@[i as int]));
                found = true;
            },
            LayerShape::Activation { kind: ActivationKind::Tanh } => {
                assert(is_sshape(architecture.layers@[i as int]));
                found = true;
            },
            _ => {},
        }
        i += 1;
    }
    let working: Scale = if found && picked_working.e != sigma_x_scale_log2 {
        Scale::from_pow2(sigma_x_scale_log2)
    } else {
        picked_working
    };
    let input: Scale = match input_scale_log2 {
        Some(e) => Scale::from_pow2(e),
        None => picked_input,
    };
    (working, input)
}

/// The numbers of variables that the property's matrix, its offset and the
/// box's corners are committed with.
pub fn public_binding_n_vars(property: &Property, x_len: usize) -> (r: (usize, usize, usize))
    requires
        property.rows <= usize::MAX / 2 + 1,
        property.cols <= usize::MAX / 2 + 1,
        x_len <= usize::MAX / 2 + 1,
    ensures
        r.0 == matrix_vars(property.rows as nat, property.cols as nat),
        r.1 == vector_vars(property.rows as nat),
        r.2 == vector_vars(x_len as nat),
        r.0 <= 126 && r.1 <= 64 && r.2 <= 64,
{
    (
        native_matrix_n_vars(property.rows, property.cols),
        native_vector_n_vars(property.rows),
        native_vector_n_vars(x_len),
    )
}

// ---- The transcript ----

/// The 64 bits of a number in two's complement.
pub open spec fn signed_code(x: i32) -> u64 {
    if x >= 0 {
        x as u64
    } else {
        (x + 0x1_0000_0000_0000_0000) as u64
    }
}

/// The 64 bits of a number in two's complement.
fn signed_bits(x: i32) -> (r: u64)
    ensures
        r == signed_code(x),
{
    if x >= 0 {
        x as u64
    } else {
        let m: i64 = -(x as i64);
        u64::MAX - (m as u64) + 1
    }
}

/// The sizes that a statement is bound with.
pub struct BindingSizes {
    pub precision_bits: i32,
    pub spec_c: usize,
    pub spec_d: usize,
    pub x: usize,
}

/// The state before the challenges.
pub open spec fn pb_t1(z: BindingSizes, t0: Seq<u8>) -> Seq<u8> {
    abs_u64(
        abs_u64(
            abs_u64(abs_u64(t0, signed_code(z.precision_bits)), z.spec_c as u64),
            z.spec_d as u64,
        ),
        z.x as u64,
    )
}

/// The state after the matrix's challenge.
pub open spec fn pb_t2(z: BindingSizes, t0: Seq<u8>) -> Seq<u8> {
    after_squeeze(pb_t1(z, t0), z.spec_c as int)
}

/// The state after the offset's challenge.
pub open spec fn pb_t3(z: BindingSizes, t0: Seq<u8>) -> Seq<u8> {
    after_squeeze(pb_t2(z, t0), z.spec_d as int)
}

/// The state after the challenges.
pub open spec fn pb_t4(z: BindingSizes, t0: Seq<u8>) -> Seq<u8> {
    after_squeeze(pb_t3(z, t0), z.x as int)
}

/// The openings of the property's tensors.
pub open spec fn pb_claims<P: MlPcs>(
    proof: PublicBindingProof<P>,
    coms: TensorCommitments<P>,
    z: BindingSizes,
) -> Seq<OpeningView<P>> {
    seq![
        OpeningView {
            which: "public_spec_c",
            commitment: coms.spec_c,
            point: vals(proof.r_spec_c@),
            value: proof.spec_c_eval@,
            proof: proof.spec_c_open,
            n_vars: z.spec_c as nat,
        },
        OpeningView {
            which: "public_spec_d",
            commitment: coms.spec_d,
            point: vals(proof.r_spec_d@),
            value: proof.spec_d_eval@,
            proof: proof.spec_d_open,
            n_vars: z.spec_d as nat,
        },
    ]
}

/// The state after the openings of the property's tensors.
pub open spec fn pb_t5<P: MlPcs>(
    vk: P::VerifierKey,
    proof: PublicBindingProof<P>,
    coms: TensorCommitments<P>,
    z: BindingSizes,
    t0: Seq<u8>,
) -> Seq<u8> {
    openings_state(vk, pb_claims(proof, coms, z), 2, pb_t4(z, t0))
}

/// The state after the whole check.
pub open spec fn public_binding_state<P: MlPcs>(
    vk: P::VerifierKey,
    proof: PublicBindingProof<P>,
    coms: TensorCommitments<P>,
    z: BindingSizes,
    t0: Seq<u8>,
) -> Seq<u8> {
    pair_open_state::<P>(
        vk,
        coms.x_lower,
        coms.x_upper,
        proof.x_lower_eval@,
        proof.x_upper_eval@,
        vals(proof.r_x@),
        proof.r_x_open,
        z.x as nat,
        pb_t5(vk, proof, coms, z, t0),
    )
}

/// A table cut or padded with zeros to a length.
pub open spec fn resized(t: Seq<int>, len: nat) -> Seq<int> {
    Seq::new(
        len,
        |i: int|
            if i < t.len() {
                t[i]
            } else {
                0
            },
    )
}

/// The tables of the codes that a public statement quantizes to.
pub struct PublicTables {
    pub spec_c: Seq<int>,
    pub spec_d: Seq<int>,
    pub x_lower: Seq<int>,
    pub x_upper: Seq<int>,
}

/// The codes that a public statement quantizes to: the property at the working
/// scale, the box at the input scale.
pub struct PublicCodes {
    pub spec_c: QArray2,
    pub spec_d: QArray1,
    pub x_lower: QArray1,
    pub x_upper: QArray1,
}

/// The tables of a statement's codes, at the sizes that they are committed
/// with.
pub open spec fn public_tables(codes: PublicCodes, z: BindingSizes) -> PublicTables {
    PublicTables {
        spec_c: resized(
            lifted_codes(padded_cells(codes.spec_c.codes)),
            pow2(z.spec_c as nat),
        ),
        spec_d: resized(padded_vector(vector_codes(codes.spec_d.codes)), pow2(z.spec_d as nat)),
        x_lower: resized(padded_vector(vector_codes(codes.x_lower.codes)), pow2(z.x as nat)),
        x_upper: resized(padded_vector(vector_codes(codes.x_upper.codes)), pow2(z.x as nat)),
    }
}

/// Whether the claimed values are those of the statement's tables.
pub open spec fn values_match<P: MlPcs>(proof: PublicBindingProof<P>, t: PublicTables) -> bool {
    &&& mle(t.spec_c, vals(proof.r_spec_c@)) == proof.spec_c_eval@
    &&& mle(t.spec_d, vals(proof.r_spec_d@)) == proof.spec_d_eval@
    &&& mle(t.x_lower, vals(proof.r_x@)) == proof.x_lower_eval@
    &&& mle(t.x_upper, vals(proof.r_x@)) == proof.x_upper_eval@
}

/// Whether a proof names the statement's sizes.
pub open spec fn binding_sizes_ok<P: MlPcs>(proof: PublicBindingProof<P>, z: BindingSizes) -> bool {
    proof.spec_c_n_vars == z.spec_c && proof.spec_d_n_vars == z.spec_d && proof.x_n_vars == z.x
}

/// Whether a proof names the statement's scales, and the working scale is the
/// target's.
pub open spec fn binding_scales_ok<P: MlPcs>(
    proof: PublicBindingProof<P>,
    working: Scale,
    input: Scale,
    target: Scale,
) -> bool {
    proof.working_c == working.c && proof.working_e == working.e && proof.input_c == input.c
        && proof.input_e == input.e && working == target
}

/// Whether a proof's sizes and scales are those of the statement.
pub open spec fn binding_header_ok<P: MlPcs>(
    proof: PublicBindingProof<P>,
    working: Scale,
    input: Scale,
    target: Scale,
    z: BindingSizes,
) -> bool {
    binding_sizes_ok(proof, z) && binding_scales_ok(proof, working, input, target)
}

/// The verdict on a statement's binding, for given scales: the sizes, the
/// claimed scales, the challenges, the openings, and the values at them.
#[verifier::opaque]
pub open spec fn public_binding_verdict<P: MlPcs>(
    vk: P::VerifierKey,
    proof: PublicBindingProof<P>,
    working: Scale,
    input: Scale,
    target: Scale,
    z: BindingSizes,
    coms: TensorCommitments<P>,
    t: PublicTables,
    t0: Seq<u8>,
) -> Result<(), SnarkError> {
    and_also(
        holds(
            binding_sizes_ok(proof, z),
            SnarkError::ShapeMismatch { what: "public_binding: n_vars mismatch" },
        ),
        and_also(
            holds(
                binding_scales_ok(proof, working, input, target),
                SnarkError::PublicBindingFailed,
            ),
            and_also(
                holds(
                    squeezed(pb_t1(z, t0), z.spec_c as int) == vals(proof.r_spec_c@) && squeezed(
                        pb_t2(z, t0),
                        z.spec_d as int,
                    ) == vals(proof.r_spec_d@) && squeezed(pb_t3(z, t0), z.x as int) == vals(
                        proof.r_x@,
                    ),
                    SnarkError::TranscriptMismatch,
                ),
                and_also(
                    openings_verdict(vk, pb_claims(proof, coms, z), 2, pb_t4(z, t0)),
                    and_also(
                        pair_open_verdict::<P>(
                            vk,
                            coms.x_lower,
                            coms.x_upper,
                            proof.x_lower_eval@,
                            proof.x_upper_eval@,
                            vals(proof.r_x@),
                            proof.r_x_open,
                            z.x as nat,
                            "public_x_box_batch",
                            pb_t5(vk, proof, coms, z, t0),
                        ),
                        holds(values_match(proof, t), SnarkError::PublicBindingFailed),
                    ),
                ),
            ),
        ),
    )
}

/// Whether a statement's tensors are committed with the tables of its codes.
pub open spec fn statement_committed<P: MlPcs>(
    ck: P::CommitterKey,
    coms: TensorCommitments<P>,
    spec_c_aux: CommittedAux<P>,
    spec_d_aux: CommittedAux<P>,
    x_lower_aux: CommittedAux<P>,
    x_upper_aux: CommittedAux<P>,
    t: PublicTables,
    z: BindingSizes,
) -> bool {
    &&& aux_of(ck, coms.spec_c, spec_c_aux) && vals(spec_c_aux.table@) == t.spec_c
    &&& aux_of(ck, coms.spec_d, spec_d_aux) && vals(spec_d_aux.table@) == t.spec_d
    &&& aux_of(ck, coms.x_lower, x_lower_aux) && vals(x_lower_aux.table@) == t.x_lower
    &&& aux_of(ck, coms.x_upper, x_upper_aux) && vals(x_upper_aux.table@) == t.x_upper
    &&& t.spec_c.len() == pow2(z.spec_c as nat)
    &&& t.spec_d.len() == pow2(z.spec_d as nat)
    &&& t.x_lower.len() == pow2(z.x as nat)
    &&& t.x_upper.len() == pow2(z.x as nat)
}

/// Open the statement's tensors at challenges. The proof is accepted for every
/// statement whose tables are the committed ones.
pub fn prove_public_binding<P: MlPcs>(
    working: Scale,
    input_scale: Scale,
    property: &Property,
    x_len: usize,
    precision_bits: i32,
    commitments: &TensorCommitments<P>,
    spec_c_aux: &CommittedAux<P>,
    spec_d_aux: &CommittedAux<P>,
    x_lower_aux: &CommittedAux<P>,
    x_upper_aux: &CommittedAux<P>,
    params: &SnarkParams<P>,
    sponge: &mut Transcript,
    rng: &mut P::Randomness,
) -> (r: Result<PublicBindingProof<P>, SnarkError>)
    requires
        property.rows <= usize::MAX / 2 + 1,
        property.cols <= usize::MAX / 2 + 1,
        x_len <= usize::MAX / 2 + 1,
    ensures
        r matches Ok(proof) ==> {
            &&& proof.spec_c_n_vars == matrix_vars(property.rows as nat, property.cols as nat)
            &&& proof.spec_d_n_vars == vector_vars(property.rows as nat)
            &&& proof.x_n_vars == vector_vars(x_len as nat)
            &&& proof.working_c == working.c && proof.working_e == working.e
            &&& proof.input_c == input_scale.c && proof.input_e == input_scale.e
        },
        forall|t: PublicTables|
            #[trigger] statement_committed(
                params.committer_key,
                *commitments,
                *spec_c_aux,
                *spec_d_aux,
                *x_lower_aux,
                *x_upper_aux,
                t,
                statement_sizes(precision_bits, *property, x_len),
            ) ==> {
                let z = statement_sizes(precision_bits, *property, x_len);
                &&& r matches Ok(proof)
                &&& params.keys_match() ==> {
                    &&& public_binding_verdict(
                        params.verifier_key,
                        proof,
                        working,
                        input_scale,
                        working,
                        z,
                        *commitments,
                        t,
                        state_of(*old(sponge)),
                    ) == Ok::<(), SnarkError>(())
                    &&& state_of(*final(sponge)) == public_binding_state(
                        params.verifier_key,
                        proof,
                        *commitments,
                        z,
                        state_of(*old(sponge)),
                    )
                }
            },
{
    let ghost t0 = state_of(*sponge);
    let (spec_c_n_vars, spec_d_n_vars, x_n_vars): (usize, usize, usize) = public_binding_n_vars(
        property,
        x_len,
    );
    let ghost z = statement_sizes(precision_bits, *property, x_len);
    absorb_u64(sponge, signed_bits(precision_bits));
    absorb_u64(sponge, spec_c_n_vars as u64);
    absorb_u64(sponge, spec_d_n_vars as u64);
    absorb_u64(sponge, x_n_vars as u64);
    let r_spec_c: Vec<Fr> = squeeze(sponge, spec_c_n_vars);
    let r_spec_d: Vec<Fr> = squeeze(sponge, spec_d_n_vars);
    let r_x: Vec<Fr> = squeeze(sponge, x_n_vars);
    let ghost s0 = state_of(*sponge);
    proof {
        assert(vals(spec_c_aux.table@).len() == spec_c_aux.table@.len());
        assert(vals(spec_d_aux.table@).len() == spec_d_aux.table@.len());
        assert(vals(x_lower_aux.table@).len() == x_lower_aux.table@.len());
        assert(vals(x_upper_aux.table@).len() == x_upper_aux.table@.len());
    }
    let (spec_c_eval, spec_c_open): (Fr, P::Proof) = match open_full::<P>(
        &params.committer_key,
        spec_c_aux,
        &commitments.spec_c,
        r_spec_c.as_slice(),
        sponge,
        rng,
    ) {
        Ok(x) => x,
        Err(e) => {
            return Err(e);
        },
    };
    let ghost s1 = state_of(*sponge);
    let (spec_d_eval, spec_d_open): (Fr, P::Proof) = match open_full::<P>(
        &params.committer_key,
        spec_d_aux,
        &commitments.spec_d,
        r_spec_d.as_slice(),
        sponge,
        rng,
    ) {
        Ok(x) => x,
        Err(e) => {
            return Err(e);
        },
    };
    let ghost s2 = state_of(*sponge);
    let (x_lower_eval, x_upper_eval, r_x_open): (Fr, Fr, P::Proof) = match open_pair_full::<P>(
        &params.committer_key,
        x_lower_aux,
        &commitments.x_lower,
        x_upper_aux,
        &commitments.x_upper,
        r_x.as_slice(),
        sponge,
        rng,
    ) {
        Ok(x) => x,
        Err(e) => {
            return Err(e);
        },
    };
    let proof: PublicBindingProof<P> = PublicBindingProof {
        spec_c_n_vars,
        spec_d_n_vars,
        x_n_vars,
        r_spec_c,
        r_spec_d,
        r_x,
        spec_c_open,
        spec_d_open,
        r_x_open,
        spec_c_eval,
        spec_d_eval,
        x_lower_eval,
        x_upper_eval,
        working_c: working.c,
        working_e: working.e,
        input_c: input_scale.c,
        input_e: input_scale.e,
    };
    proof {
        reveal(public_binding_verdict);
        let vk = params.verifier_key;
        let c = pb_claims(proof, *commitments, z);
        assert forall|t: PublicTables|
            #[trigger] statement_committed(
                params.committer_key,
                *commitments,
                *spec_c_aux,
                *spec_d_aux,
                *x_lower_aux,
                *x_upper_aux,
                t,
                z,
            ) && params.keys_match() implies {
            &&& public_binding_verdict(
                vk,
                proof,
                working,
                input_scale,
                working,
                z,
                *commitments,
                t,
                t0,
            ) == Ok::<(), SnarkError>(())
            &&& state_of(*sponge) == public_binding_state(vk, proof, *commitments, z, t0)
        } by {
            reveal_with_fuel(openings_state, 3);
            assert(openings_state(vk, c, 1, s0) == s1);
            assert(openings_state(vk, c, 2, s0) == s2);
            assert forall|k: nat| k < 2 implies #[trigger] claim_accepted(vk, c, k, s0) by {
                if k == 0 {
                } else {
                    assert(k == 1);
                }
            }
            lemma_claims_accepted(vk, c, 2, s0);
        }
    }
    Ok(proof)
}

/// The sizes of a statement.
pub open spec fn statement_sizes(precision_bits: i32, property: Property, x_len: usize) -> BindingSizes {
    BindingSizes {
        precision_bits,
        spec_c: matrix_vars(property.rows as nat, property.cols as nat) as usize,
        spec_d: vector_vars(property.rows as nat) as usize,
        x: vector_vars(x_len as nat) as usize,
    }
}

/// Cut or pad a table with zeros to a length.
pub fn resize_zeros(t: Vec<Fr>, len: usize) -> (r: Vec<Fr>)
    ensures
        vals(r@) == resized(vals(t@), len as nat),
        r@.len() == len,
{
    let zero: Fr = Fr::from_u64(0);
    let mut out: Vec<Fr> = Vec::with_capacity(len);
    let mut i: usize = 0;
    while i < len
        invariant
            i <= len,
            zero@ == 0,
            out@.len() == i,
            forall|k: int|
                0 <= k < i ==> (#[trigger] out@[k])@ == resized(vals(t@), len as nat)[k],
        decreases len - i,
    {
        if i < t.len() {
            out.push(t[i]);
        } else {
            out.push(zero);
        }
        i += 1;
    }
    assert(vals(out@) =~= resized(vals(t@), len as nat));
    out
}

/// A vector's table at a point.
fn vector_value(v: &QArray1, n_vars: usize, point: &[Fr]) -> (r: Fr)
    requires
        vector_codes(v.codes).len() <= usize::MAX / 2 + 1,
        pow2(n_vars as nat) <= usize::MAX,
        point@.len() == n_vars,
    ensures
        r@ == mle(
            resized(padded_vector(vector_codes(v.codes)), pow2(n_vars as nat)),
            vals(point@),
        ),
{
    let tab: Vec<Fr> = resize_zeros(mle_table_from_vector(v), pow2_usize(n_vars));
    eval_multilinear_full(tab.as_slice(), point)
}

/// Whether a statement's codes have tables that can be addressed.
pub open spec fn codes_fit(codes: PublicCodes, z: BindingSizes) -> bool {
    &&& matrix_fits(codes.spec_c.codes)
    &&& vector_codes(codes.spec_d.codes).len() <= usize::MAX / 2 + 1
    &&& vector_codes(codes.x_lower.codes).len() <= usize::MAX / 2 + 1
    &&& vector_codes(codes.x_upper.codes).len() <= usize::MAX / 2 + 1
    &&& pow2(z.spec_c as nat) <= usize::MAX
    &&& pow2(z.spec_d as nat) <= usize::MAX
    &&& pow2(z.x as nat) <= usize::MAX
}

/// Verify that the commitments are those of the public statement, given as its
/// scales and the codes that it quantizes to.
pub fn verify_public_binding<P: MlPcs>(
    proof: &PublicBindingProof<P>,
    working: Scale,
    input_scale: Scale,
    property: &Property,
    x_len: usize,
    canonical: &PublicCodes,
    precision_bits: i32,
    commitments: &TensorCommitments<P>,
    target_scale_c: i64,
    target_scale_e: i32,
    params: &SnarkParams<P>,
    sponge: &mut Transcript,
) -> (r: Result<(), SnarkError>)
    requires
        property.rows <= usize::MAX / 2 + 1,
        property.cols <= usize::MAX / 2 + 1,
        x_len <= usize::MAX / 2 + 1,
        codes_fit(*canonical, statement_sizes(precision_bits, *property, x_len)),
    ensures
        ({
            let z = statement_sizes(precision_bits, *property, x_len);
            &&& r == public_binding_verdict(
                params.verifier_key,
                *proof,
                working,
                input_scale,
                (Scale { c: target_scale_c, e: target_scale_e }),
                z,
                *commitments,
                public_tables(*canonical, z),
                state_of(*old(sponge)),
            )
            &&& !binding_header_ok(
                *proof,
                working,
                input_scale,
                (Scale { c: target_scale_c, e: target_scale_e }),
                z,
            ) ==> state_of(*final(sponge)) == state_of(*old(sponge))
            &&& r is Ok ==> state_of(*final(sponge)) == public_binding_state(
                params.verifier_key,
                *proof,
                *commitments,
                z,
                state_of(*old(sponge)),
            )
        }),
{
    proof {
        reveal(public_binding_verdict);
    }
    let (spec_c_n_vars, spec_d_n_vars, x_n_vars): (usize, usize, usize) = public_binding_n_vars(
        property,
        x_len,
    );
    let ghost z = statement_sizes(precision_bits, *property, x_len);
    if proof.spec_c_n_vars != spec_c_n_vars || proof.spec_d_n_vars != spec_d_n_vars
        || proof.x_n_vars != x_n_vars {
        return Err(SnarkError::ShapeMismatch { what: "public_binding: n_vars mismatch" });
    }
    if proof.working_c != working.c || proof.working_e != working.e {
        return Err(SnarkError::PublicBindingFailed);
    }
    if proof.input_c != input_scale.c || proof.input_e != input_scale.e {
        return Err(SnarkError::PublicBindingFailed);
    }
    if working.c != target_scale_c || working.e != target_scale_e {
        return Err(SnarkError::PublicBindingFailed);
    }
    absorb_u64(sponge, signed_bits(precision_bits));
    absorb_u64(sponge, spec_c_n_vars as u64);
    absorb_u64(sponge, spec_d_n_vars as u64);
    absorb_u64(sponge, x_n_vars as u64);
    let r_spec_c: Vec<Fr> = squeeze(sponge, spec_c_n_vars);
    let r_spec_d: Vec<Fr> = squeeze(sponge, spec_d_n_vars);
    let r_x: Vec<Fr> = squeeze(sponge, x_n_vars);
    if !same_elements(r_spec_c.as_slice(), proof.r_spec_c.as_slice()) || !same_elements(
        r_spec_d.as_slice(),
        proof.r_spec_d.as_slice(),
    ) || !same_elements(r_x.as_slice(), proof.r_x.as_slice()) {
        return Err(SnarkError::TranscriptMismatch);
    }
    proof {
        assert(vals(proof.r_spec_c@).len() == proof.r_spec_c@.len());
        assert(vals(proof.r_spec_d@).len() == proof.r_spec_d@.len());
        assert(vals(proof.r_x@).len() == proof.r_x@.len());
        assert(vals(r_spec_c@).len() == spec_c_n_vars);
        assert(vals(r_spec_d@).len() == spec_d_n_vars);
        assert(vals(r_x@).len() == x_n_vars);
    }
    let claims: Vec<OpeningClaim<'_, P>> = vec![
        OpeningClaim {
            which: "public_spec_c",
            commitment: &commitments.spec_c,
            point: copied(proof.r_spec_c.as_slice()),
            value: proof.spec_c_eval,
            proof: &proof.spec_c_open,
            n_vars: spec_c_n_vars,
        },
        OpeningClaim {
            which: "public_spec_d",
            commitment: &commitments.spec_d,
            point: copied(proof.r_spec_d.as_slice()),
            value: proof.spec_d_eval,
            proof: &proof.spec_d_open,
            n_vars: spec_d_n_vars,
        },
    ];
    assert(claim_views(claims@) =~= pb_claims(*proof, *commitments, z));
    match verify_openings::<P>(&params.verifier_key, &claims, sponge) {
        Ok(_) => {},
        Err(e) => {
            return Err(e);
        },
    }
    match verify_pair_at::<P>(
        &params.verifier_key,
        &commitments.x_lower,
        &commitments.x_upper,
        proof.x_lower_eval,
        proof.x_upper_eval,
        proof.r_x.as_slice(),
        &proof.r_x_open,
        x_n_vars,
        "public_x_box_batch",
        sponge,
    ) {
        Ok(_) => {},
        Err(e) => {
            return Err(e);
        },
    }
    let (c_tab, _): (Vec<Fr>, (usize, usize)) = mle_table_from_matrix(&canonical.spec_c);
    proof {
        lemma_matrix_table_is_cells(canonical.spec_c.codes);
    }
    let spec_c_tab: Vec<Fr> = resize_zeros(c_tab, pow2_usize(spec_c_n_vars));
    if eval_multilinear_full(spec_c_tab.as_slice(), proof.r_spec_c.as_slice())
        != proof.spec_c_eval {
        return Err(SnarkError::PublicBindingFailed);
    }
    if vector_value(&canonical.spec_d, spec_d_n_vars, proof.r_spec_d.as_slice())
        != proof.spec_d_eval {
        return Err(SnarkError::PublicBindingFailed);
    }
    if vector_value(&canonical.x_lower, x_n_vars, proof.r_x.as_slice()) != proof.x_lower_eval {
        return Err(SnarkError::PublicBindingFailed);
    }
    if vector_value(&canonical.x_upper, x_n_vars, proof.r_x.as_slice()) != proof.x_upper_eval {
        return Err(SnarkError::PublicBindingFailed);
    }
    Ok(())
}

} // verus!
