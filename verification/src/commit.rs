//! The commitments to a certificate's tensors and to the chains of its passes.

use crate::column_set::{abs_coms, absorb_all, derefs};
use crate::errors::SnarkError;
use crate::field::{Fr, vals};
use crate::pcs::{CommittedAux, MlPcs, aux_of, commit_table};
use crate::qarray::{
    CodeMatrix, QArray1, QArray2, committed_table, matrix_fits, matrix_rows, matrix_width,
    pad_matrix_native, pad_vector_native, vector_codes, vector_fits, vector_table,
};
use crate::shapes::{matrix_vars, vector_vars};
use crate::transcript::state_of;
use ark_crypto_primitives::sponge::merlin::Transcript;
use vstd::arithmetic::power2::pow2;
use vstd::prelude::*;

verus! {

/// The commitments to every private tensor of a certificate.
pub struct TensorCommitments<P: MlPcs> {
    /// One per layer; none for activation layers.
    pub weight: Vec<Option<P::Commitment>>,
    pub bias: Vec<Option<P::Commitment>>,
    /// One per layer; none for linear layers.
    pub relaxation: Vec<Option<RelaxationCommitments<P>>>,
    pub x_lower: P::Commitment,
    pub x_upper: P::Commitment,
    pub spec_c: P::Commitment,
    pub spec_d: P::Commitment,
    pub target_lower: Option<P::Commitment>,
    pub target_upper: Option<P::Commitment>,
    /// The chains of the lower-bound and upper-bound passes.
    pub pass_lower: Option<PassCommitments<P>>,
    pub pass_upper: Option<PassCommitments<P>>,
}

/// The commitments of one pass.
pub struct PassCommitments<P: MlPcs> {
    /// The chain of coefficient matrices, one more than there are layers. The
    /// last is the property's matrix, the first goes into the last step.
    pub chain_a: Vec<P::Commitment>,
    pub chain_b_acc: Vec<P::Commitment>,
    /// Per linear step, from the last layer down.
    pub linear_a_w: Vec<P::Commitment>,
    pub linear_a_b: Vec<P::Commitment>,
    /// Per activation step: the signs. No check reads them.
    pub activation_sel: Vec<P::Commitment>,
    pub concretize_sel: Option<P::Commitment>,
    /// Per activation step: `ReLU` of the coefficients.
    pub activation_a_pos: Vec<P::Commitment>,
    pub concretize_a_pos: Option<P::Commitment>,
    pub concretize_target_doubled: Option<P::Commitment>,
    /// Per linear step: what the step adds to the accumulated bias.
    pub linear_prod_w: Vec<P::Commitment>,
    /// Per activation step: the coefficients times the picked slopes.
    pub activation_a_d_doubled: Vec<P::Commitment>,
    /// Per activation step: the bias that the picked offsets add.
    pub activation_bias_doubled: Vec<P::Commitment>,
    /// Per activation step: what the step adds to the accumulated bias.
    pub activation_bias_delta: Vec<P::Commitment>,
    /// What the last step adds.
    pub concretize_acc_w: Option<P::Commitment>,
}

/// The commitments to the four relaxation vectors of an activation layer.
pub struct RelaxationCommitments<P: MlPcs> {
    pub d_lower: P::Commitment,
    pub d_upper: P::Commitment,
    pub b_lower: P::Commitment,
    pub b_upper: P::Commitment,
}

/// What the prover keeps of a certificate's commitments.
pub struct ProverPolyStates<P: MlPcs> {
    pub weight: Vec<Option<CommittedAux<P>>>,
    pub bias: Vec<Option<CommittedAux<P>>>,
    pub relaxation: Vec<Option<RelaxationStates<P>>>,
    pub x_lower: CommittedAux<P>,
    pub x_upper: CommittedAux<P>,
    pub spec_c: CommittedAux<P>,
    pub spec_d: CommittedAux<P>,
    pub pass_lower: Option<PassProverStates<P>>,
    pub pass_upper: Option<PassProverStates<P>>,
}

/// What the prover keeps of an activation layer's relaxation commitments.
pub struct RelaxationStates<P: MlPcs> {
    pub d_lower: CommittedAux<P>,
    pub d_upper: CommittedAux<P>,
    pub b_lower: CommittedAux<P>,
    pub b_upper: CommittedAux<P>,
}

/// What the prover keeps of a pass's commitments, in their order.
pub struct PassProverStates<P: MlPcs> {
    pub chain_a: Vec<CommittedAux<P>>,
    pub chain_b_acc: Vec<CommittedAux<P>>,
    pub linear_a_w: Vec<CommittedAux<P>>,
    pub linear_a_b: Vec<CommittedAux<P>>,
    pub activation_sel: Vec<CommittedAux<P>>,
    pub concretize_sel: Option<CommittedAux<P>>,
    pub activation_a_pos: Vec<CommittedAux<P>>,
    pub concretize_a_pos: Option<CommittedAux<P>>,
    pub concretize_target_doubled: Option<CommittedAux<P>>,
    pub linear_prod_w: Vec<CommittedAux<P>>,
    pub activation_a_d_doubled: Vec<CommittedAux<P>>,
    pub activation_bias_doubled: Vec<CommittedAux<P>>,
    pub activation_bias_delta: Vec<CommittedAux<P>>,
    pub concretize_acc_w: Option<CommittedAux<P>>,
}

// ---- Single tensors ----

/// Whether a commitment, and what was kept of it, are those of a matrix.
pub open spec fn matrix_committed<P: MlPcs>(
    ck: P::CommitterKey,
    m: CodeMatrix,
    com: P::Commitment,
    aux: CommittedAux<P>,
) -> bool {
    &&& vals(aux.table@) == committed_table(m)
    &&& aux_of(ck, com, aux)
}

/// Whether a commitment, and what was kept of it, are those of a vector.
pub open spec fn vector_committed<P: MlPcs>(
    ck: P::CommitterKey,
    codes: Seq<i128>,
    com: P::Commitment,
    aux: CommittedAux<P>,
) -> bool {
    &&& vals(aux.table@) == vector_table(codes)
    &&& aux_of(ck, com, aux)
}

/// Whether a matrix can be committed.
pub open spec fn can_matrix<P: MlPcs>(ck: P::CommitterKey, m: CodeMatrix) -> bool {
    P::can_commit(ck, pow2(matrix_vars(matrix_rows(m).len(), matrix_width(m))))
}

/// Whether a vector can be committed.
pub open spec fn can_vector<P: MlPcs>(ck: P::CommitterKey, codes: Seq<i128>) -> bool {
    P::can_commit(ck, pow2(vector_vars(codes.len())))
}

/// Commit to a padded table, and keep what opens it.
pub fn commit_padded<P: MlPcs>(
    ck: &P::CommitterKey,
    padded_evals: Vec<Fr>,
    rng: &mut P::Randomness,
) -> (r: Result<(P::Commitment, CommittedAux<P>), SnarkError>)
    ensures
        r is Ok <==> P::can_commit(*ck, padded_evals@.len()),
        r matches Err(e) ==> e is Pcs,
        r matches Ok((com, aux)) ==> aux.table@ == padded_evals@ && aux_of(*ck, com, aux),
{
    commit_table::<P>(ck, padded_evals, rng)
}

/// Commit to a matrix at the size that its own axes need.
pub fn commit_matrix<P: MlPcs>(
    ck: &P::CommitterKey,
    m: &QArray2,
    rng: &mut P::Randomness,
) -> (r: Result<(P::Commitment, CommittedAux<P>), SnarkError>)
    requires
        matrix_fits(m.codes),
    ensures
        r is Ok <==> can_matrix::<P>(*ck, m.codes),
        r matches Err(e) ==> e is Pcs,
        r matches Ok((com, aux)) ==> matrix_committed(*ck, m.codes, com, aux),
{
    let (evals, _n_vars, _log_dims): (Vec<Fr>, usize, (usize, usize)) = pad_matrix_native(&m.codes);
    commit_padded::<P>(ck, evals, rng)
}

/// Commit to a vector at the size that its own length needs.
pub fn commit_vector<P: MlPcs>(
    ck: &P::CommitterKey,
    v: &QArray1,
    rng: &mut P::Randomness,
) -> (r: Result<(P::Commitment, CommittedAux<P>), SnarkError>)
    requires
        vector_fits(vector_codes(v.codes)),
    ensures
        r is Ok <==> can_vector::<P>(*ck, vector_codes(v.codes)),
        r matches Err(e) ==> e is Pcs,
        r matches Ok((com, aux)) ==> vector_committed(*ck, vector_codes(v.codes), com, aux),
{
    let codes: Vec<i128> = v.codes.to_vec();
    let (evals, _n_vars): (Vec<Fr>, usize) = pad_vector_native(codes.as_slice());
    commit_padded::<P>(ck, evals, rng)
}

// ---- The transcript ----

/// The commitments that are there, in order.
pub open spec fn present<C>(coms: Seq<Option<C>>) -> Seq<C>
    decreases coms.len(),
{
    if coms.len() == 0 {
        Seq::empty()
    } else {
        let rest = present(coms.drop_last());
        match coms.last() {
            Some(c) => rest.push(c),
            None => rest,
        }
    }
}

/// The commitments of the relaxations that are there, four to a layer.
pub open spec fn relaxation_coms<P: MlPcs>(rels: Seq<Option<RelaxationCommitments<P>>>) -> Seq<
    P::Commitment,
>
    decreases rels.len(),
{
    if rels.len() == 0 {
        Seq::empty()
    } else {
        let rest = relaxation_coms(rels.drop_last());
        match rels.last() {
            Some(r) => rest.push(r.d_lower).push(r.d_upper).push(r.b_lower).push(r.b_upper),
            None => rest,
        }
    }
}

/// The commitments that bind the transcript to a certificate: weights, biases,
/// relaxations, the input box, the property, and the targets that are there.
/// The chains of the passes are not among them.
pub open spec fn public_surface<P: MlPcs>(c: TensorCommitments<P>) -> Seq<P::Commitment> {
    present(c.weight@) + present(c.bias@) + relaxation_coms(c.relaxation@) + seq![
        c.x_lower,
        c.x_upper,
        c.spec_c,
        c.spec_d,
    ] + present(seq![c.target_lower, c.target_upper])
}

/// Collect the commitments that are there.
fn push_present<'a, C>(coms: &'a [Option<C>], out: &mut Vec<&'a C>)
    ensures
        derefs(final(out)@) == derefs(old(out)@) + present(coms@),
{
    let ghost start = derefs(out@);
    let mut i: usize = 0;
    assert(start + present(coms@.take(0)) =~= start);
    while i < coms.len()
        invariant
            i <= coms@.len(),
            start == derefs(old(out)@),
            derefs(out@) == start + present(coms@.take(i as int)),
        decreases coms@.len() - i,
    {
        let ghost before = derefs(out@);
        assert(coms@.take(i + 1).drop_last() =~= coms@.take(i as int));
        match &coms[i] {
            Some(c) => {
                out.push(c);
                proof {
                    assert(derefs(out@) =~= before.push(*c));
                    assert(start + present(coms@.take(i + 1)) =~= before.push(*c));
                }
            },
            None => {},
        }
        i += 1;
    }
    assert(coms@.take(coms@.len() as int) =~= coms@);
}

/// Collect the commitments of the relaxations that are there.
fn push_relaxations<'a, P: MlPcs>(
    rels: &'a [Option<RelaxationCommitments<P>>],
    out: &mut Vec<&'a P::Commitment>,
)
    ensures
        derefs(final(out)@) == derefs(old(out)@) + relaxation_coms(rels@),
{
    let ghost start = derefs(out@);
    let mut i: usize = 0;
    assert(start + relaxation_coms(rels@.take(0)) =~= start);
    while i < rels.len()
        invariant
            i <= rels@.len(),
            start == derefs(old(out)@),
            derefs(out@) == start + relaxation_coms(rels@.take(i as int)),
        decreases rels@.len() - i,
    {
        let ghost before = derefs(out@);
        assert(rels@.take(i + 1).drop_last() =~= rels@.take(i as int));
        match &rels[i] {
            Some(r) => {
                out.push(&r.d_lower);
                out.push(&r.d_upper);
                out.push(&r.b_lower);
                out.push(&r.b_upper);
                proof {
                    let four = before.push(r.d_lower).push(r.d_upper).push(r.b_lower).push(
                        r.b_upper,
                    );
                    assert(derefs(out@) =~= four);
                    assert(start + relaxation_coms(rels@.take(i + 1)) =~= four);
                }
            },
            None => {},
        }
        i += 1;
    }
    assert(rels@.take(rels@.len() as int) =~= rels@);
}

/// Bind the transcript to a certificate's commitments.
pub fn absorb_commitments<P: MlPcs>(sponge: &mut Transcript, commitments: &TensorCommitments<P>)
    ensures
        state_of(*final(sponge)) == abs_coms::<P>(
            state_of(*old(sponge)),
            public_surface(*commitments),
        ),
{
    let mut coms: Vec<&P::Commitment> = Vec::new();
    assert(derefs(coms@) =~= Seq::<P::Commitment>::empty());
    push_present(commitments.weight.as_slice(), &mut coms);
    push_present(commitments.bias.as_slice(), &mut coms);
    push_relaxations::<P>(commitments.relaxation.as_slice(), &mut coms);
    let ghost front = derefs(coms@);
    coms.push(&commitments.x_lower);
    coms.push(&commitments.x_upper);
    coms.push(&commitments.spec_c);
    coms.push(&commitments.spec_d);
    let ghost most = derefs(coms@);
    proof {
        assert(most =~= front + seq![
            commitments.x_lower,
            commitments.x_upper,
            commitments.spec_c,
            commitments.spec_d,
        ]);
        let (l, u) = (commitments.target_lower, commitments.target_upper);
        assert(seq![l, u].drop_last() =~= seq![l]);
        assert(seq![l].drop_last() =~= Seq::<Option<P::Commitment>>::empty());
        reveal_with_fuel(present, 3);
    }
    if let Some(t) = &commitments.target_lower {
        coms.push(t);
    }
    if let Some(t) = &commitments.target_upper {
        coms.push(t);
    }
    assert(derefs(coms@) =~= public_surface(*commitments));
    absorb_all::<P>(sponge, &coms);
}

} // verus!
