//! The polynomial commitment scheme, and openings at big-endian points.
//!
//! Every gadget is written against the [`MlPcs`] trait. The scheme's own
//! points are little-endian; the helpers here reverse a big-endian point and
//! pad it with zeros to the commitment's number of variables, so that a small
//! point reads the front of a padded table.

use crate::eq_two_product::is_pow2;
use crate::errors::{PcsError, SnarkError};
use crate::field::{Fr, vals};
use crate::mle::{log2_exact, mle};
use crate::transcript::{absorb_bytes, absorbed, state_of};
use ark_crypto_primitives::sponge::merlin::Transcript;
use vstd::arithmetic::power2::pow2;
use vstd::prelude::*;

verus! {

/// A commitment scheme for multilinear polynomials, given by their tables.
pub trait MlPcs: Sized {
    /// What the prover commits and opens with.
    type CommitterKey;

    /// What the verifier checks openings with.
    type VerifierKey;

    /// A commitment.
    type Commitment;

    /// What the prover keeps of a commitment.
    type State;

    /// An opening proof.
    type Proof;

    /// The prover's source of randomness.
    type Randomness;

    /// Whether the keys belong together.
    spec fn keys_match(ck: Self::CommitterKey, vk: Self::VerifierKey) -> bool;

    /// Whether tables of a length can be committed under a key.
    spec fn can_commit(ck: Self::CommitterKey, len: nat) -> bool;

    /// Whether a commitment and its state were made for a table.
    spec fn committed(
        ck: Self::CommitterKey,
        com: Self::Commitment,
        state: Self::State,
        table: Seq<int>,
    ) -> bool;

    /// The bytes of a commitment.
    spec fn bytes(com: Self::Commitment) -> Seq<u8>;

    /// The verdict on an opening at a little-endian point, on a transcript in
    /// a given state.
    spec fn verdict(
        vk: Self::VerifierKey,
        com: Self::Commitment,
        point: Seq<int>,
        value: int,
        proof: Self::Proof,
        t0: Seq<u8>,
    ) -> Result<bool, PcsError>;

    /// The transcript state after that check.
    spec fn verdict_state(
        vk: Self::VerifierKey,
        com: Self::Commitment,
        point: Seq<int>,
        value: int,
        proof: Self::Proof,
        t0: Seq<u8>,
    ) -> Seq<u8>;

    /// The verdict on a joint opening of several commitments at one point.
    spec fn batch_verdict(
        vk: Self::VerifierKey,
        coms: Seq<Self::Commitment>,
        point: Seq<int>,
        values: Seq<int>,
        proof: Self::Proof,
        t0: Seq<u8>,
    ) -> Result<bool, PcsError>;

    /// The transcript state after that check.
    spec fn batch_verdict_state(
        vk: Self::VerifierKey,
        coms: Seq<Self::Commitment>,
        point: Seq<int>,
        values: Seq<int>,
        proof: Self::Proof,
        t0: Seq<u8>,
    ) -> Seq<u8>;

    /// Commit to a table.
    fn commit(ck: &Self::CommitterKey, table: &Vec<Fr>, rng: &mut Self::Randomness) -> (r: Result<
        (Self::Commitment, Self::State),
        PcsError,
    >)
        ensures
            r is Ok <==> Self::can_commit(*ck, table@.len()),
            r matches Ok((com, state)) ==> Self::committed(*ck, com, state, vals(table@)),
    ;

    /// The bytes of a commitment, by which a transcript is bound to it.
    fn to_bytes(com: &Self::Commitment) -> (r: Vec<u8>)
        ensures
            r@ == Self::bytes(*com),
            r@.len() <= u32::MAX,
    ;

    /// A copy of a commitment.
    fn duplicate(com: &Self::Commitment) -> (r: Self::Commitment)
        ensures
            r == *com,
    ;

    /// Open a commitment at a little-endian point. On a commitment that was
    /// made for the table this succeeds, gives the extension's value, and
    /// makes a proof that a verifier on the same transcript accepts.
    fn open(
        ck: &Self::CommitterKey,
        table: &Vec<Fr>,
        com: &Self::Commitment,
        state: &Self::State,
        point: &Vec<Fr>,
        t: &mut Transcript,
        rng: &mut Self::Randomness,
    ) -> (r: Result<(Fr, Self::Proof), PcsError>)
        requires
            table@.len() == pow2(point@.len()),
        ensures
            Self::committed(*ck, *com, *state, vals(table@)) ==> {
                &&& r matches Ok((value, proof))
                &&& value@ == mle(vals(table@), vals(point@).reverse())
                &&& forall|vk: Self::VerifierKey| #[trigger]
                    Self::keys_match(*ck, vk) ==> {
                        &&& Self::verdict(
                            vk,
                            *com,
                            vals(point@),
                            value@,
                            proof,
                            state_of(*old(t)),
                        ) == Ok::<bool, PcsError>(true)
                        &&& state_of(*final(t)) == Self::verdict_state(
                            vk,
                            *com,
                            vals(point@),
                            value@,
                            proof,
                            state_of(*old(t)),
                        )
                    }
            },
    ;

    /// Check an opening.
    fn verify(
        vk: &Self::VerifierKey,
        com: &Self::Commitment,
        point: &Vec<Fr>,
        value: Fr,
        proof: &Self::Proof,
        t: &mut Transcript,
    ) -> (r: Result<bool, PcsError>)
        ensures
            r == Self::verdict(*vk, *com, vals(point@), value@, *proof, state_of(*old(t))),
            state_of(*final(t)) == Self::verdict_state(
                *vk,
                *com,
                vals(point@),
                value@,
                *proof,
                state_of(*old(t)),
            ),
    ;

    /// Open several commitments at one little-endian point with one proof.
    fn open_batched(
        ck: &Self::CommitterKey,
        tables: &Vec<&Vec<Fr>>,
        coms: &Vec<&Self::Commitment>,
        states: &Vec<&Self::State>,
        point: &Vec<Fr>,
        t: &mut Transcript,
        rng: &mut Self::Randomness,
    ) -> (r: Result<(Vec<Fr>, Self::Proof), PcsError>)
        requires
            tables@.len() > 0,
            coms@.len() == tables@.len(),
            states@.len() == tables@.len(),
            forall|i: int| 0 <= i < tables@.len() ==> (#[trigger] tables@[i])@.len() == pow2(point@.len()),
        ensures
            r matches Ok((values, proof)) ==> values@.len() == tables@.len(),
            (forall|i: int|
                0 <= i < tables@.len() ==> Self::committed(
                    *ck,
                    *coms@[i],
                    *states@[i],
                    vals((#[trigger] tables@[i])@),
                )) ==> {
                &&& r matches Ok((values, proof))
                &&& vals(values@) == Seq::new(
                    tables@.len(),
                    |i: int| mle(vals(tables@[i]@), vals(point@).reverse()),
                )
                &&& forall|vk: Self::VerifierKey| #[trigger]
                    Self::keys_match(*ck, vk) ==> {
                        &&& Self::batch_verdict(
                            vk,
                            Seq::new(coms@.len(), |i: int| *coms@[i]),
                            vals(point@),
                            vals(values@),
                            proof,
                            state_of(*old(t)),
                        ) == Ok::<bool, PcsError>(true)
                        &&& state_of(*final(t)) == Self::batch_verdict_state(
                            vk,
                            Seq::new(coms@.len(), |i: int| *coms@[i]),
                            vals(point@),
                            vals(values@),
                            proof,
                            state_of(*old(t)),
                        )
                    }
            },
    ;

    /// Check a joint opening.
    fn verify_batched(
        vk: &Self::VerifierKey,
        coms: &Vec<&Self::Commitment>,
        point: &Vec<Fr>,
        values: &Vec<Fr>,
        proof: &Self::Proof,
        t: &mut Transcript,
    ) -> (r: Result<bool, PcsError>)
        requires
            coms@.len() == values@.len(),
        ensures
            r == Self::batch_verdict(
                *vk,
                Seq::new(coms@.len(), |i: int| *coms@[i]),
                vals(point@),
                vals(values@),
                *proof,
                state_of(*old(t)),
            ),
            state_of(*final(t)) == Self::batch_verdict_state(
                *vk,
                Seq::new(coms@.len(), |i: int| *coms@[i]),
                vals(point@),
                vals(values@),
                *proof,
                state_of(*old(t)),
            ),
    ;
}

/// What the prover keeps of a committed table: its entries, and the state that
/// opens the commitment.
pub struct CommittedAux<P: MlPcs> {
    pub table: Vec<Fr>,
    pub state: P::State,
}

/// Whether a commitment was made for the table that the prover kept.
pub open spec fn aux_of<P: MlPcs>(
    ck: P::CommitterKey,
    com: P::Commitment,
    aux: CommittedAux<P>,
) -> bool {
    P::committed(ck, com, aux.state, vals(aux.table@))
}

/// A sequence of `n` zeros.
pub open spec fn zeros(n: nat) -> Seq<int> {
    Seq::new(n, |i: int| 0int)
}

/// The little-endian point of `n` coordinates that a big-endian point stands
/// for: reversed, then padded with zeros.
pub open spec fn lifted(point: Seq<int>, n: nat) -> Seq<int> {
    point.reverse() + zeros((n - point.len()) as nat)
}

/// The value at a big-endian point of a padded table: the leading variables,
/// which the point does not name, are zero.
pub open spec fn mle_padded(table: Seq<int>, point: Seq<int>, n: nat) -> int {
    mle(table, zeros((n - point.len()) as nat) + point)
}

/// Convert a big-endian point to a little-endian, zero-padded one.
pub fn lift_point_to_max(small_point_be: &[Fr], max_num_vars: usize) -> (out: Vec<Fr>)
    requires
        small_point_be@.len() <= max_num_vars,
    ensures
        vals(out@) == lifted(vals(small_point_be@), max_num_vars as nat),
        out@.len() == max_num_vars,
{
    let k: usize = small_point_be.len();
    let zero: Fr = Fr::from_u64(0);
    let mut out: Vec<Fr> = Vec::with_capacity(max_num_vars);
    let mut i: usize = 0;
    while i < max_num_vars
        invariant
            i <= max_num_vars,
            k == small_point_be@.len(),
            k <= max_num_vars,
            zero@ == 0,
            out@.len() == i,
            forall|j: int|
                0 <= j < i ==> (#[trigger] out@[j])@ == lifted(
                    vals(small_point_be@),
                    max_num_vars as nat,
                )[j],
        decreases max_num_vars - i,
    {
        if i < k {
            out.push(small_point_be[k - 1 - i]);
        } else {
            out.push(zero);
        }
        i += 1;
    }
    assert(vals(out@) =~= lifted(vals(small_point_be@), max_num_vars as nat));
    out
}

/// Reversing a lifted point gives the zero-padded big-endian point.
pub proof fn lemma_lifted_reverse(point: Seq<int>, n: nat)
    requires
        point.len() <= n,
    ensures
        lifted(point, n).reverse() == zeros((n - point.len()) as nat) + point,
{
    assert(lifted(point, n).reverse() =~= zeros((n - point.len()) as nat) + point);
}

/// The verdict on an opening at a big-endian point.
pub open spec fn open_verdict<P: MlPcs>(
    vk: P::VerifierKey,
    com: P::Commitment,
    point: Seq<int>,
    value: int,
    proof: P::Proof,
    n_vars: nat,
    t0: Seq<u8>,
) -> Result<bool, SnarkError> {
    if point.len() > n_vars {
        Err(SnarkError::ShapeMismatch {
            what: "hyrax_verify_at: verify point has more vars than the commit",
        })
    } else {
        match P::verdict(vk, com, lifted(point, n_vars), value, proof, t0) {
            Ok(b) => Ok(b),
            Err(e) => Err(SnarkError::Pcs(e)),
        }
    }
}

/// The transcript state after that check.
pub open spec fn open_state<P: MlPcs>(
    vk: P::VerifierKey,
    com: P::Commitment,
    point: Seq<int>,
    value: int,
    proof: P::Proof,
    n_vars: nat,
    t0: Seq<u8>,
) -> Seq<u8> {
    if point.len() > n_vars {
        t0
    } else {
        P::verdict_state(vk, com, lifted(point, n_vars), value, proof, t0)
    }
}

/// Whether an opening is accepted.
pub open spec fn open_accepted<P: MlPcs>(
    vk: P::VerifierKey,
    com: P::Commitment,
    point: Seq<int>,
    value: int,
    proof: P::Proof,
    n_vars: nat,
    t0: Seq<u8>,
) -> bool {
    open_verdict::<P>(vk, com, point, value, proof, n_vars, t0) == Ok::<bool, SnarkError>(true)
}

/// Open a committed table at a big-endian point.
pub fn hyrax_open_at<P: MlPcs>(
    ck: &P::CommitterKey,
    aux: &CommittedAux<P>,
    commitment: &P::Commitment,
    point_be: &[Fr],
    sponge: &mut Transcript,
    rng: &mut P::Randomness,
) -> (r: Result<(Fr, P::Proof), SnarkError>)
    ensures
        match r {
            Err(SnarkError::ShapeMismatch { what }) => {
                ||| !is_pow2(aux.table@.len()) && what
                    == "hyrax_open_at: aux MLE length must be a non-zero power of two"
                ||| what == "hyrax_open_at: opening point has more vars than the commit" && forall|n: nat|
                    pow2(n) == aux.table@.len() ==> point_be@.len() > n
            },
            Err(e) => e is Pcs && !aux_of(*ck, *commitment, *aux),
            Ok(_) => true,
        },
        r matches Err(e) ==> e is Pcs || state_of(*final(sponge)) == state_of(*old(sponge)),
        forall|n: nat|
            (#[trigger] pow2(n) == aux.table@.len() && point_be@.len() <= n && aux_of(
                *ck,
                *commitment,
                *aux,
            )) ==> {
                &&& r matches Ok((value, proof))
                &&& value@ == mle_padded(vals(aux.table@), vals(point_be@), n)
                &&& forall|vk: P::VerifierKey| #[trigger]
                    P::keys_match(*ck, vk) ==> {
                        &&& open_accepted::<P>(
                            vk,
                            *commitment,
                            vals(point_be@),
                            value@,
                            proof,
                            n,
                            state_of(*old(sponge)),
                        )
                        &&& state_of(*final(sponge)) == open_state::<P>(
                            vk,
                            *commitment,
                            vals(point_be@),
                            value@,
                            proof,
                            n,
                            state_of(*old(sponge)),
                        )
                    }
            },
{
    let n_vars: usize = match log2_exact(aux.table.len()) {
        Some(n) => n,
        None => {
            return Err(
                SnarkError::ShapeMismatch {
                    what: "hyrax_open_at: aux MLE length must be a non-zero power of two",
                },
            );
        },
    };
    proof {
        assert forall|n: nat| #[trigger] pow2(n) == aux.table@.len() implies n == n_vars by {
            lemma_pow2_injective(n, n_vars as nat);
        }
    }
    if point_be.len() > n_vars {
        return Err(
            SnarkError::ShapeMismatch {
                what: "hyrax_open_at: opening point has more vars than the commit",
            },
        );
    }
    let lifted_point: Vec<Fr> = lift_point_to_max(point_be, n_vars);
    proof {
        lemma_lifted_reverse(vals(point_be@), n_vars as nat);
    }
    match P::open(ck, &aux.table, commitment, &aux.state, &lifted_point, sponge, rng) {
        Ok((value, proof)) => Ok((value, proof)),
        Err(e) => Err(SnarkError::Pcs(e)),
    }
}

/// Distinct exponents give distinct powers of two.
pub proof fn lemma_pow2_injective(a: nat, b: nat)
    ensures
        pow2(a) == pow2(b) <==> a == b,
{
    if a < b {
        vstd::arithmetic::power2::lemma_pow2_strictly_increases(a, b);
    } else if b < a {
        vstd::arithmetic::power2::lemma_pow2_strictly_increases(b, a);
    }
}

/// Check an opening at a big-endian point against a commitment of
/// `commit_n_vars` variables.
pub fn hyrax_verify_at<P: MlPcs>(
    vk: &P::VerifierKey,
    commitment: &P::Commitment,
    point_be: &[Fr],
    value: Fr,
    proof: &P::Proof,
    commit_n_vars: usize,
    sponge: &mut Transcript,
) -> (r: Result<bool, SnarkError>)
    ensures
        r == open_verdict::<P>(
            *vk,
            *commitment,
            vals(point_be@),
            value@,
            *proof,
            commit_n_vars as nat,
            state_of(*old(sponge)),
        ),
        state_of(*final(sponge)) == open_state::<P>(
            *vk,
            *commitment,
            vals(point_be@),
            value@,
            *proof,
            commit_n_vars as nat,
            state_of(*old(sponge)),
        ),
{
    if point_be.len() > commit_n_vars {
        return Err(
            SnarkError::ShapeMismatch {
                what: "hyrax_verify_at: verify point has more vars than the commit",
            },
        );
    }
    let lifted_point: Vec<Fr> = lift_point_to_max(point_be, commit_n_vars);
    match P::verify(vk, commitment, &lifted_point, value, proof, sponge) {
        Ok(b) => Ok(b),
        Err(e) => Err(SnarkError::Pcs(e)),
    }
}

/// One table of a joint opening, with the commitment's number of variables.
pub struct BatchOpenSpec<'a, P: MlPcs> {
    pub aux: &'a CommittedAux<P>,
    pub commitment: &'a P::Commitment,
    pub commit_n_vars: usize,
}

/// One claim of a joint opening, with the commitment's number of variables.
pub struct BatchVerifySpec<'a, P: MlPcs> {
    pub commitment: &'a P::Commitment,
    pub value: Fr,
    pub commit_n_vars: usize,
}

/// The commitments of a joint opening.
pub open spec fn batch_coms<P: MlPcs>(items: Seq<BatchVerifySpec<P>>) -> Seq<P::Commitment> {
    Seq::new(items.len(), |i: int| *items[i].commitment)
}

/// The claimed values of a joint opening.
pub open spec fn batch_values<P: MlPcs>(items: Seq<BatchVerifySpec<P>>) -> Seq<int> {
    Seq::new(items.len(), |i: int| items[i].value@)
}

/// The verdict on a joint opening of commitments of `n_vars` variables at a
/// big-endian point.
pub open spec fn batch_open_verdict<P: MlPcs>(
    vk: P::VerifierKey,
    coms: Seq<P::Commitment>,
    values: Seq<int>,
    point: Seq<int>,
    proof: P::Proof,
    n_vars: nat,
    t0: Seq<u8>,
) -> Result<bool, SnarkError> {
    if point.len() > n_vars {
        Err(SnarkError::ShapeMismatch {
            what: "hyrax_verify_batched_at: verify point has more vars than the commit",
        })
    } else {
        match P::batch_verdict(vk, coms, lifted(point, n_vars), values, proof, t0) {
            Ok(b) => Ok(b),
            Err(e) => Err(SnarkError::Pcs(e)),
        }
    }
}

/// The transcript state after that check.
pub open spec fn batch_open_state<P: MlPcs>(
    vk: P::VerifierKey,
    coms: Seq<P::Commitment>,
    values: Seq<int>,
    point: Seq<int>,
    proof: P::Proof,
    n_vars: nat,
    t0: Seq<u8>,
) -> Seq<u8> {
    if point.len() > n_vars {
        t0
    } else {
        P::batch_verdict_state(vk, coms, lifted(point, n_vars), values, proof, t0)
    }
}

/// Whether the tables before an index have the first commitment's size.
pub open spec fn sized_before<P: MlPcs>(items: Seq<BatchOpenSpec<P>>, k: int) -> bool {
    forall|j: int|
        0 <= j < k ==> (#[trigger] items[j]).aux.table@.len() == pow2(items[0].commit_n_vars as nat)
}

/// Only one index is the first whose table is not of that size.
proof fn lemma_first_missized<P: MlPcs>(items: Seq<BatchOpenSpec<P>>, k: int)
    requires
        0 <= k < items.len(),
        sized_before(items, k),
        items[k].aux.table@.len() != pow2(items[0].commit_n_vars as nat),
    ensures
        forall|j: int|
            0 <= j < items.len() && (#[trigger] items[j]).aux.table@.len() != pow2(
                items[0].commit_n_vars as nat,
            ) && sized_before(items, j) ==> j == k,
{
    assert forall|j: int|
        0 <= j < items.len() && (#[trigger] items[j]).aux.table@.len() != pow2(
            items[0].commit_n_vars as nat,
        ) && sized_before(items, j) implies j == k by {
        assert(items[k].aux.table@.len() != pow2(items[0].commit_n_vars as nat));
    }
}

/// Open several committed tables at one big-endian point.
pub fn hyrax_open_batched_at<P: MlPcs>(
    ck: &P::CommitterKey,
    items: &Vec<BatchOpenSpec<'_, P>>,
    point_be: &[Fr],
    sponge: &mut Transcript,
    rng: &mut P::Randomness,
) -> (r: Result<(Vec<Fr>, P::Proof), SnarkError>)
    ensures
        r matches Ok((values, proof)) ==> values@.len() == items@.len(),
        items@.len() == 0 ==> r == Err::<(Vec<Fr>, P::Proof), SnarkError>(
            SnarkError::ShapeMismatch { what: "hyrax_open_batched_at: empty item list" },
        ),
        items@.len() > 0 && point_be@.len() > items@[0].commit_n_vars ==> r == Err::<
            (Vec<Fr>, P::Proof),
            SnarkError,
        >(
            SnarkError::ShapeMismatch {
                what: "hyrax_open_batched_at: opening point has more vars than the commit",
            },
        ),
        items@.len() > 0 && point_be@.len() <= items@[0].commit_n_vars && !(forall|i: int|
            0 <= i < items@.len() ==> (#[trigger] items@[i]).commit_n_vars == items@[0].commit_n_vars)
            ==> r == Err::<(Vec<Fr>, P::Proof), SnarkError>(
            SnarkError::ShapeMismatch {
                what: "hyrax_open_batched_at: heterogeneous commit_n_vars",
            },
        ),
        items@.len() > 0 && point_be@.len() <= items@[0].commit_n_vars && (forall|i: int|
            0 <= i < items@.len() ==> (#[trigger] items@[i]).commit_n_vars == items@[0].commit_n_vars)
            ==> forall|k: int|
            0 <= k < items@.len() && (#[trigger] items@[k]).aux.table@.len() != pow2(
                items@[0].commit_n_vars as nat,
            ) && sized_before(items@, k) ==> r == Err::<(Vec<Fr>, P::Proof), SnarkError>(
                SnarkError::ShapeMismatch {
                    what: if is_pow2(items@[k].aux.table@.len()) {
                        "hyrax_open_batched_at: aux MLE n_vars != commit_n_vars"
                    } else {
                        "hyrax_open_batched_at: aux MLE length must be a non-zero power of two"
                    },
                },
            ),
        r matches Err(e) ==> e is Pcs || e is ShapeMismatch && state_of(*final(sponge)) == state_of(
            *old(sponge),
        ),
        items@.len() > 0 && point_be@.len() <= items@[0].commit_n_vars && (forall|i: int|
            0 <= i < items@.len() ==> {
                &&& (#[trigger] items@[i]).commit_n_vars == items@[0].commit_n_vars
                &&& items@[i].aux.table@.len() == pow2(items@[0].commit_n_vars as nat)
            }) ==> (r matches Err(e) ==> e is Pcs),
        items@.len() > 0 && point_be@.len() <= items@[0].commit_n_vars && (forall|i: int|
            0 <= i < items@.len() ==> {
                &&& (#[trigger] items@[i]).commit_n_vars == items@[0].commit_n_vars
                &&& items@[i].aux.table@.len() == pow2(items@[0].commit_n_vars as nat)
                &&& aux_of(*ck, *items@[i].commitment, *items@[i].aux)
            }) ==> {
            let n = items@[0].commit_n_vars as nat;
            &&& r matches Ok((values, proof))
            &&& vals(values@) == Seq::new(
                items@.len(),
                |i: int| mle_padded(vals(items@[i].aux.table@), vals(point_be@), n),
            )
            &&& forall|vk: P::VerifierKey| #[trigger]
                P::keys_match(*ck, vk) ==> {
                    &&& batch_open_verdict::<P>(
                        vk,
                        Seq::new(items@.len(), |i: int| *items@[i].commitment),
                        vals(values@),
                        vals(point_be@),
                        proof,
                        n,
                        state_of(*old(sponge)),
                    ) == Ok::<bool, SnarkError>(true)
                    &&& state_of(*final(sponge)) == batch_open_state::<P>(
                        vk,
                        Seq::new(items@.len(), |i: int| *items@[i].commitment),
                        vals(values@),
                        vals(point_be@),
                        proof,
                        n,
                        state_of(*old(sponge)),
                    )
                }
        },
{
    if items.len() == 0 {
        return Err(SnarkError::ShapeMismatch { what: "hyrax_open_batched_at: empty item list" });
    }
    let n_vars: usize = items[0].commit_n_vars;
    if point_be.len() > n_vars {
        return Err(
            SnarkError::ShapeMismatch {
                what: "hyrax_open_batched_at: opening point has more vars than the commit",
            },
        );
    }
    let mut i: usize = 0;
    while i < items.len()
        invariant
            i <= items@.len(),
            items@.len() > 0,
            n_vars == items@[0].commit_n_vars,
            point_be@.len() <= n_vars,
            forall|j: int| 0 <= j < i ==> (#[trigger] items@[j]).commit_n_vars == n_vars,
        decreases items@.len() - i,
    {
        if items[i].commit_n_vars != n_vars {
            return Err(
                SnarkError::ShapeMismatch {
                    what: "hyrax_open_batched_at: heterogeneous commit_n_vars",
                },
            );
        }
        i += 1;
    }
    let mut tables: Vec<&Vec<Fr>> = Vec::with_capacity(items.len());
    let mut coms: Vec<&P::Commitment> = Vec::with_capacity(items.len());
    let mut states: Vec<&P::State> = Vec::with_capacity(items.len());
    let mut k: usize = 0;
    while k < items.len()
        invariant
            k <= items@.len(),
            items@.len() > 0,
            n_vars == items@[0].commit_n_vars,
            point_be@.len() <= n_vars,
            forall|j: int| 0 <= j < items@.len() ==> (#[trigger] items@[j]).commit_n_vars == n_vars,
            tables@.len() == k,
            coms@.len() == k,
            states@.len() == k,
            forall|j: int|
                0 <= j < k ==> #[trigger] tables@[j] == &items@[j].aux.table && tables@[j]@.len()
                    == pow2(n_vars as nat),
            forall|j: int| 0 <= j < k ==> #[trigger] coms@[j] == items@[j].commitment,
            forall|j: int| 0 <= j < k ==> #[trigger] states@[j] == &items@[j].aux.state,
            state_of(*sponge) == state_of(*old(sponge)),
            sized_before(items@, k as int),
        decreases items@.len() - k,
    {
        match log2_exact(items[k].aux.table.len()) {
            None => {
                proof {
                    assert(items@[k as int].aux.table@.len() != pow2(n_vars as nat));
                    lemma_first_missized(items@, k as int);
                }
                return Err(
                    SnarkError::ShapeMismatch {
                        what: "hyrax_open_batched_at: aux MLE length must be a non-zero power of two",
                    },
                );
            },
            Some(l) => {
                if l != n_vars {
                    proof {
                        lemma_pow2_injective(l as nat, n_vars as nat);
                        assert(items@[k as int].aux.table@.len() != pow2(n_vars as nat));
                        assert(is_pow2(items@[k as int].aux.table@.len()));
                        lemma_first_missized(items@, k as int);
                    }
                    return Err(
                        SnarkError::ShapeMismatch {
                            what: "hyrax_open_batched_at: aux MLE n_vars != commit_n_vars",
                        },
                    );
                }
            },
        }
        tables.push(&items[k].aux.table);
        coms.push(items[k].commitment);
        states.push(&items[k].aux.state);
        k += 1;
    }
    let lifted_point: Vec<Fr> = lift_point_to_max(point_be, n_vars);
    proof {
        lemma_lifted_reverse(vals(point_be@), n_vars as nat);
        assert(Seq::new(coms@.len(), |i: int| *coms@[i]) =~= Seq::new(
            items@.len(),
            |i: int| *items@[i].commitment,
        ));
        assert(Seq::new(tables@.len(), |i: int| mle(vals(tables@[i]@), vals(lifted_point@).reverse()))
            =~= Seq::new(
            items@.len(),
            |i: int| mle_padded(vals(items@[i].aux.table@), vals(point_be@), n_vars as nat),
        ));
        assert forall|i: int|
            0 <= i < tables@.len() && (forall|j: int|
                0 <= j < items@.len() ==> {
                    &&& (#[trigger] items@[j]).commit_n_vars == items@[0].commit_n_vars
                    &&& items@[j].aux.table@.len() == pow2(items@[0].commit_n_vars as nat)
                    &&& aux_of(*ck, *items@[j].commitment, *items@[j].aux)
                }) implies P::committed(*ck, *coms@[i], *states@[i], vals((#[trigger] tables@[i])@)) by {
            assert(aux_of(*ck, *items@[i].commitment, *items@[i].aux));
        }
    }
    match P::open_batched(ck, &tables, &coms, &states, &lifted_point, sponge, rng) {
        Ok((values, proof)) => Ok((values, proof)),
        Err(e) => Err(SnarkError::Pcs(e)),
    }
}

/// Check a joint opening at a big-endian point.
pub fn hyrax_verify_batched_at<P: MlPcs>(
    vk: &P::VerifierKey,
    items: &Vec<BatchVerifySpec<'_, P>>,
    point_be: &[Fr],
    proof: &P::Proof,
    sponge: &mut Transcript,
) -> (r: Result<bool, SnarkError>)
    ensures
        items@.len() == 0 ==> r == Err::<bool, SnarkError>(
            SnarkError::ShapeMismatch { what: "hyrax_verify_batched_at: empty item list" },
        ),
        items@.len() > 0 && point_be@.len() <= items@[0].commit_n_vars && !(forall|i: int|
            0 <= i < items@.len() ==> (#[trigger] items@[i]).commit_n_vars == items@[0].commit_n_vars)
            ==> r == Err::<bool, SnarkError>(
            SnarkError::ShapeMismatch {
                what: "hyrax_verify_batched_at: heterogeneous commit_n_vars",
            },
        ),
        items@.len() == 0 || !(forall|i: int|
            0 <= i < items@.len() ==> (#[trigger] items@[i]).commit_n_vars == items@[0].commit_n_vars)
            ==> state_of(*final(sponge)) == state_of(*old(sponge)),
        items@.len() > 0 && (point_be@.len() > items@[0].commit_n_vars || forall|i: int|
            0 <= i < items@.len() ==> (#[trigger] items@[i]).commit_n_vars == items@[0].commit_n_vars)
            ==> {
            &&& r == batch_open_verdict::<P>(
                *vk,
                batch_coms(items@),
                batch_values(items@),
                vals(point_be@),
                *proof,
                items@[0].commit_n_vars as nat,
                state_of(*old(sponge)),
            )
            &&& state_of(*final(sponge)) == batch_open_state::<P>(
                *vk,
                batch_coms(items@),
                batch_values(items@),
                vals(point_be@),
                *proof,
                items@[0].commit_n_vars as nat,
                state_of(*old(sponge)),
            )
        },
{
    if items.len() == 0 {
        return Err(SnarkError::ShapeMismatch { what: "hyrax_verify_batched_at: empty item list" });
    }
    let n_vars: usize = items[0].commit_n_vars;
    if point_be.len() > n_vars {
        return Err(
            SnarkError::ShapeMismatch {
                what: "hyrax_verify_batched_at: verify point has more vars than the commit",
            },
        );
    }
    let mut i: usize = 0;
    let mut coms: Vec<&P::Commitment> = Vec::with_capacity(items.len());
    let mut values: Vec<Fr> = Vec::with_capacity(items.len());
    while i < items.len()
        invariant
            i <= items@.len(),
            items@.len() > 0,
            n_vars == items@[0].commit_n_vars,
            point_be@.len() <= n_vars,
            forall|j: int| 0 <= j < i ==> (#[trigger] items@[j]).commit_n_vars == n_vars,
            coms@.len() == i,
            values@.len() == i,
            forall|j: int| 0 <= j < i ==> #[trigger] coms@[j] == items@[j].commitment,
            forall|j: int| 0 <= j < i ==> #[trigger] values@[j] == items@[j].value,
        decreases items@.len() - i,
    {
        if items[i].commit_n_vars != n_vars {
            return Err(
                SnarkError::ShapeMismatch {
                    what: "hyrax_verify_batched_at: heterogeneous commit_n_vars",
                },
            );
        }
        coms.push(items[i].commitment);
        values.push(items[i].value);
        i += 1;
    }
    let lifted_point: Vec<Fr> = lift_point_to_max(point_be, n_vars);
    proof {
        assert(Seq::new(coms@.len(), |i: int| *coms@[i]) =~= batch_coms(items@));
        assert(vals(values@) =~= batch_values(items@));
    }
    match P::verify_batched(vk, &coms, &lifted_point, &values, proof, sponge) {
        Ok(b) => Ok(b),
        Err(e) => Err(SnarkError::Pcs(e)),
    }
}

/// The state after a commitment's bytes were absorbed.
pub open spec fn abs_com<P: MlPcs>(t0: Seq<u8>, com: P::Commitment) -> Seq<u8> {
    absorbed(t0, P::bytes(com))
}

/// Bind the transcript to a commitment.
pub fn absorb_commitment<P: MlPcs>(sponge: &mut Transcript, com: &P::Commitment)
    ensures
        state_of(*final(sponge)) == abs_com::<P>(state_of(*old(sponge)), *com),
{
    let bytes: Vec<u8> = P::to_bytes(com);
    absorb_bytes(sponge, bytes.as_slice());
}

/// Commit to a table and keep what opens it.
pub fn commit_table<P: MlPcs>(
    ck: &P::CommitterKey,
    table: Vec<Fr>,
    rng: &mut P::Randomness,
) -> (r: Result<(P::Commitment, CommittedAux<P>), SnarkError>)
    ensures
        r is Ok <==> P::can_commit(*ck, table@.len()),
        r matches Err(e) ==> e is Pcs,
        r matches Ok((com, aux)) ==> aux.table@ == table@ && aux_of(*ck, com, aux),
{
    match P::commit(ck, &table, rng) {
        Ok((com, state)) => Ok((com, CommittedAux { table, state })),
        Err(e) => Err(SnarkError::Pcs(e)),
    }
}

} // verus!
