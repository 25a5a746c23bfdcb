//! Several openings, one after the other, and values of padded tables.

use crate::columns::{even_vars, lifted_codes, zero_padded};
use crate::errors::{SnarkError, and_also, opened};
use crate::field::{Fr, all_in_field, lemma_view_in_field, vals};
use crate::mle::{ceil_log2, lemma_ceil_log2, mle};
use crate::mle_laws::law_mle_padded;
use crate::pcs::{
    BatchOpenSpec, BatchVerifySpec, CommittedAux, MlPcs, aux_of, batch_coms, batch_open_state,
    batch_open_verdict, batch_values, hyrax_open_at, hyrax_open_batched_at, hyrax_verify_at,
    hyrax_verify_batched_at, mle_padded, open_accepted, open_state, open_verdict, zeros,
};
use crate::qarray::{
    CodeMatrix, committed_table, lemma_matrix_front, lemma_matrix_table, matrix_rows,
    matrix_width, padded_cells, vector_table,
};
use crate::transcript::state_of;
use ark_crypto_primitives::sponge::merlin::Transcript;
use vstd::arithmetic::power2::{lemma_pow2_strictly_increases, pow2};
use vstd::prelude::*;

verus! {

/// One claimed opening: a committed table's value at a point.
pub struct OpeningClaim<'a, P: MlPcs> {
    /// What an error calls the table.
    pub which: &'static str,
    pub commitment: &'a P::Commitment,
    pub point: Vec<Fr>,
    pub value: Fr,
    pub proof: &'a P::Proof,
    pub n_vars: usize,
}

/// A claimed opening, as mathematical values.
#[verifier::ext_equal]
pub struct OpeningView<P: MlPcs> {
    pub which: &'static str,
    pub commitment: P::Commitment,
    pub point: Seq<int>,
    pub value: int,
    pub proof: P::Proof,
    pub n_vars: nat,
}

/// The values of a claim.
pub open spec fn claim_view<P: MlPcs>(c: OpeningClaim<P>) -> OpeningView<P> {
    OpeningView {
        which: c.which,
        commitment: *c.commitment,
        point: vals(c.point@),
        value: c.value@,
        proof: *c.proof,
        n_vars: c.n_vars as nat,
    }
}

/// The values of claims.
pub open spec fn claim_views<P: MlPcs>(c: Seq<OpeningClaim<P>>) -> Seq<OpeningView<P>> {
    Seq::new(c.len(), |i: int| claim_view(c[i]))
}

/// The state after the first `k` openings.
pub open spec fn openings_state<P: MlPcs>(
    vk: P::VerifierKey,
    claims: Seq<OpeningView<P>>,
    k: nat,
    t0: Seq<u8>,
) -> Seq<u8>
    decreases k,
{
    if k == 0 {
        t0
    } else {
        let c = claims[k - 1];
        open_state::<P>(
            vk,
            c.commitment,
            c.point,
            c.value,
            c.proof,
            c.n_vars,
            openings_state(vk, claims, (k - 1) as nat, t0),
        )
    }
}

/// The verdict on the first `k` openings: the first one that fails decides.
pub open spec fn openings_verdict<P: MlPcs>(
    vk: P::VerifierKey,
    claims: Seq<OpeningView<P>>,
    k: nat,
    t0: Seq<u8>,
) -> Result<(), SnarkError>
    decreases k,
{
    if k == 0 {
        Ok(())
    } else {
        let c = claims[k - 1];
        and_also(
            openings_verdict(vk, claims, (k - 1) as nat, t0),
            opened(
                open_verdict::<P>(
                    vk,
                    c.commitment,
                    c.point,
                    c.value,
                    c.proof,
                    c.n_vars,
                    openings_state(vk, claims, (k - 1) as nat, t0),
                ),
                c.which,
            ),
        )
    }
}

/// An early failure decides.
proof fn lemma_openings_err<P: MlPcs>(
    vk: P::VerifierKey,
    claims: Seq<OpeningView<P>>,
    j: nat,
    k: nat,
    t0: Seq<u8>,
)
    requires
        j <= k,
        openings_verdict(vk, claims, j, t0) is Err,
    ensures
        openings_verdict(vk, claims, k, t0) == openings_verdict(vk, claims, j, t0),
    decreases k,
{
    if j < k {
        lemma_openings_err(vk, claims, j, (k - 1) as nat, t0);
    }
}

/// Whether opening `k` is accepted after the ones before it.
pub open spec fn claim_accepted<P: MlPcs>(
    vk: P::VerifierKey,
    claims: Seq<OpeningView<P>>,
    k: nat,
    t0: Seq<u8>,
) -> bool {
    let c = claims[k as int];
    open_accepted::<P>(
        vk,
        c.commitment,
        c.point,
        c.value,
        c.proof,
        c.n_vars,
        openings_state(vk, claims, k, t0),
    )
}

/// Openings that are accepted one by one are accepted together.
pub proof fn lemma_claims_accepted<P: MlPcs>(
    vk: P::VerifierKey,
    claims: Seq<OpeningView<P>>,
    k: nat,
    t0: Seq<u8>,
)
    requires
        forall|j: nat| j < k ==> #[trigger] claim_accepted(vk, claims, j, t0),
    ensures
        openings_verdict(vk, claims, k, t0) == Ok::<(), SnarkError>(()),
    decreases k,
{
    if k > 0 {
        lemma_claims_accepted(vk, claims, (k - 1) as nat, t0);
        assert(claim_accepted(vk, claims, (k - 1) as nat, t0));
    }
}

/// Check openings one after the other.
pub fn verify_openings<P: MlPcs>(
    vk: &P::VerifierKey,
    claims: &Vec<OpeningClaim<'_, P>>,
    sponge: &mut Transcript,
) -> (r: Result<(), SnarkError>)
    ensures
        r == openings_verdict(*vk, claim_views(claims@), claims@.len(), state_of(*old(sponge))),
        r is Ok ==> state_of(*final(sponge)) == openings_state(
            *vk,
            claim_views(claims@),
            claims@.len(),
            state_of(*old(sponge)),
        ),
{
    let ghost t0 = state_of(*sponge);
    let ghost cv = claim_views(claims@);
    let mut i: usize = 0;
    while i < claims.len()
        invariant
            i <= claims@.len(),
            cv == claim_views(claims@),
            t0 == state_of(*old(sponge)),
            openings_verdict(*vk, cv, i as nat, t0) == Ok::<(), SnarkError>(()),
            state_of(*sponge) == openings_state(*vk, cv, i as nat, t0),
        decreases claims@.len() - i,
    {
        let c: &OpeningClaim<'_, P> = &claims[i];
        match hyrax_verify_at::<P>(
            vk,
            c.commitment,
            c.point.as_slice(),
            c.value,
            c.proof,
            c.n_vars,
            sponge,
        ) {
            Ok(true) => {},
            Ok(false) => {
                proof {
                    lemma_openings_err(*vk, cv, (i + 1) as nat, cv.len(), t0);
                }
                return Err(SnarkError::PcsOpenRejected { which: c.which });
            },
            Err(e) => {
                proof {
                    lemma_openings_err(*vk, cv, (i + 1) as nat, cv.len(), t0);
                }
                return Err(e);
            },
        }
        i += 1;
    }
    Ok(())
}

// ---- Padded tables ----

/// Whether a committed table is a table of `n` variables, padded to the next
/// even number of variables of at least two.
pub open spec fn front_of(table: Seq<int>, evals: Seq<int>, n: nat) -> bool {
    &&& evals.len() == pow2(n)
    &&& table.len() == pow2(even_vars(n))
    &&& table.take(evals.len() as int) == evals
}

/// A padded table has the values of the table that it pads.
pub proof fn lemma_front_value(table: Seq<int>, evals: Seq<int>, point: Seq<int>)
    requires
        front_of(table, evals, point.len()),
        all_in_field(table),
    ensures
        mle_padded(table, point, even_vars(point.len())) == mle(evals, point),
        point.len() <= even_vars(point.len()),
{
    law_mle_padded(table, point, even_vars(point.len()));
}

/// Whether a commitment was made for a table that pads `evals`.
pub open spec fn committed_front<P: MlPcs>(
    ck: P::CommitterKey,
    com: P::Commitment,
    aux: CommittedAux<P>,
    evals: Seq<int>,
    n: nat,
) -> bool {
    &&& aux_of(ck, com, aux)
    &&& front_of(vals(aux.table@), evals, n)
}

/// Open a committed table at a point of the variables of the table that it
/// pads.
pub fn open_front<P: MlPcs>(
    ck: &P::CommitterKey,
    aux: &CommittedAux<P>,
    commitment: &P::Commitment,
    point: &[Fr],
    sponge: &mut Transcript,
    rng: &mut P::Randomness,
) -> (r: Result<(Fr, P::Proof), SnarkError>)
    ensures
        forall|evals: Seq<int>| #[trigger]
            committed_front(*ck, *commitment, *aux, evals, point@.len()) ==> {
                &&& r matches Ok((value, proof))
                &&& value@ == mle(evals, vals(point@))
                &&& forall|vk: P::VerifierKey| #[trigger]
                    P::keys_match(*ck, vk) ==> {
                        &&& open_accepted::<P>(
                            vk,
                            *commitment,
                            vals(point@),
                            value@,
                            proof,
                            even_vars(point@.len()),
                            state_of(*old(sponge)),
                        )
                        &&& state_of(*final(sponge)) == open_state::<P>(
                            vk,
                            *commitment,
                            vals(point@),
                            value@,
                            proof,
                            even_vars(point@.len()),
                            state_of(*old(sponge)),
                        )
                    }
            },
{
    proof {
        broadcast use lemma_view_in_field;

        assert forall|evals: Seq<int>| #[trigger]
            committed_front(*ck, *commitment, *aux, evals, point@.len()) implies {
            &&& pow2(even_vars(point@.len())) == aux.table@.len()
            &&& point@.len() <= even_vars(point@.len())
            &&& mle_padded(vals(aux.table@), vals(point@), even_vars(point@.len())) == mle(
                evals,
                vals(point@),
            )
        } by {
            assert(vals(point@).len() == point@.len());
            assert(vals(aux.table@).len() == aux.table@.len());
            lemma_front_value(vals(aux.table@), evals, vals(point@));
        }
    }
    hyrax_open_at::<P>(ck, aux, commitment, point, sponge, rng)
}

/// The table of a committed matrix pads the table of the matrix's own axes.
pub proof fn lemma_matrix_is_front(m: CodeMatrix)
    ensures
        front_of(
            committed_table(m),
            lifted_codes(padded_cells(m)),
            ceil_log2(matrix_rows(m).len()) + ceil_log2(matrix_width(m)),
        ),
{
    let (h, w) = (matrix_rows(m).len(), matrix_width(m));
    let n = ceil_log2(h) + ceil_log2(w);
    if n < even_vars(n) {
        lemma_pow2_strictly_increases(n, even_vars(n));
    }
    lemma_matrix_front(matrix_rows(m), w, ceil_log2(w), pow2(n), pow2(even_vars(n)));
    lemma_matrix_table(matrix_rows(m), w, ceil_log2(w), pow2(n));
}

/// A vector's codes, padded with zeros to a power of two.
pub open spec fn padded_vector(codes: Seq<i128>) -> Seq<int> {
    zero_padded(lifted_codes(codes), pow2(ceil_log2(codes.len())))
}

/// The table of a committed vector pads the table of the vector's own length.
pub proof fn lemma_vector_is_front(codes: Seq<i128>)
    ensures
        front_of(vector_table(codes), padded_vector(codes), ceil_log2(codes.len())),
{
    let n = ceil_log2(codes.len());
    lemma_ceil_log2(codes.len());
    if n < even_vars(n) {
        lemma_pow2_strictly_increases(n, even_vars(n));
    }
    assert(vector_table(codes).take(pow2(n) as int) =~= padded_vector(codes));
}

// ---- Pairs of tables ----

/// The verdict on a joint opening of two commitments.
pub open spec fn pair_open_verdict<P: MlPcs>(
    vk: P::VerifierKey,
    a: P::Commitment,
    b: P::Commitment,
    x: int,
    y: int,
    point: Seq<int>,
    proof: P::Proof,
    n_vars: nat,
    which: &'static str,
    t0: Seq<u8>,
) -> Result<(), SnarkError> {
    opened(
        batch_open_verdict::<P>(vk, seq![a, b], seq![x, y], point, proof, n_vars, t0),
        which,
    )
}

/// The state after a joint opening of two commitments.
pub open spec fn pair_open_state<P: MlPcs>(
    vk: P::VerifierKey,
    a: P::Commitment,
    b: P::Commitment,
    x: int,
    y: int,
    point: Seq<int>,
    proof: P::Proof,
    n_vars: nat,
    t0: Seq<u8>,
) -> Seq<u8> {
    batch_open_state::<P>(vk, seq![a, b], seq![x, y], point, proof, n_vars, t0)
}

/// Check a joint opening of two commitments.
pub fn verify_pair_at<P: MlPcs>(
    vk: &P::VerifierKey,
    a: &P::Commitment,
    b: &P::Commitment,
    x: Fr,
    y: Fr,
    point: &[Fr],
    proof: &P::Proof,
    n_vars: usize,
    which: &'static str,
    sponge: &mut Transcript,
) -> (r: Result<(), SnarkError>)
    ensures
        r == pair_open_verdict::<P>(
            *vk,
            *a,
            *b,
            x@,
            y@,
            vals(point@),
            *proof,
            n_vars as nat,
            which,
            state_of(*old(sponge)),
        ),
        r is Ok ==> state_of(*final(sponge)) == pair_open_state::<P>(
            *vk,
            *a,
            *b,
            x@,
            y@,
            vals(point@),
            *proof,
            n_vars as nat,
            state_of(*old(sponge)),
        ),
{
    let mut items: Vec<BatchVerifySpec<'_, P>> = Vec::with_capacity(2);
    items.push(BatchVerifySpec { commitment: a, value: x, commit_n_vars: n_vars });
    items.push(BatchVerifySpec { commitment: b, value: y, commit_n_vars: n_vars });
    proof {
        assert(batch_coms(items@) =~= seq![*a, *b]);
        assert(batch_values(items@) =~= seq![x@, y@]);
    }
    match hyrax_verify_batched_at::<P>(vk, &items, point, proof, sponge) {
        Ok(true) => Ok(()),
        Ok(false) => Err(SnarkError::PcsOpenRejected { which }),
        Err(e) => Err(e),
    }
}

/// Open two committed tables jointly, at a point of the variables of the
/// tables that they pad.
pub fn open_pair_at<P: MlPcs>(
    ck: &P::CommitterKey,
    a_aux: &CommittedAux<P>,
    a: &P::Commitment,
    b_aux: &CommittedAux<P>,
    b: &P::Commitment,
    point: &[Fr],
    n_vars: usize,
    sponge: &mut Transcript,
    rng: &mut P::Randomness,
) -> (r: Result<(Fr, Fr, P::Proof), SnarkError>)
    requires
        n_vars == even_vars(point@.len()),
    ensures
        forall|f: Seq<int>, g: Seq<int>|
            #![trigger committed_front(*ck, *a, *a_aux, f, point@.len()), committed_front(*ck, *b, *b_aux, g, point@.len())]
            committed_front(*ck, *a, *a_aux, f, point@.len()) && committed_front(
                *ck,
                *b,
                *b_aux,
                g,
                point@.len(),
            ) ==> {
                &&& r matches Ok((x, y, proof))
                &&& x@ == mle(f, vals(point@))
                &&& y@ == mle(g, vals(point@))
                &&& forall|vk: P::VerifierKey| #[trigger]
                    P::keys_match(*ck, vk) ==> pair_accepted::<P>(
                        vk,
                        *a,
                        *b,
                        x@,
                        y@,
                        vals(point@),
                        proof,
                        even_vars(point@.len()),
                        state_of(*old(sponge)),
                        state_of(*final(sponge)),
                    )
            },
{
    let mut items: Vec<BatchOpenSpec<'_, P>> = Vec::with_capacity(2);
    items.push(BatchOpenSpec { aux: a_aux, commitment: a, commit_n_vars: n_vars });
    items.push(BatchOpenSpec { aux: b_aux, commitment: b, commit_n_vars: n_vars });
    assert(Seq::new(items@.len(), |i: int| *items@[i].commitment) =~= seq![*a, *b]);
    proof {
        broadcast use lemma_view_in_field;

        assert forall|f: Seq<int>| #[trigger]
            committed_front(*ck, *a, *a_aux, f, point@.len()) implies {
            &&& pow2(n_vars as nat) == a_aux.table@.len()
            &&& mle_padded(vals(a_aux.table@), vals(point@), n_vars as nat) == mle(f, vals(point@))
        } by {
            assert(vals(point@).len() == point@.len());
            assert(vals(a_aux.table@).len() == a_aux.table@.len());
            lemma_front_value(vals(a_aux.table@), f, vals(point@));
        }
        assert forall|g: Seq<int>| #[trigger]
            committed_front(*ck, *b, *b_aux, g, point@.len()) implies {
            &&& pow2(n_vars as nat) == b_aux.table@.len()
            &&& mle_padded(vals(b_aux.table@), vals(point@), n_vars as nat) == mle(g, vals(point@))
        } by {
            assert(vals(point@).len() == point@.len());
            assert(vals(b_aux.table@).len() == b_aux.table@.len());
            lemma_front_value(vals(b_aux.table@), g, vals(point@));
        }
    }
    match hyrax_open_batched_at::<P>(ck, &items, point, sponge, rng) {
        Ok((values, proof)) => {
            let (x, y): (Fr, Fr) = (values[0], values[1]);
            assert(vals(values@) =~= seq![x@, y@]);
            assert(vals(values@)[0] == x@ && vals(values@)[1] == y@);
            Ok((x, y, proof))
        },
        Err(e) => Err(e),
    }
}

/// Whether a joint opening of two commitments is accepted and leads from one
/// state to another.
pub open spec fn pair_accepted<P: MlPcs>(
    vk: P::VerifierKey,
    a: P::Commitment,
    b: P::Commitment,
    x: int,
    y: int,
    point: Seq<int>,
    proof: P::Proof,
    n_vars: nat,
    t0: Seq<u8>,
    t1: Seq<u8>,
) -> bool {
    &&& batch_open_verdict::<P>(vk, seq![a, b], seq![x, y], point, proof, n_vars, t0) == Ok::<
        bool,
        SnarkError,
    >(true)
    &&& t1 == pair_open_state::<P>(vk, a, b, x, y, point, proof, n_vars, t0)
}

/// Open two committed tables jointly, at a point of all their variables.
pub fn open_pair_full<P: MlPcs>(
    ck: &P::CommitterKey,
    a_aux: &CommittedAux<P>,
    a: &P::Commitment,
    b_aux: &CommittedAux<P>,
    b: &P::Commitment,
    point: &[Fr],
    sponge: &mut Transcript,
    rng: &mut P::Randomness,
) -> (r: Result<(Fr, Fr, P::Proof), SnarkError>)
    ensures
        aux_of(*ck, *a, *a_aux) && aux_of(*ck, *b, *b_aux) && a_aux.table@.len() == pow2(
            point@.len(),
        ) && b_aux.table@.len() == pow2(point@.len()) ==> {
            &&& r matches Ok((x, y, proof))
            &&& x@ == mle(vals(a_aux.table@), vals(point@))
            &&& y@ == mle(vals(b_aux.table@), vals(point@))
            &&& forall|vk: P::VerifierKey| #[trigger]
                P::keys_match(*ck, vk) ==> pair_accepted::<P>(
                    vk,
                    *a,
                    *b,
                    x@,
                    y@,
                    vals(point@),
                    proof,
                    point@.len(),
                    state_of(*old(sponge)),
                    state_of(*final(sponge)),
                )
        },
{
    let n_vars: usize = point.len();
    let mut items: Vec<BatchOpenSpec<'_, P>> = Vec::with_capacity(2);
    items.push(BatchOpenSpec { aux: a_aux, commitment: a, commit_n_vars: n_vars });
    items.push(BatchOpenSpec { aux: b_aux, commitment: b, commit_n_vars: n_vars });
    proof {
        assert(Seq::new(items@.len(), |i: int| *items@[i].commitment) =~= seq![*a, *b]);
        assert(zeros(0) + vals(point@) =~= vals(point@));
    }
    match hyrax_open_batched_at::<P>(ck, &items, point, sponge, rng) {
        Ok((values, proof)) => {
            let (x, y): (Fr, Fr) = (values[0], values[1]);
            assert(vals(values@) =~= seq![x@, y@]);
            assert(vals(values@)[0] == x@ && vals(values@)[1] == y@);
            Ok((x, y, proof))
        },
        Err(e) => Err(e),
    }
}

/// Open a committed table at a point of all its variables.
pub fn open_full<P: MlPcs>(
    ck: &P::CommitterKey,
    aux: &CommittedAux<P>,
    com: &P::Commitment,
    point: &[Fr],
    sponge: &mut Transcript,
    rng: &mut P::Randomness,
) -> (r: Result<(Fr, P::Proof), SnarkError>)
    ensures
        aux_of(*ck, *com, *aux) && aux.table@.len() == pow2(point@.len()) ==> {
            &&& r matches Ok((value, proof))
            &&& value@ == mle(vals(aux.table@), vals(point@))
            &&& forall|vk: P::VerifierKey| #[trigger]
                P::keys_match(*ck, vk) ==> {
                    &&& open_accepted::<P>(
                        vk,
                        *com,
                        vals(point@),
                        value@,
                        proof,
                        point@.len(),
                        state_of(*old(sponge)),
                    )
                    &&& state_of(*final(sponge)) == open_state::<P>(
                        vk,
                        *com,
                        vals(point@),
                        value@,
                        proof,
                        point@.len(),
                        state_of(*old(sponge)),
                    )
                }
        },
{
    proof {
        assert(zeros(0) + vals(point@) =~= vals(point@));
        assert(pow2(point@.len()) == pow2(vals(point@).len()));
    }
    hyrax_open_at::<P>(ck, aux, com, point, sponge, rng)
}

} // verus!
