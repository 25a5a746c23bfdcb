//! What accepted openings say of committed tables.

use crate::clear_pcs::{ClearCommitment, ClearKey, ClearOpening, ClearPcs, clear_tables};
use crate::errors::{PcsError, SnarkError};
use crate::field::{Fr, all_in_field, in_field, lemma_view_in_field, vals};
use crate::mle::mle;
use crate::openings::{OpeningView, openings_state, openings_verdict};
use crate::pcs::{MlPcs, batch_open_verdict, lemma_lifted_reverse, lifted, open_verdict, zeros};
use vstd::prelude::*;

verus! {

/// Whether a commitment opens to a table and to nothing else: every opening
/// that is accepted, alone or among others, claims the value of the table's
/// extension at the point.
pub open spec fn opens_to<P: MlPcs>(
    vk: P::VerifierKey,
    com: P::Commitment,
    table: Seq<int>,
) -> bool {
    &&& forall|point: Seq<int>, value: int, proof: P::Proof, t: Seq<u8>| #[trigger]
        P::verdict(vk, com, point, value, proof, t) == Ok::<bool, PcsError>(true) ==> value == mle(
            table,
            point.reverse(),
        )
    &&& forall|
        coms: Seq<P::Commitment>,
        point: Seq<int>,
        values: Seq<int>,
        proof: P::Proof,
        t: Seq<u8>,
        i: int,
    |
        0 <= i < coms.len() && #[trigger] coms[i] == com && #[trigger] P::batch_verdict(
            vk,
            coms,
            point,
            values,
            proof,
            t,
        ) == Ok::<bool, PcsError>(true) ==> values[i] == mle(table, point.reverse())
}

/// A commitment in the clear opens to its own table and to nothing else.
pub proof fn law_clear_opens_to_its_table(vk: ClearKey, com: ClearCommitment)
    ensures
        opens_to::<ClearPcs>(vk, com, com@),
{
    assert forall|
        coms: Seq<ClearCommitment>,
        point: Seq<int>,
        values: Seq<int>,
        proof: ClearOpening,
        t: Seq<u8>,
        i: int,
    |
        0 <= i < coms.len() && #[trigger] coms[i] == com && #[trigger] ClearPcs::batch_verdict(
            vk,
            coms,
            point,
            values,
            proof,
            t,
        ) == Ok::<bool, PcsError>(true) implies values[i] == mle(com@, point.reverse()) by {
        assert(clear_tables(coms)[i] == com@);
    }
}

/// An opening that is accepted claims the committed table's value at the
/// point.
pub proof fn law_opening_binds<P: MlPcs>(
    vk: P::VerifierKey,
    com: P::Commitment,
    table: Seq<int>,
    point: Seq<int>,
    value: int,
    proof: P::Proof,
    n_vars: nat,
    t: Seq<u8>,
)
    requires
        open_verdict::<P>(vk, com, point, value, proof, n_vars, t) == Ok::<bool, SnarkError>(true),
        opens_to::<P>(vk, com, table),
    ensures
        point.len() <= n_vars,
        value == mle(table, zeros((n_vars - point.len()) as nat) + point),
        point.len() == n_vars ==> value == mle(table, point),
{
    lemma_lifted_reverse(point, n_vars);
    assert(P::verdict(vk, com, lifted(point, n_vars), value, proof, t) == Ok::<bool, PcsError>(
        true,
    ));
    assert(point.len() == n_vars ==> zeros(0) + point =~= point);
}

/// A joint opening that is accepted claims each committed table's value at the
/// point.
pub proof fn law_joint_opening_binds<P: MlPcs>(
    vk: P::VerifierKey,
    coms: Seq<P::Commitment>,
    table: Seq<int>,
    values: Seq<int>,
    point: Seq<int>,
    proof: P::Proof,
    n_vars: nat,
    t: Seq<u8>,
    i: int,
)
    requires
        batch_open_verdict::<P>(vk, coms, values, point, proof, n_vars, t) == Ok::<
            bool,
            SnarkError,
        >(true),
        0 <= i < coms.len(),
        opens_to::<P>(vk, coms[i], table),
    ensures
        point.len() <= n_vars,
        values[i] == mle(table, zeros((n_vars - point.len()) as nat) + point),
        point.len() == n_vars ==> values[i] == mle(table, point),
{
    lemma_lifted_reverse(point, n_vars);
    assert(coms[i] == coms[i]);
    assert(P::batch_verdict(vk, coms, lifted(point, n_vars), values, proof, t) == Ok::<
        bool,
        PcsError,
    >(true));
    assert(point.len() == n_vars ==> zeros(0) + point =~= point);
}

/// Openings that are accepted one after the other are each accepted.
pub proof fn lemma_openings_each<P: MlPcs>(
    vk: P::VerifierKey,
    claims: Seq<OpeningView<P>>,
    k: nat,
    t0: Seq<u8>,
    i: int,
)
    requires
        openings_verdict(vk, claims, k, t0) is Ok,
        0 <= i < k,
    ensures
        open_verdict::<P>(
            vk,
            claims[i].commitment,
            claims[i].point,
            claims[i].value,
            claims[i].proof,
            claims[i].n_vars,
            openings_state(vk, claims, i as nat, t0),
        ) == Ok::<bool, SnarkError>(true),
    decreases k,
{
    if i < k - 1 {
        lemma_openings_each(vk, claims, (k - 1) as nat, t0, i);
    }
}

/// The values of field elements are residues.
pub proof fn lemma_vals_in_field(s: Seq<Fr>)
    ensures
        all_in_field(vals(s)),
{
    assert forall|i: int| 0 <= i < vals(s).len() implies in_field(#[trigger] vals(s)[i]) by {
        lemma_view_in_field(s[i]);
    }
}

} // verus!
