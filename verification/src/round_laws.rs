//! What accepted rounds say of the claims that they carry.

use crate::binding::{law_joint_opening_binds, opens_to};
use crate::eq_two_product::{EqTwoProductProof, eq2_verdict};
use crate::field::{Fr, fadd, fmul, fr_bytes, fsub, vals};
use crate::inner_product::{InnerProductProof, ip_point, ip_verdict};
use crate::logup::{
    GkrState, LogUpLayerProof, LogUpProof, gkr_at, gkr_claim, gkr_layer_ok, gkr_start, gkr_step,
    lemma_gkr_point_len, logup_state, logup_verdict, top_num, tops_cancel, vals4,
};
use crate::lookup_pair::pair_verdict;
use crate::mle::{eq_points, mle};
use crate::pcs::MlPcs;
use crate::poly::interpolate;
use crate::sumcheck::{
    abs_each, abs_round, fr_seq_bytes, rounds_check, samples_of, sc_all_split, sc_challenge,
    sc_claim, sc_point, sc_splits, sc_state,
};
use crate::transcript::{abs_fr, absorbed, after_squeeze, challenged, squeezed};
use crate::zero_check::zero_verdict;
use vstd::prelude::*;

verus! {

/// The claim that stands before round `j`: the one that was made, then the
/// value of the polynomial of the round before at its challenge.
pub open spec fn standing_claim(
    rounds: Seq<Seq<int>>,
    point: Seq<int>,
    claim: int,
    j: int,
) -> int {
    if j <= 0 {
        claim
    } else {
        interpolate(rounds[j - 1], point[j - 1])
    }
}

/// Whether rounds, at the challenges that form a point, carry a claim to a last
/// value: there is a challenge for every round, the values of every round's
/// polynomial at zero and one add up to the claim that stands before it, and
/// the last polynomial's value at its challenge is the last value.
pub open spec fn rounds_carry(
    rounds: Seq<Seq<int>>,
    point: Seq<int>,
    claim: int,
    last: int,
) -> bool {
    &&& point.len() == rounds.len()
    &&& forall|j: int|
        0 <= j < rounds.len() ==> fadd((#[trigger] rounds[j])[0], rounds[j][1])
            == standing_claim(rounds, point, claim, j)
    &&& last == standing_claim(rounds, point, claim, rounds.len() as int)
}

/// Rounds that all split their claims carry the claim to the one that stands
/// behind the last.
pub proof fn lemma_split_rounds_carry(
    joined: bool,
    t0: Seq<u8>,
    rounds: Seq<Seq<int>>,
    claim: int,
    n: nat,
)
    requires
        n == rounds.len(),
        sc_all_split(joined, t0, rounds, claim, n),
    ensures
        rounds_carry(
            rounds,
            sc_point(joined, t0, rounds),
            claim,
            sc_claim(joined, t0, rounds, claim, n),
        ),
{
    let point = sc_point(joined, t0, rounds);
    assert forall|j: int| 0 <= j < rounds.len() implies fadd((#[trigger] rounds[j])[0], rounds[j][1])
        == standing_claim(rounds, point, claim, j) by {
        assert(sc_splits(joined, t0, rounds, claim, j as nat));
    }
}

/// A round is absorbed sample by sample, or as the bytes of its samples in a
/// row; either way every sample is absorbed, in order.
pub proof fn law_round_absorbs_every_sample(state: Seq<u8>, s: Seq<int>, x: int)
    ensures
        abs_round(false, state, Seq::empty()) == state,
        abs_round(false, state, s.push(x)) == absorbed(
            abs_round(false, state, s),
            fr_bytes(x),
        ),
        abs_round(true, state, s) == absorbed(
            state,
            s.fold_left(Seq::<u8>::empty(), |b: Seq<u8>, y: int| b + fr_bytes(y)),
        ),
{
    assert(s.push(x).drop_last() =~= s);
    lemma_bytes_fold(s);
}

/// The bytes of a sequence of residues are the bytes of each, in a row.
proof fn lemma_bytes_fold(s: Seq<int>)
    ensures
        fr_seq_bytes(s) == s.fold_left(
            Seq::<u8>::empty(),
            |b: Seq<u8>, y: int| b + fr_bytes(y),
        ),
    decreases s.len(),
{
    if s.len() > 0 {
        lemma_bytes_fold(s.drop_last());
    }
}

/// Every challenge is drawn after its round was absorbed, from the state that
/// the rounds before it left.
pub proof fn law_challenge_follows_its_round(
    joined: bool,
    t0: Seq<u8>,
    rounds: Seq<Seq<int>>,
    states: Seq<Seq<u8>>,
    j: int,
)
    requires
        states.len() == rounds.len() + 1,
        states[0] == t0,
        forall|i: int|
            0 <= i < rounds.len() ==> states[i + 1] == after_squeeze(
                abs_round(joined, states[i], #[trigger] rounds[i]),
                1,
            ),
        0 <= j < rounds.len(),
    ensures
        sc_point(joined, t0, rounds).len() == rounds.len(),
        sc_point(joined, t0, rounds)[j] == squeezed(abs_round(joined, states[j], rounds[j]), 1)[0],
        sc_state(joined, t0, rounds, rounds.len()) == states[rounds.len() as int],
{
    lemma_states_are_sc_states(joined, t0, rounds, states, j as nat);
    lemma_states_are_sc_states(joined, t0, rounds, states, rounds.len());
}

/// The states that rounds leave behind.
proof fn lemma_states_are_sc_states(
    joined: bool,
    t0: Seq<u8>,
    rounds: Seq<Seq<int>>,
    states: Seq<Seq<u8>>,
    k: nat,
)
    requires
        states.len() == rounds.len() + 1,
        states[0] == t0,
        forall|i: int|
            0 <= i < rounds.len() ==> states[i + 1] == after_squeeze(
                abs_round(joined, states[i], #[trigger] rounds[i]),
                1,
            ),
        k <= rounds.len(),
    ensures
        sc_state(joined, t0, rounds, k) == states[k as int],
    decreases k,
{
    if k > 0 {
        lemma_states_are_sc_states(joined, t0, rounds, states, (k - 1) as nat);
        let i = k - 1;
        assert(states[i + 1] == after_squeeze(abs_round(joined, states[i], rounds[i]), 1));
    }
}

/// Rounds that are accepted against a claimed point carry their claim at that
/// point.
pub proof fn law_checked_rounds_carry(
    joined: bool,
    t0: Seq<u8>,
    rounds: Seq<Seq<int>>,
    claim: int,
    point: Seq<int>,
)
    requires
        rounds_check(joined, t0, rounds, claim, point, 0) is Ok,
        point.len() == rounds.len(),
    ensures
        rounds_carry(
            rounds,
            point,
            claim,
            sc_claim(joined, t0, rounds, claim, rounds.len()),
        ),
        point == sc_point(joined, t0, rounds),
{
    lemma_checked_rounds(joined, t0, rounds, claim, point, 0);
    assert(point =~= sc_point(joined, t0, rounds));
    lemma_split_rounds_carry(joined, t0, rounds, claim, rounds.len());
}

/// Rounds that are accepted from one on split their claims at their
/// challenges.
proof fn lemma_checked_rounds(
    joined: bool,
    t0: Seq<u8>,
    rounds: Seq<Seq<int>>,
    claim: int,
    point: Seq<int>,
    j: nat,
)
    requires
        rounds_check(joined, t0, rounds, claim, point, j) is Ok,
    ensures
        forall|i: nat|
            j <= i < rounds.len() ==> #[trigger] sc_splits(joined, t0, rounds, claim, i),
        forall|i: int|
            j <= i < rounds.len() ==> #[trigger] point[i] == sc_challenge(
                joined,
                t0,
                rounds,
                i as nat,
            ),
    decreases rounds.len() - j,
{
    if j < rounds.len() {
        lemma_checked_rounds(joined, t0, rounds, claim, point, j + 1);
    }
}

/// An accepted inner product has a round for every variable, and its rounds
/// carry the claim to the value that it ends with.
pub proof fn law_accepted_inner_product(
    proof: InnerProductProof,
    n_vars: nat,
    claim: int,
    final_value: int,
    t0: Seq<u8>,
)
    requires
        ip_verdict(proof, n_vars, claim, final_value, t0) is Ok,
    ensures
        proof.rounds@.len() == n_vars,
        rounds_carry(samples_of(proof.rounds@), ip_point(proof, t0), claim, final_value),
{
    lemma_split_rounds_carry(false, t0, samples_of(proof.rounds@), claim, n_vars);
}

/// An accepted weighted sum of two products has a round and a challenge for
/// every variable, and its rounds carry the claim to the weight's claimed value
/// times the sum of the two products of claimed values.
pub proof fn law_accepted_two_products(
    proof: EqTwoProductProof,
    n_vars: nat,
    claim: int,
    t0: Seq<u8>,
)
    requires
        eq2_verdict(proof, n_vars, claim, t0) is Ok,
    ensures
        proof.rounds@.len() == n_vars,
        proof.r_full@.len() == n_vars,
        vals(proof.r_full@) == sc_point(false, t0, samples_of(proof.rounds@)),
        rounds_carry(
            samples_of(proof.rounds@),
            vals(proof.r_full@),
            claim,
            fmul(
                proof.eq_eval@,
                fadd(
                    fmul(proof.p1_eval@, proof.q1_eval@),
                    fmul(proof.p2_eval@, proof.q2_eval@),
                ),
            ),
        ),
{
    lemma_split_rounds_carry(false, t0, samples_of(proof.rounds@), claim, n_vars);
}

/// An accepted zero check of columns: its rounds carry zero to the identity's
/// value at the point, and as far as the commitments hold known tables, the
/// columns' values there are those of the tables.
pub proof fn law_accepted_zero_check<P: MlPcs>(
    vk: P::VerifierKey,
    rounds: Seq<Seq<int>>,
    point: Seq<int>,
    coms: Seq<P::Commitment>,
    values: Seq<int>,
    opening: P::Proof,
    value: int,
    n: nat,
    which_open: &'static str,
    which_final: &'static str,
    t0: Seq<u8>,
)
    requires
        zero_verdict::<P>(
            vk,
            rounds,
            point,
            coms,
            values,
            opening,
            value,
            n,
            which_open,
            which_final,
            t0,
        ) is Ok,
        rounds.len() == n,
        point.len() == n,
    ensures
        rounds_carry(rounds, point, 0, value),
        point == sc_point(true, t0, rounds),
        forall|i: int, table: Seq<int>|
            0 <= i < coms.len() && #[trigger] opens_to::<P>(vk, coms[i], table) ==> values[i]
                == mle(table, point),
{
    law_checked_rounds_carry(true, t0, rounds, 0, point);
    assert forall|i: int, table: Seq<int>|
        0 <= i < coms.len() && #[trigger] opens_to::<P>(vk, coms[i], table) implies values[i]
        == mle(table, point) by {
        law_joint_opening_binds::<P>(
            vk,
            coms,
            table,
            values,
            point,
            opening,
            n,
            sc_state(true, t0, rounds, rounds.len()),
            i,
        );
    }
}

// ---- Sums of fractions ----

/// Whether a layer's reduction leads from the claim before it to the claim
/// behind it. The numerator plus the challenge times the denominator is carried
/// to the weight of the point times the halves' products; the lower half's
/// fraction is `p1 / p2`, the upper half's `(q2 - lambda q1) / q1`, and the
/// claim behind lies on the line through both.
pub open spec fn layer_reduced(s: GkrState, s1: GkrState, lp: EqTwoProductProof) -> bool {
    let lambda = squeezed(s.t, 1)[0];
    let upper_num = fsub(lp.q2_eval@, fmul(lambda, lp.q1_eval@));
    let full = vals(lp.r_full@);
    &&& full.len() == s.point.len()
    &&& lp.eq_eval@ == eq_points(s.point, full)
    &&& rounds_carry(
        samples_of(lp.rounds@),
        full,
        fadd(s.num, fmul(lambda, s.den)),
        fmul(
            lp.eq_eval@,
            fadd(fmul(lp.p1_eval@, lp.q1_eval@), fmul(lp.p2_eval@, lp.q2_eval@)),
        ),
    )
    &&& s1.point.len() == full.len() + 1
    &&& s1.point.skip(1) == full
    &&& s1.num == fadd(lp.p1_eval@, fmul(s1.point[0], fsub(upper_num, lp.p1_eval@)))
    &&& s1.den == fadd(lp.p2_eval@, fmul(s1.point[0], fsub(lp.q1_eval@, lp.p2_eval@)))
}

/// The four top values are absorbed one by one.
proof fn lemma_top_absorbed(t0: Seq<u8>, top: Seq<int>)
    requires
        top.len() == 4,
    ensures
        abs_each(t0, top) == abs_fr(
            abs_fr(abs_fr(abs_fr(t0, top[0]), top[1]), top[2]),
            top[3],
        ),
{
    let (s0, s1, s2, s3) = (
        Seq::<int>::empty(),
        seq![top[0]],
        seq![top[0], top[1]],
        seq![top[0], top[1], top[2]],
    );
    assert(top.drop_last() =~= s3);
    assert(s3.drop_last() =~= s2);
    assert(s2.drop_last() =~= s1);
    assert(s1.drop_last() =~= s0);
    assert(abs_each(t0, s0) == t0);
    assert(abs_each(t0, s1) == abs_fr(t0, top[0]));
    assert(abs_each(t0, s2) == abs_fr(abs_each(t0, s1), top[1]));
    assert(abs_each(t0, s3) == abs_fr(abs_each(t0, s2), top[2]));
}

/// A layer that is accepted is reduced to the state behind it.
proof fn lemma_layer_reduced(s: GkrState, lp: LogUpLayerProof)
    requires
        gkr_layer_ok(s, lp),
    ensures
        layer_reduced(s, gkr_step(s, lp), lp.sumcheck),
{
    law_accepted_two_products(lp.sumcheck, s.point.len(), gkr_claim(s), challenged(s.t));
    assert(gkr_step(s, lp).point.skip(1) =~= vals(lp.sumcheck.r_full@));
}

/// What an accepted reduction of a sum of fractions went through: the point and
/// the claimed numerator and denominator before every layer. It starts from the
/// two top fractions, every layer's reduction leads from one claim to the next,
/// and it ends in the bottom claim.
pub proof fn law_accepted_fractions(
    proof: LogUpProof,
    n_vars: nat,
    top: Seq<int>,
    claimed_num: int,
    t0: Seq<u8>,
) -> (path: Seq<GkrState>)
    requires
        logup_verdict(proof, n_vars, top, claimed_num, t0) is Ok,
        top.len() == 4,
    ensures
        proof.layers@.len() == n_vars,
        claimed_num == fadd(fmul(top[0], top[3]), fmul(top[1], top[2])),
        path.len() == n_vars + 1,
        proof.bottom_point@.len() == n_vars + 1,
        ({
            let t1 = abs_fr(abs_fr(abs_fr(abs_fr(t0, top[0]), top[1]), top[2]), top[3]);
            let r = squeezed(t1, 1)[0];
            &&& path[0].t == after_squeeze(t1, 1)
            &&& path[0].point == seq![r]
            &&& path[0].num == fadd(top[0], fmul(r, fsub(top[1], top[0])))
            &&& path[0].den == fadd(top[2], fmul(r, fsub(top[3], top[2])))
        }),
        forall|k: int|
            0 <= k < n_vars ==> layer_reduced(
                #[trigger] path[k],
                path[k + 1],
                proof.layers@[k].sumcheck,
            ),
        vals(proof.bottom_point@) == path[n_vars as int].point,
        proof.bottom_num@ == path[n_vars as int].num,
        proof.bottom_denom@ == path[n_vars as int].den,
{
    let layers = proof.layers@;
    let path = Seq::new(n_vars + 1, |k: int| gkr_at(top, t0, layers, k as nat));
    lemma_top_absorbed(t0, top);
    lemma_gkr_point_len(top, t0, layers, n_vars);
    assert(vals(proof.bottom_point@).len() == proof.bottom_point@.len());
    assert(path[0] == gkr_start(top, t0));
    assert forall|k: int| 0 <= k < n_vars implies layer_reduced(
        #[trigger] path[k],
        path[k + 1],
        layers[k].sumcheck,
    ) by {
        assert(gkr_layer_ok(gkr_at(top, t0, layers, k as nat), layers[k]));
        lemma_layer_reduced(path[k], layers[k]);
    }
    path
}

/// Whether the sum of a lookup's two top fractions and a table's two, over the
/// common denominator, has the numerator zero.
pub open spec fn fractions_sum_to_zero(lt: Seq<int>, tt: Seq<int>) -> bool {
    fadd(
        fmul(fadd(fmul(lt[0], lt[3]), fmul(lt[1], lt[2])), fmul(tt[2], tt[3])),
        fmul(fmul(lt[2], lt[3]), fadd(fmul(tt[0], tt[3]), fmul(tt[1], tt[2]))),
    ) == 0
}

/// Both circuits of an accepted lookup are accepted, each with the numerator
/// that its own top fractions add up to, and end at points of their own sizes.
pub proof fn law_accepted_pair(
    lookup_proof: LogUpProof,
    table_proof: LogUpProof,
    lookup_top: [Fr; 4],
    table_top: [Fr; 4],
    lookup_n: nat,
    table_n: nat,
    t0: Seq<u8>,
)
    requires
        pair_verdict(
            lookup_proof,
            table_proof,
            lookup_top,
            table_top,
            lookup_n,
            table_n,
            t0,
        ) is Ok,
    ensures
        ({
            let (lt, tt) = (vals4(lookup_top), vals4(table_top));
            &&& logup_verdict(
                lookup_proof,
                lookup_n,
                lt,
                fadd(fmul(lt[0], lt[3]), fmul(lt[1], lt[2])),
                t0,
            ) is Ok
            &&& logup_verdict(
                table_proof,
                table_n,
                tt,
                fadd(fmul(tt[0], tt[3]), fmul(tt[1], tt[2])),
                logup_state(lookup_proof, lt, t0),
            ) is Ok
        }),
        lookup_proof.bottom_point@.len() == lookup_n + 1,
        table_proof.bottom_point@.len() == table_n + 1,
{
    let (lt, tt) = (vals4(lookup_top), vals4(table_top));
    law_accepted_fractions(lookup_proof, lookup_n, lt, top_num(lt), t0);
    law_accepted_fractions(
        table_proof,
        table_n,
        tt,
        top_num(tt),
        logup_state(lookup_proof, lt, t0),
    );
}

/// The top fractions of a lookup and a table cancel exactly where their sum is
/// zero.
pub proof fn law_tops_cancel(lt: Seq<int>, tt: Seq<int>)
    ensures
        tops_cancel(lt, tt) <==> fractions_sum_to_zero(lt, tt),
{
}

} // verus!
