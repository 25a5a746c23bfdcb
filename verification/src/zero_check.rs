//! The check that an identity vanishes on every row of committed columns: a
//! sumcheck of the identity weighted by `eq` at a random point, closed by one
//! joint opening of the columns.

use crate::column_set::derefs;
use crate::columns::lemma_mle_unpadded;
use crate::errors::{SnarkError, and_also, holds, opened};
use crate::field::{Fr, lemma_view_in_field, vals};
use crate::mle::mle;
use crate::pcs::{
    BatchOpenSpec, BatchVerifySpec, MlPcs, aux_of, batch_coms, batch_open_state,
    batch_open_verdict, batch_values, hyrax_open_at, hyrax_open_batched_at,
    hyrax_verify_batched_at, mle_padded, open_accepted, open_state,
};
use crate::ring::lemma_fadd_zero;
use crate::sumcheck::{
    CellIdentity, RoundPoly, SumcheckRun, prove_rounds, replay_rounds_at, rounds_check,
    samples_of, sc_all_split, sc_claim, sc_point, sc_state, total, vals2,
};
use crate::transcript::state_of;
use ark_crypto_primitives::sponge::merlin::Transcript;
use vstd::arithmetic::power2::pow2;
use vstd::prelude::*;

verus! {

/// What the prover sends: the rounds, their challenges, the columns' values
/// at the final point, their joint opening, and the openings of the columns
/// that are opened one by one.
pub struct OpenedRun<P: MlPcs, R> {
    pub rounds: Vec<R>,
    pub point: Vec<Fr>,
    pub values: Vec<Fr>,
    pub opening: P::Proof,
    pub single_values: Vec<Fr>,
    pub single_openings: Vec<P::Proof>,
}

/// The tables of the items of a joint opening.
pub open spec fn item_tables<P: MlPcs>(items: Seq<BatchOpenSpec<P>>) -> Seq<Seq<int>> {
    Seq::new(items.len(), |i: int| vals(items[i].aux.table@))
}

/// The commitments of the items of a joint opening.
pub open spec fn item_coms<P: MlPcs>(items: Seq<BatchOpenSpec<P>>) -> Seq<P::Commitment> {
    Seq::new(items.len(), |i: int| *items[i].commitment)
}

/// Whether every item is a committed table of `n` variables.
pub open spec fn items_committed<P: MlPcs>(
    ck: P::CommitterKey,
    items: Seq<BatchOpenSpec<P>>,
    n: nat,
) -> bool {
    forall|i: int|
        0 <= i < items.len() ==> {
            &&& (#[trigger] items[i]).commit_n_vars == n
            &&& items[i].aux.table@.len() == pow2(n)
            &&& aux_of(ck, *items[i].commitment, *items[i].aux)
        }
}

/// The values of tables at a point.
pub open spec fn values_at(tables: Seq<Seq<int>>, point: Seq<int>) -> Seq<int> {
    Seq::new(tables.len(), |i: int| mle(tables[i], point))
}

/// The verdict on the rounds, the joint opening, and the identity's value at
/// the final point.
pub open spec fn zero_verdict<P: MlPcs>(
    vk: P::VerifierKey,
    rounds: Seq<Seq<int>>,
    point: Seq<int>,
    coms: Seq<P::Commitment>,
    values: Seq<int>,
    opening: P::Proof,
    value: int,
    n: nat,
    which_open: &'static str,
    which_final: &'static str,
    t0: Seq<u8>,
) -> Result<(), SnarkError> {
    and_also(
        rounds_check(true, t0, rounds, 0, point, 0),
        and_also(
            opened(
                batch_open_verdict::<P>(
                    vk,
                    coms,
                    values,
                    point,
                    opening,
                    n,
                    sc_state(true, t0, rounds, rounds.len()),
                ),
                which_open,
            ),
            holds(
                value == sc_claim(true, t0, rounds, 0, n),
                SnarkError::RelaxationSoundnessFinalCheckFailed { which: which_final },
            ),
        ),
    )
}

/// The transcript state after the check.
pub open spec fn zero_state<P: MlPcs>(
    vk: P::VerifierKey,
    rounds: Seq<Seq<int>>,
    point: Seq<int>,
    coms: Seq<P::Commitment>,
    values: Seq<int>,
    opening: P::Proof,
    n: nat,
    t0: Seq<u8>,
) -> Seq<u8> {
    batch_open_state::<P>(
        vk,
        coms,
        values,
        point,
        opening,
        n,
        sc_state(true, t0, rounds, rounds.len()),
    )
}

/// The transcript state after the first `k` of several openings at one point.
pub open spec fn singles_state<P: MlPcs>(
    vk: P::VerifierKey,
    coms: Seq<P::Commitment>,
    values: Seq<int>,
    proofs: Seq<P::Proof>,
    point: Seq<int>,
    n: nat,
    t0: Seq<u8>,
    k: nat,
) -> Seq<u8>
    decreases k,
{
    if k == 0 {
        t0
    } else {
        open_state::<P>(
            vk,
            coms[k - 1],
            point,
            values[k - 1],
            proofs[k - 1],
            n,
            singles_state::<P>(vk, coms, values, proofs, point, n, t0, (k - 1) as nat),
        )
    }
}

/// Whether the first `k` of several openings at one point are accepted.
pub open spec fn singles_accepted<P: MlPcs>(
    vk: P::VerifierKey,
    coms: Seq<P::Commitment>,
    values: Seq<int>,
    proofs: Seq<P::Proof>,
    point: Seq<int>,
    n: nat,
    t0: Seq<u8>,
    k: nat,
) -> bool
    decreases k,
{
    k == 0 || {
        &&& singles_accepted::<P>(vk, coms, values, proofs, point, n, t0, (k - 1) as nat)
        &&& open_accepted::<P>(
            vk,
            coms[k - 1],
            point,
            values[k - 1],
            proofs[k - 1],
            n,
            singles_state::<P>(vk, coms, values, proofs, point, n, t0, (k - 1) as nat),
        )
    }
}

/// The state before the openings one by one: the joint opening is done.
pub open spec fn joint_state<P: MlPcs, R: RoundPoly>(
    vk: P::VerifierKey,
    coms: Seq<P::Commitment>,
    run: OpenedRun<P, R>,
    n: nat,
    t0: Seq<u8>,
) -> Seq<u8> {
    zero_state::<P>(
        vk,
        samples_of(run.rounds@),
        vals(run.point@),
        coms,
        vals(run.values@),
        run.opening,
        n,
        t0,
    )
}

/// What a verifier finds of an honest run: the rounds split their claims, the
/// openings are accepted, and the identity's value is the last claim.
pub open spec fn opened_run_ok<P: MlPcs, I: CellIdentity, R: RoundPoly>(
    vk: P::VerifierKey,
    ident: &I,
    publics: Seq<Seq<int>>,
    single_coms: Seq<P::Commitment>,
    coms: Seq<P::Commitment>,
    run: OpenedRun<P, R>,
    n: nat,
    t0: Seq<u8>,
    t1: Seq<u8>,
) -> bool {
    let s = samples_of(run.rounds@);
    let point = vals(run.point@);
    let t = joint_state(vk, coms, run, n, t0);
    let k = single_coms.len();
    &&& sc_all_split(true, t0, s, 0, n)
    &&& batch_open_verdict::<P>(
        vk,
        coms,
        vals(run.values@),
        point,
        run.opening,
        n,
        sc_state(true, t0, s, s.len()),
    ) == Ok::<bool, SnarkError>(true)
    &&& singles_accepted::<P>(
        vk,
        single_coms,
        vals(run.single_values@),
        run.single_openings@,
        point,
        n,
        t,
        k,
    )
    &&& t1 == singles_state::<P>(
        vk,
        single_coms,
        vals(run.single_values@),
        run.single_openings@,
        point,
        n,
        t,
        k,
    )
    &&& ident.at(values_at(publics, point) + vals(run.single_values@) + vals(run.values@))
        == sc_claim(true, t0, s, 0, n)
}

/// What the first openings determine does not depend on the later ones.
proof fn lemma_singles_prefix<P: MlPcs>(
    vk: P::VerifierKey,
    coms: Seq<P::Commitment>,
    v1: Seq<int>,
    p1: Seq<P::Proof>,
    v2: Seq<int>,
    p2: Seq<P::Proof>,
    point: Seq<int>,
    n: nat,
    t0: Seq<u8>,
    k: nat,
)
    requires
        forall|i: int| 0 <= i < k ==> v1[i] == v2[i],
        forall|i: int| 0 <= i < k ==> p1[i] == p2[i],
    ensures
        singles_state::<P>(vk, coms, v1, p1, point, n, t0, k) == singles_state::<P>(
            vk,
            coms,
            v2,
            p2,
            point,
            n,
            t0,
            k,
        ),
        singles_accepted::<P>(vk, coms, v1, p1, point, n, t0, k) == singles_accepted::<P>(
            vk,
            coms,
            v2,
            p2,
            point,
            n,
            t0,
            k,
        ),
    decreases k,
{
    if k > 0 {
        lemma_singles_prefix::<P>(vk, coms, v1, p1, v2, p2, point, n, t0, (k - 1) as nat);
    }
}

/// Open several committed tables at one point, each with a proof of its own.
fn open_singles<P: MlPcs>(
    ck: &P::CommitterKey,
    singles: &Vec<BatchOpenSpec<'_, P>>,
    point: &Vec<Fr>,
    sponge: &mut Transcript,
    rng: &mut P::Randomness,
) -> (r: Result<(Vec<Fr>, Vec<P::Proof>), SnarkError>)
    ensures
        r matches Ok((values, proofs)) ==> {
            &&& values@.len() == singles@.len()
            &&& proofs@.len() == singles@.len()
        },
        items_committed(*ck, singles@, point@.len()) ==> {
            &&& r matches Ok((values, proofs))
            &&& vals(values@) == values_at(item_tables(singles@), vals(point@))
            &&& forall|vk: P::VerifierKey| #[trigger]
                P::keys_match(*ck, vk) ==> {
                    &&& singles_accepted::<P>(
                        vk,
                        item_coms(singles@),
                        vals(values@),
                        proofs@,
                        vals(point@),
                        point@.len(),
                        state_of(*old(sponge)),
                        singles@.len(),
                    )
                    &&& state_of(*final(sponge)) == singles_state::<P>(
                        vk,
                        item_coms(singles@),
                        vals(values@),
                        proofs@,
                        vals(point@),
                        point@.len(),
                        state_of(*old(sponge)),
                        singles@.len(),
                    )
                }
        },
{
    let ghost t0 = state_of(*sponge);
    let ghost pt = vals(point@);
    let ghost n = point@.len();
    let ghost coms = item_coms(singles@);
    let ghost tabs = item_tables(singles@);
    let mut values: Vec<Fr> = Vec::with_capacity(singles.len());
    let mut proofs: Vec<P::Proof> = Vec::with_capacity(singles.len());
    let mut k: usize = 0;
    while k < singles.len()
        invariant
            k <= singles@.len(),
            values@.len() == k,
            proofs@.len() == k,
            t0 == state_of(*old(sponge)),
            pt == vals(point@),
            n == point@.len(),
            coms == item_coms(singles@),
            tabs == item_tables(singles@),
            items_committed(*ck, singles@, n) ==> forall|i: int|
                0 <= i < k ==> #[trigger] vals(values@)[i] == mle(tabs[i], pt),
            items_committed(*ck, singles@, n) ==> forall|vk: P::VerifierKey| #[trigger]
                P::keys_match(*ck, vk) ==> {
                    &&& singles_accepted::<P>(
                        vk,
                        coms,
                        vals(values@),
                        proofs@,
                        pt,
                        n,
                        t0,
                        k as nat,
                    )
                    &&& state_of(*sponge) == singles_state::<P>(
                        vk,
                        coms,
                        vals(values@),
                        proofs@,
                        pt,
                        n,
                        t0,
                        k as nat,
                    )
                },
        decreases singles@.len() - k,
    {
        let ghost (v1, p1) = (vals(values@), proofs@);
        proof {
            lemma_mle_unpadded(tabs[k as int], pt);
            if items_committed(*ck, singles@, n) {
                assert(aux_of(*ck, *singles@[k as int].commitment, *singles@[k as int].aux));
                assert(pow2(n) == singles@[k as int].aux.table@.len());
            }
        }
        let (v, p): (Fr, P::Proof) = match hyrax_open_at::<P>(
            ck,
            singles[k].aux,
            singles[k].commitment,
            point.as_slice(),
            sponge,
            rng,
        ) {
            Ok(x) => x,
            Err(e) => {
                return Err(e);
            },
        };
        values.push(v);
        proofs.push(p);
        proof {
            let (v2, p2) = (vals(values@), proofs@);
            if items_committed(*ck, singles@, n) {
                assert(v2[k as int] == v@);
                assert(v2.take(k as int) =~= v1);
                assert forall|i: int| 0 <= i < k implies v1[i] == v2[i] by {
                    assert(v2.take(k as int)[i] == v2[i]);
                }
                assert forall|i: int| 0 <= i < k + 1 implies #[trigger] v2[i] == mle(tabs[i], pt) by {
                    if i < k {
                        assert(v1[i] == v2[i]);
                    }
                }
                assert forall|vk: P::VerifierKey| #[trigger] P::keys_match(*ck, vk) implies {
                    &&& singles_accepted::<P>(vk, coms, v2, p2, pt, n, t0, (k + 1) as nat)
                    &&& state_of(*sponge) == singles_state::<P>(
                        vk,
                        coms,
                        v2,
                        p2,
                        pt,
                        n,
                        t0,
                        (k + 1) as nat,
                    )
                } by {
                    lemma_singles_prefix::<P>(vk, coms, v1, p1, v2, p2, pt, n, t0, k as nat);
                    assert(coms[k as int] == *singles@[k as int].commitment);
                }
            }
        }
        k += 1;
    }
    proof {
        if items_committed(*ck, singles@, n) {
            assert(vals(values@) =~= values_at(tabs, pt));
        }
    }
    Ok((values, proofs))
}

/// Whether a prover of an identity is owed success: the columns are the public
/// ones and the committed tables, and the identity sums to zero over them.
pub open spec fn sums_to_zero<P: MlPcs, I: CellIdentity>(
    ck: P::CommitterKey,
    ident: &I,
    cols: Seq<Seq<int>>,
    n_public: int,
    singles: Seq<BatchOpenSpec<P>>,
    items: Seq<BatchOpenSpec<P>>,
    n: nat,
) -> bool {
    &&& items_committed(ck, items, n)
    &&& items_committed(ck, singles, n)
    &&& cols.skip(n_public) == item_tables(singles) + item_tables(items)
    &&& total(ident, cols, pow2(n)) == 0
}

/// Prove that an identity sums to zero over columns, of which the first are
/// public, the next are opened one by one, and the others jointly. The rounds
/// are checked as they are made, and so is the identity at the final point.
pub fn prove_opened<P: MlPcs, I: CellIdentity, R: RoundPoly>(
    ident: &I,
    cols: Vec<Vec<Fr>>,
    n_public: usize,
    singles: &Vec<BatchOpenSpec<'_, P>>,
    items: &Vec<BatchOpenSpec<'_, P>>,
    n_vars: usize,
    round_error: SnarkError,
    final_error: SnarkError,
    ck: &P::CommitterKey,
    sponge: &mut Transcript,
    rng: &mut P::Randomness,
) -> (r: Result<OpenedRun<P, R>, SnarkError>)
    requires
        items@.len() > 0,
        cols@.len() == n_public + singles@.len() + items@.len(),
        ident.arity() == cols@.len(),
        forall|i: int| 0 <= i < cols@.len() ==> (#[trigger] cols@[i])@.len() == pow2(n_vars as nat),
    ensures
        r matches Ok(run) ==> {
            &&& run.rounds@.len() == n_vars
            &&& run.point@.len() == n_vars
            &&& run.values@.len() == items@.len()
            &&& run.single_values@.len() == singles@.len()
            &&& run.single_openings@.len() == singles@.len()
            &&& vals(run.point@) == sc_point(true, state_of(*old(sponge)), samples_of(run.rounds@))
        },
        sums_to_zero(
            *ck,
            ident,
            vals2(cols@),
            n_public as int,
            singles@,
            items@,
            n_vars as nat,
        ) && ident.degree() <= R::degree() ==> r is Ok,
        items_committed(*ck, items@, n_vars as nat) && items_committed(
            *ck,
            singles@,
            n_vars as nat,
        ) ==> (r matches Ok(run) ==> {
            &&& vals(run.values@) == values_at(item_tables(items@), vals(run.point@))
            &&& vals(run.single_values@) == values_at(item_tables(singles@), vals(run.point@))
            &&& forall|vk: P::VerifierKey| #[trigger]
                P::keys_match(*ck, vk) ==> opened_run_ok::<P, I, R>(
                    vk,
                    ident,
                    vals2(cols@).take(n_public as int),
                    item_coms(singles@),
                    item_coms(items@),
                    run,
                    n_vars as nat,
                    state_of(*old(sponge)),
                    state_of(*final(sponge)),
                )
        }),
{
    let ghost t0 = state_of(*sponge);
    let ghost cv = vals2(cols@);
    let ghost tabs = item_tables(items@);
    let ghost stabs = item_tables(singles@);
    let ghost honest = sums_to_zero(
        *ck,
        ident,
        cv,
        n_public as int,
        singles@,
        items@,
        n_vars as nat,
    ) && ident.degree() <= R::degree();
    let ghost committed = items_committed(*ck, items@, n_vars as nat) && items_committed(
        *ck,
        singles@,
        n_vars as nat,
    );
    let zero: Fr = Fr::from_u64(0);
    let run: SumcheckRun<R> = match prove_rounds::<I, R>(
        ident,
        cols,
        n_vars,
        zero,
        true,
        true,
        sponge,
    ) {
        Ok(run) => run,
        Err(_) => {
            return Err(round_error);
        },
    };
    let ghost point = vals(run.point@);
    let ghost s = samples_of(run.rounds@);
    proof {
        assert(point.len() == n_vars);
        assert forall|i: int| 0 <= i < tabs.len() implies mle_padded(
            #[trigger] tabs[i],
            point,
            n_vars as nat,
        ) == mle(tabs[i], point) by {
            lemma_mle_unpadded(tabs[i], point);
        }
    }
    let ghost seq_coms = Seq::new(items@.len(), |i: int| *items@[i].commitment);
    assert(seq_coms =~= item_coms(items@));
    let (values, opening): (Vec<Fr>, P::Proof) = match hyrax_open_batched_at::<P>(
        ck,
        items,
        run.point.as_slice(),
        sponge,
        rng,
    ) {
        Ok(x) => x,
        Err(e) => {
            return Err(e);
        },
    };
    let (single_values, single_openings): (Vec<Fr>, Vec<P::Proof>) = match open_singles::<P>(
        ck,
        singles,
        &run.point,
        sponge,
        rng,
    ) {
        Ok(x) => x,
        Err(e) => {
            return Err(e);
        },
    };
    let mut cell: Vec<Fr> = Vec::new();
    let mut k: usize = 0;
    while k < n_public
        invariant
            k <= n_public <= run.finals@.len(),
            cell@ =~= run.finals@.take(k as int),
        decreases n_public - k,
    {
        cell.push(run.finals[k]);
        k += 1;
    }
    let ghost publics = cell@;
    let mut j: usize = 0;
    while j < single_values.len()
        invariant
            j <= single_values@.len(),
            cell@ =~= publics + single_values@.take(j as int),
        decreases single_values@.len() - j,
    {
        cell.push(single_values[j]);
        j += 1;
    }
    let ghost fore = cell@;
    let mut i: usize = 0;
    while i < values.len()
        invariant
            i <= values@.len(),
            cell@ =~= fore + values@.take(i as int),
        decreases values@.len() - i,
    {
        cell.push(values[i]);
        i += 1;
    }
    let sum: Fr = ident.eval(&cell);
    proof {
        let pubs = cv.take(n_public as int);
        assert(vals(cell@) =~= values_at(pubs, point) + vals(single_values@) + vals(values@)) by {
            assert(cell@ =~= run.finals@.take(n_public as int) + single_values@ + values@);
            assert(vals(run.finals@.take(n_public as int)) =~= values_at(pubs, point)) by {
                assert forall|c: int| 0 <= c < n_public implies (#[trigger] run.finals@[c])@ == mle(
                    pubs[c],
                    point,
                ) by {
                    assert(pubs[c] == cv[c]);
                }
            }
        }
        if committed {
            assert(vals(values@) =~= values_at(tabs, point)) by {
                assert forall|i: int| 0 <= i < tabs.len() implies #[trigger] vals(values@)[i]
                    == values_at(tabs, point)[i] by {
                    assert(tabs[i] == vals(items@[i].aux.table@));
                }
            }
        }
        if honest {
            assert(vals(run.finals@) =~= vals(cell@)) by {
                assert forall|c: int| 0 <= c < cv.len() implies #[trigger] vals(run.finals@)[c]
                    == vals(cell@)[c] by {
                    assert(run.finals@[c]@ == mle(cv[c], point));
                    if c >= n_public {
                        assert(cv[c] == cv.skip(n_public as int)[c - n_public]);
                    }
                }
            }
            lemma_view_in_field(sum);
            lemma_fadd_zero(sum@);
        }
    }
    if sum != run.claim {
        return Err(final_error);
    }
    Ok(
        OpenedRun {
            rounds: run.rounds,
            point: run.point,
            values,
            opening,
            single_values,
            single_openings,
        },
    )
}

/// Check the rounds, the joint opening, and the identity's value at the final
/// point.
pub fn verify_zero<P: MlPcs, R: RoundPoly>(
    vk: &P::VerifierKey,
    rounds: &Vec<R>,
    point: &Vec<Fr>,
    items: &Vec<BatchVerifySpec<'_, P>>,
    opening: &P::Proof,
    value: Fr,
    n_vars: usize,
    which_open: &'static str,
    which_final: &'static str,
    sponge: &mut Transcript,
) -> (r: Result<(), SnarkError>)
    requires
        items@.len() > 0,
        rounds@.len() == n_vars,
        point@.len() == n_vars,
        forall|i: int| 0 <= i < items@.len() ==> (#[trigger] items@[i]).commit_n_vars == n_vars,
    ensures
        r == zero_verdict::<P>(
            *vk,
            samples_of(rounds@),
            vals(point@),
            batch_coms(items@),
            batch_values(items@),
            *opening,
            value@,
            n_vars as nat,
            which_open,
            which_final,
            state_of(*old(sponge)),
        ),
        r is Ok ==> state_of(*final(sponge)) == zero_state::<P>(
            *vk,
            samples_of(rounds@),
            vals(point@),
            batch_coms(items@),
            batch_values(items@),
            *opening,
            n_vars as nat,
            state_of(*old(sponge)),
        ),
{
    let zero: Fr = Fr::from_u64(0);
    let claim: Fr = match replay_rounds_at(rounds, zero, point, true, sponge) {
        Ok(c) => c,
        Err(e) => {
            return Err(e);
        },
    };
    match hyrax_verify_batched_at::<P>(vk, items, point.as_slice(), opening, sponge) {
        Ok(true) => {},
        Ok(false) => {
            return Err(SnarkError::PcsOpenRejected { which: which_open });
        },
        Err(e) => {
            return Err(e);
        },
    }
    if value != claim {
        return Err(SnarkError::RelaxationSoundnessFinalCheckFailed { which: which_final });
    }
    Ok(())
}

/// The claims of a joint opening, from commitments and values.
pub fn verify_items<'a, P: MlPcs>(
    coms: &Vec<&'a P::Commitment>,
    values: &Vec<Fr>,
    n_vars: usize,
) -> (r: Vec<BatchVerifySpec<'a, P>>)
    requires
        coms@.len() == values@.len(),
    ensures
        r@.len() == coms@.len(),
        batch_coms(r@) == derefs(coms@),
        batch_values(r@) == vals(values@),
        forall|i: int| 0 <= i < r@.len() ==> (#[trigger] r@[i]).commit_n_vars == n_vars,
{
    let mut out: Vec<BatchVerifySpec<'a, P>> = Vec::with_capacity(coms.len());
    let mut i: usize = 0;
    while i < coms.len()
        invariant
            i <= coms@.len(),
            coms@.len() == values@.len(),
            out@.len() == i,
            forall|k: int|
                0 <= k < i ==> (#[trigger] out@[k]).commitment == coms@[k] && out@[k].value
                    == values@[k] && out@[k].commit_n_vars == n_vars,
        decreases coms@.len() - i,
    {
        out.push(
            BatchVerifySpec { commitment: coms[i], value: values[i], commit_n_vars: n_vars },
        );
        i += 1;
    }
    assert(batch_coms(out@) =~= derefs(coms@));
    assert(batch_values(out@) =~= vals(values@));
    out
}

} // verus!
