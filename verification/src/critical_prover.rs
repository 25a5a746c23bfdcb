//! The S-shape critical-point prover: the sumcheck over the neurons' integers,
//! and the whole proof.

use crate::column_set::{abs_coms, codes_of, columns_committed, indices_ok, picked, ranges_verdict};
use crate::columns::{
    all_below, all_decodable, decode_or_zero, decoded, even_vars, fits, lemma_decoded_lifts,
    lemma_pow2_126, lemma_signed_of_residue, lift, lift_padded, lifted_codes, mask, mask_table,
    pow2_i128, zero_padded,
};
use crate::critical_identities::{
    critical_exprs, critical_row, law_neuron_meets_identities, lemma_critical_degree,
    lemma_neuron_facts, opening_order, opening_order_list,
};
use crate::critical_parts::{
    CriticalParts, check_critical_ranges, cp_range_error, cp_row_lowers, cp_row_uppers,
    cparts_in_table, cparts_ok, cparts_provable, prove_critical_parts,
};
use crate::critical_rows::row_indices;
use crate::critical_witness::{
    CriticalInputs, CriticalScales, NeuronWitness, build_columns, compute_witnesses,
    critical_cells, critical_column, critical_columns, critical_field, critical_inputs,
    critical_neuron, critical_scan, fd_scale_precondition_holds, lemma_critical_scan_none,
    lemma_table_four, lemma_tables_decode, seed_ok, table_decode_error, twos,
};
use crate::envelope::rows_in_table;
use crate::errors::SnarkError;
use crate::expr::{
    Expr, MaskedCombination, int_value, lemma_masked_total, masked_value, residues, top_degree,
};
use crate::field::{Fr, all_in_field, in_field, lemma_view_in_field, residue, signed_of, vals};
use crate::logup::{lower, upper};
use crate::mle::{build_eq_table, ceil_log2, copied, eq_table, lemma_pow2_machine, mle, pow2_usize};
use crate::mle_laws::lemma_eq_weight_in_field;
use crate::network::ActivationKind;
use crate::params::{SigmaTables, SnarkParams, tables_fit};
use crate::pcs::{
    BatchOpenSpec, CommittedAux, MlPcs, absorb_commitment, aux_of, batch_open_verdict, open_state,
    open_verdict,
};
use crate::pos_range::PosRangeLogUp;
use crate::ring::lemma_residue_id;
use crate::scale::Scale;
use crate::shapes::{law_vector_vars, native_vector_n_vars, vector_vars};
use crate::sshape_critical_point::{
    SshapeCriticalPointProof, build_critical_identities, cp_checked, cp_coms, cp_env_values,
    cp_envelope_verdict, cp_exprs, cp_margin, cp_ranges, cp_rhos, cp_sumcheck_verdict, cp_t0,
    cp_t10, cp_t2, cp_t6, cp_values, critical_state, critical_verdict,
};
use crate::sshape_endpoint::lemma_bits_small;
use crate::sshape_helpers::envelope_tables;
use crate::sshape_witness::{SshapeLineKind, kind_tag, line_tag, scale_in};
use crate::sumcheck::{
    RoundPoly4, cell_at, samples_of, sc_all_split, sc_claim, sc_point, sc_state, total, vals2,
};
use crate::transcript::{
    absorb_u64, absorb_u8, after_squeeze, challenged_n, challenges, squeeze, squeeze_each,
    squeezed, state_of,
};
use crate::zero_check::{
    OpenedRun, item_coms, item_tables, items_committed, joint_state, prove_opened,
    singles_accepted, singles_state, values_at,
};
use ark_crypto_primitives::sponge::merlin::Transcript;
use vstd::arithmetic::power2::{lemma_pow2_adds, lemma_pow2_pos, lemma_pow2_strictly_increases, pow2};
use vstd::prelude::*;

verus! {

// ---- The sumcheck ----

/// The columns of the sumcheck: the weights, the mask, the interval, the line,
/// and the neurons' columns in the order in which they are opened.
pub open spec fn cp_table(
    eq: Seq<int>,
    n: nat,
    np: nat,
    l: Seq<int>,
    u: Seq<int>,
    d: Seq<int>,
    b: Seq<int>,
    cols: Seq<Seq<i128>>,
) -> Seq<Seq<int>> {
    seq![eq, mask(n, np), l, u, d, b] + Seq::new(
        29,
        |j: int| lifted_codes(cols[opening_order()[j] as int]),
    )
}

/// Honest neurons sum to zero.
proof fn lemma_critical_total(
    ident: &MaskedCombination,
    x: CriticalInputs,
    eq: Seq<int>,
    n: nat,
    np: nat,
    s_d: i128,
    s_b: i128,
    s_w: i128,
    s_v: i128,
    c_fd: i128,
    eps: i128,
    m: i128,
)
    requires
        x.kind != ActivationKind::ReLU,
        ident.columns == 33,
        ident.exprs@ == critical_exprs(x.kind, x.line, s_d, s_b, s_w, s_v, c_fd, eps, m),
        x.s.s_d == s_d && x.s.s_b == s_b && x.s.s_w == s_w && x.s.s_v == s_v,
        c_fd == x.s.s_d * x.s.s_x,
        eps == x.s.s_d * x.s.s_x * 4,
        m == x.bound,
        x.bound > 0,
        twos(x.s.s_x) == twos(x.s.s_w),
        3 <= x.lower.len() <= usize::MAX,
        x.upper.len() == x.lower.len(),
        eq.len() == np,
        all_in_field(eq),
        n <= np,
        x.l.len() == n,
        x.u.len() == n,
        x.d.len() == np,
        x.b.len() == np,
        critical_scan(x, n, 0) is None,
    ensures
        total(
            ident,
            cp_table(
                eq,
                n,
                np,
                zero_padded(lifted_codes(x.l), np),
                zero_padded(lifted_codes(x.u), np),
                lifted_codes(x.d),
                lifted_codes(x.b),
                critical_columns(critical_cells(x, n, np)),
            ),
            np,
        ) == 0,
{
    let cells = critical_cells(x, n, np);
    let l = zero_padded(lifted_codes(x.l), np);
    let u = zero_padded(lifted_codes(x.u), np);
    let codes = critical_columns(cells);
    let cols = cp_table(eq, n, np, l, u, lifted_codes(x.d), lifted_codes(x.b), codes);
    let rows = Seq::new(
        np,
        |i: int|
            critical_row(
                eq[i],
                x.l[i] as int,
                x.u[i] as int,
                x.d[i] as int,
                x.b[i] as int,
                cells[i],
            ),
    );
    lemma_critical_scan_none(x, n, 0);
    assert(cols[1] == mask(n, np));
    assert forall|i: int| 0 <= i < np implies cols[1][i] == 0 || {
        &&& forall|k: int|
            0 <= k < ident.exprs@.len() ==> int_value(#[trigger] ident.exprs@[k], rows[i]) == 0
        &&& cell_at(cols, i) == residues(#[trigger] rows[i])
    } by {
        if i < n {
            let c = cells[i];
            let row = rows[i];
            assert(critical_neuron(x, i) is Ok);
            assert forall|k: int| 0 <= k < ident.exprs@.len() implies int_value(
                #[trigger] ident.exprs@[k],
                row,
            ) == 0 by {
                law_neuron_meets_identities(
                    x.lower,
                    x.upper,
                    x.kind,
                    x.line,
                    x.layer_idx,
                    x.l[i] as int,
                    x.u[i] as int,
                    x.d[i] as int,
                    x.b[i] as int,
                    x.seeds[i],
                    x.s,
                    x.bound,
                    eq[i],
                    s_d,
                    s_b,
                    s_w,
                    s_v,
                    c_fd,
                    eps,
                    m,
                    k,
                );
            }
            assert(in_field(eq[i]));
            lemma_residue_id(eq[i]);
            lemma_residue_id(1);
            let y = cell_at(cols, i);
            assert(cols.len() == 35);
            assert(y.len() == 35 && row.len() == 35);
            assert(l[i] == residue(x.l[i] as int));
            assert(u[i] == residue(x.u[i] as int));
            assert forall|j: int| 0 <= j < 35 implies #[trigger] y[j] == residue(row[j]) by {
                if j >= 6 {
                    let o = opening_order()[j - 6] as int;
                    assert(cols[j] == lifted_codes(codes[o]));
                    lemma_order_in_range(j - 6);
                    assert(codes[o][i] == critical_field(c, o));
                }
            }
            assert(y =~= residues(row));
        }
    }
    lemma_masked_total(ident, cols, rows, np);
}

/// The opening order names columns.
proof fn lemma_order_in_range(j: int)
    requires
        0 <= j < 29,
    ensures
        opening_order().len() == 29,
        opening_order()[j] < 29,
{
}

/// The sumcheck's side of a proof.
struct CriticalRun<P: MlPcs> {
    rhos: Vec<Fr>,
    r_test: Vec<Fr>,
    run: OpenedRun<P, RoundPoly4>,
}

/// What a verifier finds of the sumcheck's side.
#[verifier::opaque]
spec fn critical_run_ok<P: MlPcs>(
    vk: P::VerifierKey,
    x: CriticalRun<P>,
    exprs: Seq<Expr>,
    n_real: nat,
    n: nat,
    preact_l: P::Commitment,
    preact_u: P::Commitment,
    coms: Seq<P::Commitment>,
    t6: Seq<u8>,
    t10: Seq<u8>,
) -> bool {
    let t7 = after_squeeze(challenged_n(t6, 15), n as int);
    let run = x.run;
    let s = samples_of(run.rounds@);
    let point = vals(run.point@);
    let joint = joint_state(vk, coms, run, n, t7);
    let pv = vals(run.single_values@);
    let t9 = open_state::<P>(vk, preact_l, point, pv[0], run.single_openings@[0], n, joint);
    &&& vals(x.rhos@) == challenges(t6, 15)
    &&& vals(x.r_test@) == squeezed(challenged_n(t6, 15), n as int)
    &&& sc_all_split(true, t7, s, 0, n)
    &&& point == sc_point(true, t7, s)
    &&& batch_open_verdict::<P>(
        vk,
        coms,
        vals(run.values@),
        point,
        run.opening,
        n,
        sc_state(true, t7, s, s.len()),
    ) == Ok::<bool, SnarkError>(true)
    &&& open_verdict::<P>(vk, preact_l, point, pv[0], run.single_openings@[0], n, joint) == Ok::<
        bool,
        SnarkError,
    >(true)
    &&& open_verdict::<P>(vk, preact_u, point, pv[1], run.single_openings@[1], n, t9) == Ok::<
        bool,
        SnarkError,
    >(true)
    &&& t10 == open_state::<P>(vk, preact_u, point, pv[1], run.single_openings@[1], n, t9)
    &&& masked_value(
        vals(x.rhos@),
        exprs,
        seq![
            mle(eq_table(vals(x.r_test@)), point),
            mle(mask(n_real, pow2(n)), point),
            pv[0],
            pv[1],
        ] + vals(run.values@),
    ) == sc_claim(true, t7, s, 0, n)
}

/// Whether the sumcheck is owed success: the tables are the committed ones, and
/// the identities vanish on the neurons.
#[verifier::opaque]
spec fn cp_run_honest<P: MlPcs>(
    params: SnarkParams<P>,
    exprs: Seq<Expr>,
    l_codes: Seq<i128>,
    u_codes: Seq<i128>,
    d_codes: Seq<i128>,
    b_codes: Seq<i128>,
    l_aux: CommittedAux<P>,
    l: P::Commitment,
    u_aux: CommittedAux<P>,
    u: P::Commitment,
    d_aux: CommittedAux<P>,
    d: P::Commitment,
    b_aux: CommittedAux<P>,
    b: P::Commitment,
    np: nat,
    codes: Seq<Seq<i128>>,
) -> bool {
    &&& vals(l_aux.table@) == zero_padded(lifted_codes(l_codes), np)
    &&& vals(u_aux.table@) == zero_padded(lifted_codes(u_codes), np)
    &&& vals(d_aux.table@) == lifted_codes(d_codes)
    &&& vals(b_aux.table@) == lifted_codes(b_codes)
    &&& aux_of(params.committer_key, l, l_aux)
    &&& aux_of(params.committer_key, u, u_aux)
    &&& aux_of(params.committer_key, d, d_aux)
    &&& aux_of(params.committer_key, b, b_aux)
    &&& top_degree(exprs, 16) <= 2
    &&& params.keys_match()
    &&& forall|ident: MaskedCombination, eq: Seq<int>|
        ident.columns == 33 && ident.exprs@ == exprs && eq.len() == np && all_in_field(eq)
            ==> #[trigger] total(
            &ident,
            cp_table(
                eq,
                l_codes.len(),
                np,
                zero_padded(lifted_codes(l_codes), np),
                zero_padded(lifted_codes(u_codes), np),
                lifted_codes(d_codes),
                lifted_codes(b_codes),
                codes,
            ),
            np,
        ) == 0
}

/// The columns and openings of the sumcheck, in the order in which they are
/// opened.
fn cp_gather<'a, P: MlPcs>(
    head: Vec<Vec<Fr>>,
    coms: &'a Vec<P::Commitment>,
    auxes: &'a Vec<CommittedAux<P>>,
    d_aux: &'a CommittedAux<P>,
    d_commit: &'a P::Commitment,
    b_aux: &'a CommittedAux<P>,
    b_commit: &'a P::Commitment,
    n_vars: usize,
    ck: &P::CommitterKey,
    Ghost(codes): Ghost<Seq<Seq<i128>>>,
) -> (r: (Vec<Vec<Fr>>, Vec<BatchOpenSpec<'a, P>>))
    requires
        codes.len() == 29,
        forall|j: int| 0 <= j < 29 ==> (#[trigger] codes[j]).len() == pow2(n_vars as nat),
        columns_committed(*ck, coms@, auxes@, codes),
        head@.len() == 6,
        forall|k: int| 0 <= k < 6 ==> (#[trigger] head@[k])@.len() == pow2(n_vars as nat),
    ensures
        r.0@.len() == 35,
        r.1@.len() == 31,
        forall|k: int| 0 <= k < 35 ==> (#[trigger] r.0@[k])@.len() == pow2(n_vars as nat),
        vals2(r.0@) == vals2(head@) + Seq::new(
            29,
            |j: int| lifted_codes(codes[opening_order()[j] as int]),
        ),
        item_coms(r.1@) == seq![*d_commit, *b_commit] + picked(coms@, opening_order()),
        r.1@[0].aux == d_aux && r.1@[0].commitment == d_commit,
        r.1@[1].aux == b_aux && r.1@[1].commitment == b_commit,
        r.1@[0].commit_n_vars == n_vars && r.1@[1].commit_n_vars == n_vars,
        forall|k: int|
            2 <= k < 31 ==> {
                &&& (#[trigger] r.1@[k]).commit_n_vars == n_vars
                &&& r.1@[k].aux.table@.len() == pow2(n_vars as nat)
                &&& aux_of(*ck, *r.1@[k].commitment, *r.1@[k].aux)
                &&& vals(r.1@[k].aux.table@) == lifted_codes(
                    codes[opening_order()[k - 2] as int],
                )
            },
{
    let ghost np = pow2(n_vars as nat);
    let order: Vec<usize> = opening_order_list();
    let ghost h = head@;
    let mut table: Vec<Vec<Fr>> = head;
    let mut items: Vec<BatchOpenSpec<'a, P>> = Vec::with_capacity(31);
    items.push(BatchOpenSpec { aux: d_aux, commitment: d_commit, commit_n_vars: n_vars });
    items.push(BatchOpenSpec { aux: b_aux, commitment: b_commit, commit_n_vars: n_vars });
    let mut j: usize = 0;
    while j < 29
        invariant
            j <= 29,
            np == pow2(n_vars as nat),
            codes.len() == 29,
            forall|k: int| 0 <= k < 29 ==> (#[trigger] codes[k]).len() == np,
            columns_committed(*ck, coms@, auxes@, codes),
            order@ == opening_order(),
            order@.len() == 29,
            indices_ok(order@, 29),
            h.len() == 6,
            forall|k: int| 0 <= k < 6 ==> (#[trigger] h[k])@.len() == np,
            table@.len() == 6 + j,
            forall|k: int| 0 <= k < 6 ==> #[trigger] table@[k] == h[k],
            forall|k: int| 0 <= k < 6 + j ==> (#[trigger] table@[k])@.len() == np,
            forall|k: int|
                6 <= k < 6 + j ==> vals((#[trigger] table@[k])@) == lifted_codes(
                    codes[order@[k - 6] as int],
                ),
            items@.len() == 2 + j,
            items@[0].aux == d_aux && items@[0].commitment == d_commit,
            items@[1].aux == b_aux && items@[1].commitment == b_commit,
            items@[0].commit_n_vars == n_vars && items@[1].commit_n_vars == n_vars,
            forall|k: int|
                2 <= k < 2 + j ==> {
                    &&& (#[trigger] items@[k]).commit_n_vars == n_vars
                    &&& items@[k].aux.table@.len() == np
                    &&& *items@[k].commitment == coms@[order@[k - 2] as int]
                    &&& aux_of(*ck, *items@[k].commitment, *items@[k].aux)
                    &&& vals(items@[k].aux.table@) == lifted_codes(codes[order@[k - 2] as int])
                },
        decreases 29 - j,
    {
        let c: usize = order[j];
        proof {
            assert(vals(auxes@[c as int].table@) == lifted_codes(codes[c as int]));
            assert(auxes@[c as int].table@.len() == codes[c as int].len());
            assert(aux_of(*ck, coms@[c as int], auxes@[c as int]));
            assert(codes[c as int].len() == np);
        }
        let col: Vec<Fr> = copied(auxes[c].table.as_slice());
        assert(vals(col@).len() == col@.len());
        table.push(col);
        items.push(BatchOpenSpec { aux: &auxes[c], commitment: &coms[c], commit_n_vars: n_vars });
        j += 1;
    }
    proof {
        let want = vals2(h) + Seq::new(29, |j: int| lifted_codes(codes[opening_order()[j] as int]));
        assert(vals2(table@) =~= want) by {
            assert forall|k: int| 0 <= k < 35 implies #[trigger] vals2(table@)[k] == want[k] by {
                if k < 6 {
                    assert(table@[k] == h[k]);
                }
            }
        }
        assert(item_coms(items@) =~= seq![*d_commit, *b_commit] + picked(coms@, opening_order()));
    }
    (table, items)
}

/// Whether the tables of the interval and of the line are the committed ones,
/// and of the padded size.
pub open spec fn critical_committed<P: MlPcs>(
    ck: P::CommitterKey,
    l_aux: CommittedAux<P>,
    l: P::Commitment,
    u_aux: CommittedAux<P>,
    u: P::Commitment,
    d_aux: CommittedAux<P>,
    d: P::Commitment,
    b_aux: CommittedAux<P>,
    b: P::Commitment,
    np: nat,
) -> bool {
    &&& aux_of(ck, l, l_aux)
    &&& aux_of(ck, u, u_aux)
    &&& aux_of(ck, d, d_aux)
    &&& aux_of(ck, b, b_aux)
    &&& l_aux.table@.len() == np
    &&& u_aux.table@.len() == np
    &&& d_aux.table@.len() == np
    &&& b_aux.table@.len() == np
}

/// Run the sumcheck over the neurons, and open everything at its final point.
fn prove_critical_run<P: MlPcs>(
    exprs: Vec<Expr>,
    rhos: Vec<Fr>,
    coms: &Vec<P::Commitment>,
    auxes: &Vec<CommittedAux<P>>,
    l_codes: &[i128],
    u_codes: &[i128],
    d_codes: &Vec<i128>,
    b_codes: &Vec<i128>,
    l_aux: &CommittedAux<P>,
    l_commit: &P::Commitment,
    u_aux: &CommittedAux<P>,
    u_commit: &P::Commitment,
    d_aux: &CommittedAux<P>,
    d_commit: &P::Commitment,
    b_aux: &CommittedAux<P>,
    b_commit: &P::Commitment,
    n_vars: usize,
    params: &SnarkParams<P>,
    sponge: &mut Transcript,
    rng: &mut P::Randomness,
    Ghost(codes): Ghost<Seq<Seq<i128>>>,
    Ghost(t6): Ghost<Seq<u8>>,
) -> (r: Result<CriticalRun<P>, SnarkError>)
    requires
        pow2(n_vars as nat) <= usize::MAX,
        l_codes@.len() <= pow2(n_vars as nat),
        u_codes@.len() == l_codes@.len(),
        d_codes@.len() == pow2(n_vars as nat),
        b_codes@.len() == pow2(n_vars as nat),
        codes.len() == 29,
        forall|j: int| 0 <= j < 29 ==> (#[trigger] codes[j]).len() == pow2(n_vars as nat),
        columns_committed(params.committer_key, coms@, auxes@, codes),
        exprs@.len() == 16,
        rhos@.len() == 15,
        vals(rhos@) == challenges(t6, 15),
        state_of(*old(sponge)) == challenged_n(t6, 15),
    ensures
        r matches Ok(x) ==> {
            &&& x.rhos@.len() == 15
            &&& x.r_test@.len() == n_vars
            &&& x.run.rounds@.len() == n_vars
            &&& x.run.point@.len() == n_vars
            &&& x.run.values@.len() == 31
            &&& x.run.single_values@.len() == 2
            &&& x.run.single_openings@.len() == 2
        },
        cp_run_honest(
            *params,
            exprs@,
            l_codes@,
            u_codes@,
            d_codes@,
            b_codes@,
            *l_aux,
            *l_commit,
            *u_aux,
            *u_commit,
            *d_aux,
            *d_commit,
            *b_aux,
            *b_commit,
            pow2(n_vars as nat),
            codes,
        ) ==> r is Ok,
        critical_committed(
            params.committer_key,
            *l_aux,
            *l_commit,
            *u_aux,
            *u_commit,
            *d_aux,
            *d_commit,
            *b_aux,
            *b_commit,
            pow2(n_vars as nat),
        ) && params.keys_match() ==> (r matches Ok(x) ==> critical_run_ok(
            params.verifier_key,
            x,
            exprs@,
            l_codes@.len(),
            n_vars as nat,
            *l_commit,
            *u_commit,
            seq![*d_commit, *b_commit] + picked(coms@, opening_order()),
            t6,
            state_of(*final(sponge)),
        )),
{
    proof {
        reveal(critical_run_ok);
        reveal(cp_run_honest);
        lemma_pow2_machine(n_vars as nat);
    }
    let n_padded: usize = pow2_usize(n_vars);
    let ghost np = pow2(n_vars as nat);
    let r_test: Vec<Fr> = squeeze(sponge, n_vars);
    let eq: Vec<Fr> = build_eq_table(r_test.as_slice());
    let ghost eqv = eq_table(vals(r_test@));
    let mask_col: Vec<Fr> = mask_table(l_codes.len(), n_padded);
    let l_col: Vec<Fr> = lift_padded(l_codes, n_padded);
    let u_col: Vec<Fr> = lift_padded(u_codes, n_padded);
    let d_col: Vec<Fr> = lift(d_codes.as_slice());
    let b_col: Vec<Fr> = lift(b_codes.as_slice());
    assert(vals(eq@).len() == eq@.len());
    let head: Vec<Vec<Fr>> = vec![eq, mask_col, l_col, u_col, d_col, b_col];
    let ghost tv = cp_table(
        eqv,
        l_codes@.len(),
        np,
        zero_padded(lifted_codes(l_codes@), np),
        zero_padded(lifted_codes(u_codes@), np),
        lifted_codes(d_codes@),
        lifted_codes(b_codes@),
        codes,
    );
    assert(vals2(head@) =~= seq![
        eqv,
        mask(l_codes@.len(), np),
        zero_padded(lifted_codes(l_codes@), np),
        zero_padded(lifted_codes(u_codes@), np),
        lifted_codes(d_codes@),
        lifted_codes(b_codes@),
    ]);
    let (table, items): (Vec<Vec<Fr>>, Vec<BatchOpenSpec<'_, P>>) = cp_gather(
        head,
        coms,
        auxes,
        d_aux,
        d_commit,
        b_aux,
        b_commit,
        n_vars,
        &params.committer_key,
        Ghost(codes),
    );
    assert(vals2(table@) == tv);
    let mut singles: Vec<BatchOpenSpec<'_, P>> = Vec::with_capacity(2);
    singles.push(BatchOpenSpec { aux: l_aux, commitment: l_commit, commit_n_vars: n_vars });
    singles.push(BatchOpenSpec { aux: u_aux, commitment: u_commit, commit_n_vars: n_vars });
    let ident: MaskedCombination = MaskedCombination {
        columns: 33,
        exprs,
        rhos: copied(rhos.as_slice()),
    };
    let ghost honest = cp_run_honest(
        *params,
        exprs@,
        l_codes@,
        u_codes@,
        d_codes@,
        b_codes@,
        *l_aux,
        *l_commit,
        *u_aux,
        *u_commit,
        *d_aux,
        *d_commit,
        *b_aux,
        *b_commit,
        np,
        codes,
    );
    let ghost committed = critical_committed(
        params.committer_key,
        *l_aux,
        *l_commit,
        *u_aux,
        *u_commit,
        *d_aux,
        *d_commit,
        *b_aux,
        *b_commit,
        np,
    );
    proof {
        if honest {
            assert(vals(l_aux.table@).len() == l_aux.table@.len());
            assert(vals(u_aux.table@).len() == u_aux.table@.len());
            assert(vals(d_aux.table@).len() == d_aux.table@.len());
            assert(vals(b_aux.table@).len() == b_aux.table@.len());
            assert(committed);
        }
        if committed {
            assert(items_committed(params.committer_key, items@, n_vars as nat));
            assert(items_committed(params.committer_key, singles@, n_vars as nat));
        }
        assert forall|i: int| 0 <= i < eqv.len() implies in_field(#[trigger] eqv[i]) by {
            lemma_eq_weight_in_field(vals(r_test@), i);
        }
        assert(item_coms(singles@) =~= seq![*l_commit, *u_commit]);
        if honest {
            assert(total(&ident, tv, np) == 0);
            assert(item_tables(singles@) =~= seq![tv[2], tv[3]]);
            assert(item_tables(items@) =~= tv.skip(4)) by {
                assert forall|k: int| 0 <= k < 31 implies #[trigger] item_tables(items@)[k]
                    == tv.skip(4)[k] by {
                    if k >= 2 {
                        assert(vals(items@[k].aux.table@) == lifted_codes(
                            codes[opening_order()[k - 2] as int],
                        ));
                    }
                }
            }
            assert(tv.skip(2) =~= item_tables(singles@) + item_tables(items@));
        }
        assert(tv.take(2) =~= seq![eqv, mask(l_codes@.len(), np)]);
    }
    let run: OpenedRun<P, RoundPoly4> = match prove_opened::<P, MaskedCombination, RoundPoly4>(
        &ident,
        table,
        2,
        &singles,
        &items,
        n_vars,
        SnarkError::RelaxationSoundnessFinalCheckFailed {
            which: "sshape3c: sumcheck round invariant",
        },
        SnarkError::RelaxationSoundnessFinalCheckFailed {
            which: "sshape3c: final identity at r_final",
        },
        &params.committer_key,
        sponge,
        rng,
    ) {
        Ok(x) => x,
        Err(e) => {
            return Err(e);
        },
    };
    proof {
        if committed && params.keys_match() {
            reveal_with_fuel(singles_state, 3);
            reveal_with_fuel(singles_accepted, 3);
            let point = vals(run.point@);
            let pv = vals(run.single_values@);
            assert(pv.len() == 2);
            let cell = values_at(tv.take(2), point) + pv + vals(run.values@);
            assert(cell =~= seq![
                mle(eqv, point),
                mle(mask(l_codes@.len(), np), point),
                pv[0],
                pv[1],
            ] + vals(run.values@));
        }
    }
    Ok(CriticalRun { rhos, r_test, run })
}

// ---- The prover ----

/// The scale codes for given scales.
pub open spec fn cp_scale_codes<P: MlPcs>(
    params: SnarkParams<P>,
    s_d: Scale,
    s_b: Scale,
    s_w: Scale,
) -> CriticalScales {
    CriticalScales {
        s_d: pow2(s_d.e as nat) as int,
        s_b: pow2(s_b.e as nat) as int,
        s_w: pow2(s_w.e as nat) as int,
        s_x: pow2(params.sigma_x_scale_log2 as nat) as int,
        s_v: pow2(params.sigma_v_scale_log2 as nat) as int,
    }
}

/// The inputs of a layer for given scales.
pub open spec fn cp_inputs<P: MlPcs>(
    params: SnarkParams<P>,
    kind: ActivationKind,
    line: SshapeLineKind,
    layer_idx: usize,
    l: Seq<i128>,
    u: Seq<i128>,
    d: Seq<i128>,
    b: Seq<i128>,
    seeds: Seq<Option<i128>>,
    s_d: Scale,
    s_b: Scale,
    s_w: Scale,
) -> CriticalInputs {
    critical_inputs(
        params.preprocessed.spec_sigma(),
        kind,
        line,
        layer_idx,
        l,
        u,
        d,
        b,
        seeds,
        cp_scale_codes(params, s_d, s_b, s_w),
        params.gadget_range_bits as nat,
    )
}

/// The rows of a layer for given inputs.
pub open spec fn cp_cells(x: CriticalInputs) -> Seq<NeuronWitness> {
    critical_cells(x, x.l.len(), pow2(vector_vars(x.l.len())))
}

/// The reason why the prover refuses its scales and sizes, if it does.
pub open spec fn critical_shape_refusal<P: MlPcs>(
    params: SnarkParams<P>,
    kind: ActivationKind,
    l_len: nat,
    u_len: nat,
    d_len: nat,
    b_len: nat,
    s_d: Scale,
    s_b: Scale,
    s_w: Scale,
) -> Option<SnarkError> {
    let bits = params.gadget_range_bits as int;
    let np = pow2(vector_vars(l_len));
    if kind is ReLU {
        Some(SnarkError::ShapeMismatch { what: "sshape3c called for ReLU layer" })
    } else if !scale_in(s_d, bits) {
        Some(
            SnarkError::RelaxationSoundnessFinalCheckFailed {
                which: "sshape3c: FD scale precondition s_d·s_x·s_v ≤ 2^GADGET_RANGE_BITS",
            },
        )
    } else if !s_b.spec_is_pow2() {
        Some(SnarkError::ShapeMismatch { what: "sshape3c: s_b not pow2" })
    } else if !s_w.spec_is_pow2() {
        Some(SnarkError::ShapeMismatch { what: "sshape3c: s_w not pow2" })
    } else if s_b.e < 0 || s_w.e < 0 {
        Some(
            SnarkError::ShapeMismatch {
                what: "sshape3c: scales must have non-neg pow2 exponent",
            },
        )
    } else if s_b.e > bits || s_w.e > bits {
        Some(
            SnarkError::RelaxationSoundnessFinalCheckFailed {
                which: "sshape3c: per-scale precondition (each of s_d, s_b, s_w must be ≤ 2^GADGET_RANGE_BITS)",
            },
        )
    } else if l_len == 0 {
        Some(SnarkError::Reserved { what: "sshape3c: requires n ≥ 1" })
    } else if l_len != u_len {
        Some(SnarkError::ShapeMismatch { what: "sshape3c: l/u length mismatch" })
    } else if d_len != np || b_len != np {
        Some(SnarkError::ShapeMismatch { what: "sshape3c: d/b commit n_vars mismatch" })
    } else if s_w.e != params.sigma_x_scale_log2 {
        Some(
            SnarkError::Reserved {
                what: "sshape3c: requires s_w = s_x (= 2^sigma_x_scale_log2) — abs/shift extension TBD",
            },
        )
    } else {
        None
    }
}

/// The reason why the prover refuses its inputs, if it does.
pub open spec fn critical_refusal<P: MlPcs>(
    params: SnarkParams<P>,
    x: CriticalInputs,
    l_aux_len: nat,
    u_aux_len: nat,
    s_d: Scale,
    s_b: Scale,
    s_w: Scale,
) -> Option<SnarkError> {
    let np = pow2(vector_vars(x.l.len()));
    let (lower, upper) = envelope_tables(params.preprocessed.spec_sigma(), x.kind)->Some_0;
    match critical_shape_refusal(
        params,
        x.kind,
        x.l.len(),
        x.u.len(),
        x.d.len(),
        x.b.len(),
        s_d,
        s_b,
        s_w,
    ) {
        Some(e) => Some(e),
        None => if l_aux_len != np || u_aux_len != np {
            Some(
                SnarkError::ShapeMismatch {
                    what: "sshape3c: preact aux length mismatch with n_padded",
                },
            )
        } else {
            match table_decode_error(lower, upper, 0) {
                Some(e) => Some(e),
                None => match critical_scan(x, x.l.len(), 0) {
                    Some(e) => Some(e),
                    None => cp_range_error(critical_columns(cp_cells(x)), x.bound),
                },
            }
        },
    }
}

/// Whether the tables are the committed ones and can be read as integers, and
/// everything can be committed.
pub open spec fn critical_ready<P: MlPcs>(
    params: SnarkParams<P>,
    x: CriticalInputs,
    l_aux: CommittedAux<P>,
    l: P::Commitment,
    u_aux: CommittedAux<P>,
    u: P::Commitment,
    d_aux: CommittedAux<P>,
    d: P::Commitment,
    b_aux: CommittedAux<P>,
    b: P::Commitment,
    s_d: Scale,
) -> bool {
    let ck = params.committer_key;
    let bits = params.gadget_range_bits as nat;
    let sigma = params.preprocessed.spec_sigma();
    let np = pow2(vector_vars(x.l.len()));
    let table_len = envelope_tables(sigma, x.kind)->Some_0.0.len();
    &&& aux_of(ck, l, l_aux)
    &&& aux_of(ck, u, u_aux)
    &&& aux_of(ck, d, d_aux)
    &&& aux_of(ck, b, b_aux)
    &&& vals(l_aux.table@) == zero_padded(lifted_codes(x.l), np)
    &&& vals(u_aux.table@) == zero_padded(lifted_codes(x.u), np)
    &&& all_decodable(vals(d_aux.table@))
    &&& all_decodable(vals(b_aux.table@))
    &&& fits(cp_margin(params, s_d))
    &&& all_below(critical_column(cp_cells(x), 0), x.bound)
    &&& params.preprocessed.has_pos_table(bits)
    &&& P::can_commit(ck, np)
    &&& P::can_commit(ck, pow2(even_vars(bits)))
    &&& P::can_commit(ck, pow2(even_vars(ceil_log2(table_len))))
}

/// What a proof holds: the header, and commitments to the neurons' columns.
#[verifier::opaque]
pub open spec fn critical_made<P: MlPcs>(
    params: SnarkParams<P>,
    proof: SshapeCriticalPointProof<P>,
    layer_idx: usize,
    kind: ActivationKind,
    line: SshapeLineKind,
    n: nat,
    cells: Seq<NeuronWitness>,
) -> bool {
    &&& proof.layer_idx == layer_idx
    &&& proof.kind_tag == kind_tag(kind)
    &&& proof.line_tag == line_tag(line)
    &&& proof.n_real == n
    &&& proof.n_vars == vector_vars(n)
    &&& forall|j: int|
        0 <= j < 29 ==> exists|st: P::State| #[trigger]
            P::committed(
                params.committer_key,
                #[trigger] cp_coms(proof)[j],
                st,
                lifted_codes(critical_column(cells, j)),
            )
}

/// The columns that a proof is made from.
struct CriticalPrepared {
    n_vars: usize,
    d_codes: Vec<i128>,
    b_codes: Vec<i128>,
    cols: Vec<Vec<i128>>,
}

/// Whether the inputs were checked and the rows computed.
spec fn critical_prepared<P: MlPcs>(
    params: SnarkParams<P>,
    y: CriticalPrepared,
    x: CriticalInputs,
    l_aux_len: nat,
    u_aux_len: nat,
    s_d: Scale,
    s_b: Scale,
    s_w: Scale,
) -> bool {
    let np = pow2(vector_vars(x.l.len()));
    &&& critical_refusal(params, x, l_aux_len, u_aux_len, s_d, s_b, s_w) is None
    &&& y.n_vars == vector_vars(x.l.len())
    &&& y.d_codes@ == x.d
    &&& y.b_codes@ == x.b
    &&& codes_of(y.cols@) == critical_columns(cp_cells(x))
    &&& y.cols@.len() == 29
    &&& forall|j: int| 0 <= j < 29 ==> (#[trigger] y.cols@[j])@.len() == np
}

/// Check the scales and sizes.
fn check_critical_shapes<P: MlPcs>(
    kind: ActivationKind,
    l_len: usize,
    u_len: usize,
    d_len: usize,
    b_len: usize,
    s_d: Scale,
    s_b: Scale,
    s_w: Scale,
    params: &SnarkParams<P>,
) -> (r: Result<usize, SnarkError>)
    requires
        l_len <= usize::MAX / 2 + 1,
        pow2(vector_vars(l_len as nat)) <= usize::MAX,
        params.gadget_range_bits < 64,
    ensures
        match critical_shape_refusal(
            *params,
            kind,
            l_len as nat,
            u_len as nat,
            d_len as nat,
            b_len as nat,
            s_d,
            s_b,
            s_w,
        ) {
            Some(e) => r == Err::<usize, SnarkError>(e),
            None => r matches Ok(n) && n == vector_vars(l_len as nat),
        },
{
    match kind {
        ActivationKind::ReLU => {
            return Err(SnarkError::ShapeMismatch { what: "sshape3c called for ReLU layer" });
        },
        _ => {},
    }
    if !fd_scale_precondition_holds(s_d, s_w, params.gadget_range_bits) {
        return Err(
            SnarkError::RelaxationSoundnessFinalCheckFailed {
                which: "sshape3c: FD scale precondition s_d·s_x·s_v ≤ 2^GADGET_RANGE_BITS",
            },
        );
    }
    let s_d_e: i32 = match s_d.pow2_exponent() {
        Ok(e) => e,
        Err(_) => {
            return Err(SnarkError::ShapeMismatch { what: "sshape3c: s_d not pow2" });
        },
    };
    let s_b_e: i32 = match s_b.pow2_exponent() {
        Ok(e) => e,
        Err(_) => {
            return Err(SnarkError::ShapeMismatch { what: "sshape3c: s_b not pow2" });
        },
    };
    let s_w_e: i32 = match s_w.pow2_exponent() {
        Ok(e) => e,
        Err(_) => {
            return Err(SnarkError::ShapeMismatch { what: "sshape3c: s_w not pow2" });
        },
    };
    if s_d_e < 0 || s_b_e < 0 || s_w_e < 0 {
        return Err(
            SnarkError::ShapeMismatch {
                what: "sshape3c: scales must have non-neg pow2 exponent",
            },
        );
    }
    let bits: i32 = params.gadget_range_bits as i32;
    if s_d_e > bits || s_b_e > bits || s_w_e > bits {
        return Err(
            SnarkError::RelaxationSoundnessFinalCheckFailed {
                which: "sshape3c: per-scale precondition (each of s_d, s_b, s_w must be ≤ 2^GADGET_RANGE_BITS)",
            },
        );
    }
    if l_len == 0 {
        return Err(SnarkError::Reserved { what: "sshape3c: requires n ≥ 1" });
    }
    if l_len != u_len {
        return Err(SnarkError::ShapeMismatch { what: "sshape3c: l/u length mismatch" });
    }
    let n_vars: usize = native_vector_n_vars(l_len);
    let n_padded: usize = pow2_usize(n_vars);
    if d_len != n_padded || b_len != n_padded {
        return Err(SnarkError::ShapeMismatch { what: "sshape3c: d/b commit n_vars mismatch" });
    }
    if s_w_e != params.sigma_x_scale_log2 {
        return Err(
            SnarkError::Reserved {
                what: "sshape3c: requires s_w = s_x (= 2^sigma_x_scale_log2) — abs/shift extension TBD",
            },
        );
    }
    Ok(n_vars)
}

/// Check the inputs whose scales and sizes were checked, and compute the rows.
fn prepare_critical<P: MlPcs>(
    n_vars: usize,
    layer_idx: usize,
    kind: ActivationKind,
    line: SshapeLineKind,
    l_codes: &[i128],
    u_codes: &[i128],
    z_seeds: &[Option<i128>],
    l_aux: &CommittedAux<P>,
    u_aux: &CommittedAux<P>,
    d_aux: &CommittedAux<P>,
    b_aux: &CommittedAux<P>,
    s_d: Scale,
    s_b: Scale,
    s_w: Scale,
    params: &SnarkParams<P>,
) -> (r: Result<CriticalPrepared, SnarkError>)
    requires
        l_codes@.len() <= usize::MAX / 2 + 1,
        4 * pow2(vector_vars(l_codes@.len())) <= usize::MAX,
        z_seeds@.len() >= l_codes@.len(),
        forall|j: int| 0 <= j < l_codes@.len() ==> seed_ok(#[trigger] z_seeds@[j]),
        tables_fit(*params),
        params.scales_ok(),
        n_vars == vector_vars(l_codes@.len()),
        critical_shape_refusal(
            *params,
            kind,
            l_codes@.len(),
            u_codes@.len(),
            d_aux.table@.len(),
            b_aux.table@.len(),
            s_d,
            s_b,
            s_w,
        ) is None,
    ensures
        ({
            let x = cp_inputs(
                *params,
                kind,
                line,
                layer_idx,
                l_codes@,
                u_codes@,
                decoded(vals(d_aux.table@)),
                decoded(vals(b_aux.table@)),
                z_seeds@,
                s_d,
                s_b,
                s_w,
            );
            let (la, ua) = (l_aux.table@.len(), u_aux.table@.len());
            match critical_refusal(*params, x, la, ua, s_d, s_b, s_w) {
                Some(e) => r == Err::<CriticalPrepared, SnarkError>(e),
                None => r matches Ok(y) && critical_prepared(
                    *params,
                    y,
                    x,
                    la,
                    ua,
                    s_d,
                    s_b,
                    s_w,
                ),
            }
        }),
{
    proof {
        lemma_bits_small(params.gadget_range_bits as nat);
        assert(vals(d_aux.table@).len() == d_aux.table@.len());
        assert(vals(b_aux.table@).len() == b_aux.table@.len());
    }
    let n: usize = l_codes.len();
    let n_padded: usize = pow2_usize(n_vars);
    proof {
        law_vector_vars(n as nat);
    }
    if l_aux.table.len() != n_padded || u_aux.table.len() != n_padded {
        return Err(
            SnarkError::ShapeMismatch {
                what: "sshape3c: preact aux length mismatch with n_padded",
            },
        );
    }
    let d_codes: Vec<i128> = decode_or_zero(&d_aux.table);
    let b_codes: Vec<i128> = decode_or_zero(&b_aux.table);
    let s_w_code: i128 = pow2_i128(s_w.e as usize);
    let s_x_code: i128 = pow2_i128(params.sigma_x_scale_log2 as usize);
    proof {
        lemma_pow2_pos(s_w.e as nat);
        lemma_pow2_pos(params.sigma_x_scale_log2 as nat);
    }
    let cells: Vec<NeuronWitness> = match compute_witnesses(
        params.preprocessed.sigma(),
        kind,
        line,
        layer_idx,
        l_codes,
        u_codes,
        d_codes.as_slice(),
        b_codes.as_slice(),
        z_seeds,
        pow2_i128(s_d.e as usize),
        pow2_i128(s_b.e as usize),
        s_w_code,
        s_x_code,
        pow2_i128(params.sigma_v_scale_log2 as usize),
        n,
        n_padded,
        params.gadget_range_bits,
    ) {
        Ok(c) => c,
        Err(e) => {
            return Err(e);
        },
    };
    let cols: Vec<Vec<i128>> = build_columns(&cells);
    match check_critical_ranges(&cols, pow2_i128(params.gadget_range_bits)) {
        Ok(_) => {},
        Err(e) => {
            return Err(e);
        },
    }
    Ok(CriticalPrepared { n_vars, d_codes, b_codes, cols })
}

/// The envelope rows of honest neurons are the table's.
proof fn lemma_neurons_in_table(pre: SigmaTables, x: CriticalInputs, n: nat, np: nat)
    requires
        pre.wf(),
        x.kind != ActivationKind::ReLU,
        ({
            let (lower, upper) = envelope_tables(pre, x.kind)->Some_0;
            &&& x.lower == decoded(lower)
            &&& x.upper == decoded(upper)
            &&& table_decode_error(lower, upper, 0) is None
        }),
        x.bound > 0,
        fits(x.s.s_d) && fits(x.s.s_b) && fits(x.s.s_w) && fits(x.s.s_v),
        critical_scan(x, n, 0) is None,
        n <= np,
    ensures
        ({
            let (lower, upper) = envelope_tables(pre, x.kind)->Some_0;
            let cols = critical_columns(critical_cells(x, n, np));
            &&& rows_in_table(
                row_indices(cols[0]),
                cp_row_uppers(cols, upper),
                cp_row_lowers(cols, lower),
                upper,
                lower,
            )
            &&& forall|i: int| 0 <= i < np ==> 1 <= #[trigger] cols[0][i] <= upper.len() - 2
        }),
{
    broadcast use lemma_view_in_field;

    let (lower, upper) = envelope_tables(pre, x.kind)->Some_0;
    let cells = critical_cells(x, n, np);
    let cols = critical_columns(cells);
    let idx = row_indices(cols[0]);
    let ups = cp_row_uppers(cols, upper);
    let los = cp_row_lowers(cols, lower);
    lemma_table_four(pre, x.kind);
    lemma_tables_decode(lower, upper, 0);
    lemma_critical_scan_none(x, n, 0);
    assert forall|j: int| 0 <= j < 7 implies #[trigger] cols[j] == critical_column(cells, j) by {}
    assert forall|i: int| 0 <= i < np implies {
        let c = #[trigger] cells[i];
        &&& 1 <= c.z <= upper.len() - 2
        &&& c.sigma_lo_z == x.lower[c.z as int]
        &&& c.sigma_up_z == x.upper[c.z as int]
        &&& c.sigma_lo_zmd == x.lower[c.z - 1]
        &&& c.sigma_up_zmd == x.upper[c.z - 1]
        &&& c.sigma_lo_zpd == x.lower[c.z + 1]
        &&& c.sigma_up_zpd == x.upper[c.z + 1]
    } by {
        if i < n {
            assert(critical_neuron(x, i) is Ok);
            lemma_neuron_facts(
                x.lower,
                x.upper,
                x.kind,
                x.line,
                x.layer_idx,
                x.l[i] as int,
                x.u[i] as int,
                x.d[i] as int,
                x.b[i] as int,
                x.seeds[i],
                x.s,
                x.bound,
            );
        }
    }
    assert forall|k: int| 0 <= k < upper.len() implies #[trigger] residue(x.upper[k] as int)
        == upper[k] by {
        assert(signed_of(upper[k]) is Some);
        lemma_signed_of_residue(upper[k]);
    }
    assert forall|k: int| 0 <= k < lower.len() implies #[trigger] residue(x.lower[k] as int)
        == lower[k] by {
        assert(signed_of(lower[k]) is Some);
        lemma_signed_of_residue(lower[k]);
    }
    assert(signed_of(upper[0]) is Some && signed_of(lower[0]) is Some);
    assert forall|k: int| 0 <= k < idx.len() implies {
        &&& 0 <= #[trigger] idx[k] < upper.len()
        &&& ups[k] == upper[idx[k] as int]
        &&& los[k] == lower[idx[k] as int]
    } by {
        let i = k / 4;
        let c = cells[i];
        assert(1 <= c.z <= upper.len() - 2);
        assert(cols[0][i] == c.z && cols[1][i] == c.sigma_lo_z && cols[2][i] == c.sigma_up_z);
        assert(cols[3][i] == c.sigma_lo_zmd && cols[4][i] == c.sigma_up_zmd);
        assert(cols[5][i] == c.sigma_lo_zpd && cols[6][i] == c.sigma_up_zpd);
        let z = c.z as int;
        assert(residue(x.upper[z] as int) == upper[z] && residue(x.lower[z] as int) == lower[z]);
        assert(residue(x.upper[z - 1] as int) == upper[z - 1] && residue(x.lower[z - 1] as int)
            == lower[z - 1]);
        assert(residue(x.upper[z + 1] as int) == upper[z + 1] && residue(x.lower[z + 1] as int)
            == lower[z + 1]);
    }
    assert forall|i: int| 0 <= i < np implies 1 <= #[trigger] cols[0][i] <= upper.len() - 2 by {
        assert(cols[0][i] == cells[i].z);
    }
}

/// What the scale codes of accepted scales satisfy.
proof fn lemma_scale_codes<P: MlPcs>(params: SnarkParams<P>, s_d: Scale, s_b: Scale, s_w: Scale)
    requires
        params.gadget_range_bits < 64,
        params.scales_ok(),
        0 <= s_d.e <= params.gadget_range_bits,
        0 <= s_b.e <= params.gadget_range_bits,
        0 <= s_w.e <= params.gadget_range_bits,
        s_w.e == params.sigma_x_scale_log2,
    ensures
        ({
            let s = cp_scale_codes(params, s_d, s_b, s_w);
            &&& fits(s.s_d) && fits(s.s_b) && fits(s.s_w) && fits(s.s_v)
            &&& fits(s.s_d * s.s_x)
            &&& twos(s.s_x) == twos(s.s_w)
            &&& cp_margin(params, s_d) == s.s_d * s.s_x * 4
        }),
        pow2(params.gadget_range_bits as nat) > 0,
        fits(pow2(params.gadget_range_bits as nat) as int),
{
    lemma_pow2_fits(s_d.e as nat);
    lemma_pow2_fits(s_b.e as nat);
    lemma_pow2_fits(s_w.e as nat);
    lemma_pow2_fits(params.sigma_v_scale_log2 as nat);
    lemma_pow2_fits(params.gadget_range_bits as nat);
    lemma_pow2_pos(params.gadget_range_bits as nat);
    lemma_pow2_adds(s_d.e as nat, s_w.e as nat);
    lemma_pow2_fits((s_d.e + s_w.e) as nat);
}

/// Small powers of two are `i128` values.
proof fn lemma_pow2_fits(k: nat)
    requires
        k <= 126,
    ensures
        fits(pow2(k) as int),
{
    lemma_pow2_126();
    if k < 126 {
        lemma_pow2_strictly_increases(k, 126);
    }
}

/// Checked inputs make parts that can be proved.
proof fn lemma_critical_parts_provable<P: MlPcs>(
    params: SnarkParams<P>,
    y: CriticalPrepared,
    x: CriticalInputs,
    l_codes: Seq<i128>,
    u_codes: Seq<i128>,
    l_aux: CommittedAux<P>,
    l: P::Commitment,
    u_aux: CommittedAux<P>,
    u: P::Commitment,
    d_aux: CommittedAux<P>,
    d: P::Commitment,
    b_aux: CommittedAux<P>,
    b: P::Commitment,
    s_d: Scale,
    s_b: Scale,
    s_w: Scale,
)
    requires
        params.gadget_range_bits < 64,
        params.scales_ok(),
        params.preprocessed.spec_sigma().wf(),
        x == cp_inputs(
            params,
            x.kind,
            x.line,
            x.layer_idx,
            l_codes,
            u_codes,
            y.d_codes@,
            y.b_codes@,
            x.seeds,
            s_d,
            s_b,
            s_w,
        ),
        critical_prepared(
            params,
            y,
            x,
            l_aux.table@.len(),
            u_aux.table@.len(),
            s_d,
            s_b,
            s_w,
        ),
        critical_ready(params, x, l_aux, l, u_aux, u, d_aux, d, b_aux, b, s_d),
    ensures
        cparts_provable(params, x.kind, codes_of(y.cols@), y.n_vars as nat),
{
    reveal(cparts_provable);
    reveal(cp_range_error);
    let np = pow2(y.n_vars as nat);
    law_vector_vars(l_codes.len());
    lemma_scale_codes(params, s_d, s_b, s_w);
    lemma_table_four(params.preprocessed.spec_sigma(), x.kind);
    lemma_neurons_in_table(params.preprocessed.spec_sigma(), x, l_codes.len(), np);
    let codes = codes_of(y.cols@);
    assert(codes == critical_columns(cp_cells(x)));
    assert(codes[0] == critical_column(cp_cells(x), 0));
    assert forall|i: int| 0 <= i < cp_checked().len() implies all_below(
        #[trigger] codes[cp_checked()[i] as int],
        pow2(params.gadget_range_bits as nat) as int,
    ) by {}
}

/// Checked inputs make an honest sumcheck.
proof fn lemma_critical_honest<P: MlPcs>(
    params: SnarkParams<P>,
    y: CriticalPrepared,
    x: CriticalInputs,
    l_codes: Seq<i128>,
    u_codes: Seq<i128>,
    l_aux: CommittedAux<P>,
    l: P::Commitment,
    u_aux: CommittedAux<P>,
    u: P::Commitment,
    d_aux: CommittedAux<P>,
    d: P::Commitment,
    b_aux: CommittedAux<P>,
    b: P::Commitment,
    s_d: Scale,
    s_b: Scale,
    s_w: Scale,
)
    requires
        params.gadget_range_bits < 64,
        params.scales_ok(),
        params.preprocessed.spec_sigma().wf(),
        x == cp_inputs(
            params,
            x.kind,
            x.line,
            x.layer_idx,
            l_codes,
            u_codes,
            decoded(vals(d_aux.table@)),
            decoded(vals(b_aux.table@)),
            x.seeds,
            s_d,
            s_b,
            s_w,
        ),
        critical_prepared(
            params,
            y,
            x,
            l_aux.table@.len(),
            u_aux.table@.len(),
            s_d,
            s_b,
            s_w,
        ),
        critical_ready(params, x, l_aux, l, u_aux, u, d_aux, d, b_aux, b, s_d),
        params.keys_match(),
    ensures
        cp_run_honest(
            params,
            cp_exprs(params, x.kind, x.line, s_d, s_b, s_w),
            l_codes,
            u_codes,
            y.d_codes@,
            y.b_codes@,
            l_aux,
            l,
            u_aux,
            u,
            d_aux,
            d,
            b_aux,
            b,
            pow2(y.n_vars as nat),
            codes_of(y.cols@),
        ),
{
    broadcast use lemma_view_in_field;

    reveal(cp_run_honest);
    let np = pow2(y.n_vars as nat);
    let n = l_codes.len();
    let exprs = cp_exprs(params, x.kind, x.line, s_d, s_b, s_w);
    let codes = codes_of(y.cols@);
    law_vector_vars(n);
    lemma_scale_codes(params, s_d, s_b, s_w);
    lemma_table_four(params.preprocessed.spec_sigma(), x.kind);
    let s_d_code = pow2(s_d.e as nat) as i128;
    let s_b_code = pow2(s_b.e as nat) as i128;
    let s_w_code = pow2(s_w.e as nat) as i128;
    let s_v_code = pow2(params.sigma_v_scale_log2 as nat) as i128;
    let c_fd = (pow2(s_d.e as nat) * pow2(params.sigma_x_scale_log2 as nat)) as i128;
    let eps = cp_margin(params, s_d) as i128;
    let m = pow2(params.gadget_range_bits as nat) as i128;
    lemma_critical_degree(
        x.kind,
        x.line,
        s_d_code,
        s_b_code,
        s_w_code,
        s_v_code,
        c_fd,
        eps,
        m,
    );
    lemma_decoded_lifts(vals(d_aux.table@));
    lemma_decoded_lifts(vals(b_aux.table@));
    assert forall|ident: MaskedCombination, eq: Seq<int>|
        ident.columns == 33 && ident.exprs@ == exprs && eq.len() == np && all_in_field(
            eq,
        ) implies #[trigger] total(
        &ident,
        cp_table(
            eq,
            n,
            np,
            zero_padded(lifted_codes(l_codes), np),
            zero_padded(lifted_codes(u_codes), np),
            lifted_codes(y.d_codes@),
            lifted_codes(y.b_codes@),
            codes,
        ),
        np,
    ) == 0 by {
        lemma_critical_total(
            &ident,
            x,
            eq,
            n,
            np,
            s_d_code,
            s_b_code,
            s_w_code,
            s_v_code,
            c_fd,
            eps,
            m,
        );
    }
}

/// Whether a proof is put together from its parts.
#[verifier::opaque]
spec fn critical_assembled<P: MlPcs>(
    proof: SshapeCriticalPointProof<P>,
    parts: CriticalParts<P>,
    x: CriticalRun<P>,
) -> bool {
    &&& cp_coms(proof) == parts.coms@
    &&& cp_ranges(proof) == parts.ranges@
    &&& cp_env_values(proof) == vals(parts.env_values@)
    &&& proof.envelope_combine_alpha_1 == parts.look.alpha_1
    &&& proof.envelope_combine_alpha_2 == parts.look.alpha_2
    &&& proof.envelope_logup_beta == parts.look.beta
    &&& proof.envelope_lookup_proof == parts.look.pair.lookup_proof
    &&& proof.envelope_table_proof == parts.look.pair.table_proof
    &&& proof.envelope_lookup_top == parts.look.pair.lookup_top
    &&& proof.envelope_table_top == parts.look.pair.table_top
    &&& proof.envelope_witness_len == parts.look.witness_len
    &&& proof.envelope_table_len == parts.look.table_len
    &&& proof.envelope_mult_commit == parts.look.mult_commit
    &&& proof.envelope_mult_open == parts.mult_open
    &&& proof.envelope_mult_n_vars == parts.look.mult_n_vars
    &&& proof.envelope_witness_batched_open == parts.env_open
    &&& cp_rhos(proof) == vals(x.rhos@)
    &&& proof.r_test == x.r_test
    &&& proof.rounds == x.run.rounds
    &&& proof.r_final == x.run.point
    &&& cp_values(proof) == vals(x.run.values@)
    &&& proof.batched_open_at_r == x.run.opening
    &&& proof.preact_l_eval@ == vals(x.run.single_values@)[0]
    &&& proof.preact_u_eval@ == vals(x.run.single_values@)[1]
    &&& proof.preact_l_open_at_r_final == x.run.single_openings@[0]
    &&& proof.preact_u_open_at_r_final == x.run.single_openings@[1]
}

/// A proof put together from accepted parts passes the envelope's checks.
proof fn lemma_critical_envelope_accepts<P: MlPcs>(
    params: SnarkParams<P>,
    kind: ActivationKind,
    proof: SshapeCriticalPointProof<P>,
    parts: CriticalParts<P>,
    x: CriticalRun<P>,
    h: Seq<u8>,
    t6: Seq<u8>,
)
    requires
        kind != ActivationKind::ReLU,
        critical_assembled(proof, parts, x),
        parts.ranges@.len() == 12,
        parts.env_values@.len() == 7,
        cparts_ok(params, kind, parts, proof.n_vars as nat, h, t6),
    ensures
        ranges_verdict(
            params,
            picked(cp_coms(proof), cp_checked()),
            proof.n_vars as nat,
            cp_ranges(proof),
            abs_coms::<P>(h, cp_coms(proof)),
            0,
        ) == Ok::<(), SnarkError>(()),
        cp_envelope_verdict(params, proof, kind, cp_t2(params.verifier_key, proof, h)) == Ok::<
            (),
            SnarkError,
        >(()),
        t6 == cp_t6(params.verifier_key, proof, cp_t2(params.verifier_key, proof, h)),
{
    reveal(critical_assembled);
    reveal(cparts_ok);
    reveal(cp_envelope_verdict);
    reveal(cp_t6);
}

/// A proof put together from an accepted run passes the sumcheck's checks.
proof fn lemma_critical_sumcheck_accepts<P: MlPcs>(
    vk: P::VerifierKey,
    proof: SshapeCriticalPointProof<P>,
    exprs: Seq<Expr>,
    parts: CriticalParts<P>,
    x: CriticalRun<P>,
    preact_l: P::Commitment,
    preact_u: P::Commitment,
    d: P::Commitment,
    b: P::Commitment,
    t6: Seq<u8>,
    t10: Seq<u8>,
)
    requires
        critical_assembled(proof, parts, x),
        x.run.rounds@.len() == proof.n_vars,
        x.run.point@.len() == proof.n_vars,
        critical_run_ok(
            vk,
            x,
            exprs,
            proof.n_real as nat,
            proof.n_vars as nat,
            preact_l,
            preact_u,
            seq![d, b] + picked(parts.coms@, opening_order()),
            t6,
            t10,
        ),
    ensures
        cp_sumcheck_verdict(
            vk,
            proof,
            exprs,
            true,
            proof.n_real as nat,
            preact_l,
            preact_u,
            d,
            b,
            t6,
        ) == Ok::<(), SnarkError>(()),
        t10 == cp_t10(vk, proof, preact_l, preact_u, d, b, t6),
{
    reveal(critical_assembled);
    reveal(critical_run_ok);
    reveal(cp_sumcheck_verdict);
    reveal(cp_t10);
    assert(samples_of(proof.rounds@).len() == proof.n_vars);
}

/// A proof that was put together holds commitments to the neurons' columns.
proof fn lemma_critical_made<P: MlPcs>(
    params: SnarkParams<P>,
    proof: SshapeCriticalPointProof<P>,
    layer_idx: usize,
    kind: ActivationKind,
    line: SshapeLineKind,
    n: nat,
    cells: Seq<NeuronWitness>,
    parts: CriticalParts<P>,
    x: CriticalRun<P>,
)
    requires
        critical_assembled(proof, parts, x),
        proof.layer_idx == layer_idx,
        proof.kind_tag == kind_tag(kind),
        proof.line_tag == line_tag(line),
        proof.n_real == n,
        proof.n_vars == vector_vars(n),
        columns_committed(
            params.committer_key,
            parts.coms@,
            parts.auxes@,
            critical_columns(cells),
        ),
    ensures
        critical_made(params, proof, layer_idx, kind, line, n, cells),
{
    reveal(critical_assembled);
    reveal(critical_made);
    assert forall|j: int| 0 <= j < 29 implies exists|st: P::State| #[trigger]
        P::committed(
            params.committer_key,
            #[trigger] cp_coms(proof)[j],
            st,
            lifted_codes(critical_column(cells, j)),
        ) by {
        assert(critical_columns(cells)[j] == critical_column(cells, j));
        assert(vals(parts.auxes@[j].table@) == lifted_codes(critical_columns(cells)[j]));
        assert(aux_of(params.committer_key, parts.coms@[j], parts.auxes@[j]));
    }
}

/// Put a proof together.
fn assemble_critical<P: MlPcs>(
    layer_idx: usize,
    kind_tag: u8,
    line_tag: u8,
    n_vars: usize,
    n_real: usize,
    parts: CriticalParts<P>,
    x: CriticalRun<P>,
) -> (proof: SshapeCriticalPointProof<P>)
    requires
        parts.coms@.len() == 29,
        parts.ranges@.len() == 12,
        parts.env_values@.len() == 7,
        x.rhos@.len() == 15,
        x.run.values@.len() == 31,
        x.run.single_values@.len() == 2,
        x.run.single_openings@.len() == 2,
    ensures
        proof.layer_idx == layer_idx,
        proof.kind_tag == kind_tag,
        proof.line_tag == line_tag,
        proof.n_vars == n_vars,
        proof.n_real == n_real,
        critical_assembled(proof, parts, x),
{
    proof {
        reveal(critical_assembled);
    }
    let coms: Vec<P::Commitment> = parts.coms;
    let mut ranges: Vec<PosRangeLogUp<P>> = parts.ranges;
    let ev: Vec<Fr> = parts.env_values;
    let v: Vec<Fr> = x.run.values;
    let rhos: Vec<Fr> = x.rhos;
    let mut opens: Vec<P::Proof> = x.run.single_openings;
    let b_sigma_rem_range: PosRangeLogUp<P> = ranges.pop().unwrap();
    let dz_sigma_rem_range: PosRangeLogUp<P> = ranges.pop().unwrap();
    let dz_step_1_rem_range: PosRangeLogUp<P> = ranges.pop().unwrap();
    let gated_gap_low_range: PosRangeLogUp<P> = ranges.pop().unwrap();
    let gated_gap_high_range: PosRangeLogUp<P> = ranges.pop().unwrap();
    let slack_pos_low_range: PosRangeLogUp<P> = ranges.pop().unwrap();
    let slack_pos_high_range: PosRangeLogUp<P> = ranges.pop().unwrap();
    let slack_fd2_low_range: PosRangeLogUp<P> = ranges.pop().unwrap();
    let slack_fd2_high_range: PosRangeLogUp<P> = ranges.pop().unwrap();
    let slack_fd1_low_range: PosRangeLogUp<P> = ranges.pop().unwrap();
    let slack_fd1_high_range: PosRangeLogUp<P> = ranges.pop().unwrap();
    let z_range: PosRangeLogUp<P> = ranges.pop().unwrap();
    let preact_u_open_at_r_final: P::Proof = opens.pop().unwrap();
    let preact_l_open_at_r_final: P::Proof = opens.pop().unwrap();
    let proof: SshapeCriticalPointProof<P> = SshapeCriticalPointProof {
        layer_idx,
        kind_tag,
        line_tag,
        n_vars,
        n_real,
        z_commit: P::duplicate(&coms[0]),
        sigma_lo_z_commit: P::duplicate(&coms[1]),
        sigma_up_z_commit: P::duplicate(&coms[2]),
        sigma_lo_zmd_commit: P::duplicate(&coms[3]),
        sigma_up_zmd_commit: P::duplicate(&coms[4]),
        sigma_lo_zpd_commit: P::duplicate(&coms[5]),
        sigma_up_zpd_commit: P::duplicate(&coms[6]),
        slack_fd1_commit: P::duplicate(&coms[7]),
        slack_fd2_commit: P::duplicate(&coms[8]),
        slack_fd1_high_commit: P::duplicate(&coms[9]),
        slack_fd1_low_commit: P::duplicate(&coms[10]),
        slack_fd2_high_commit: P::duplicate(&coms[11]),
        slack_fd2_low_commit: P::duplicate(&coms[12]),
        factor_a_commit: P::duplicate(&coms[13]),
        factor_b_commit: P::duplicate(&coms[14]),
        dz_step_1_commit: P::duplicate(&coms[15]),
        dz_step_1_rem_commit: P::duplicate(&coms[16]),
        dz_sigma_code_commit: P::duplicate(&coms[17]),
        dz_sigma_rem_commit: P::duplicate(&coms[18]),
        b_sigma_code_commit: P::duplicate(&coms[19]),
        b_sigma_rem_commit: P::duplicate(&coms[20]),
        is_active_commit: P::duplicate(&coms[21]),
        inside_commit: P::duplicate(&coms[22]),
        slack_pos_commit: P::duplicate(&coms[23]),
        slack_pos_high_commit: P::duplicate(&coms[24]),
        slack_pos_low_commit: P::duplicate(&coms[25]),
        gated_gap_commit: P::duplicate(&coms[26]),
        gated_gap_high_commit: P::duplicate(&coms[27]),
        gated_gap_low_commit: P::duplicate(&coms[28]),
        z_range,
        slack_fd1_high_range,
        slack_fd1_low_range,
        slack_fd2_high_range,
        slack_fd2_low_range,
        slack_pos_high_range,
        slack_pos_low_range,
        gated_gap_high_range,
        gated_gap_low_range,
        dz_step_1_rem_range,
        dz_sigma_rem_range,
        b_sigma_rem_range,
        envelope_combine_alpha_1: parts.look.alpha_1,
        envelope_combine_alpha_2: parts.look.alpha_2,
        envelope_logup_beta: parts.look.beta,
        envelope_lookup_proof: parts.look.pair.lookup_proof,
        envelope_table_proof: parts.look.pair.table_proof,
        envelope_lookup_top: parts.look.pair.lookup_top,
        envelope_table_top: parts.look.pair.table_top,
        envelope_witness_len: parts.look.witness_len,
        envelope_table_len: parts.look.table_len,
        envelope_mult_commit: parts.look.mult_commit,
        envelope_mult_open: parts.mult_open,
        envelope_mult_n_vars: parts.look.mult_n_vars,
        envelope_z_eval: ev[0],
        envelope_sigma_lo_z_eval: ev[1],
        envelope_sigma_up_z_eval: ev[2],
        envelope_sigma_lo_zmd_eval: ev[3],
        envelope_sigma_up_zmd_eval: ev[4],
        envelope_sigma_lo_zpd_eval: ev[5],
        envelope_sigma_up_zpd_eval: ev[6],
        envelope_witness_batched_open: parts.env_open,
        combined_rho_a: rhos[0],
        combined_rho_b: rhos[1],
        combined_rho_c: rhos[2],
        combined_rho_d: rhos[3],
        combined_rho_e: rhos[4],
        combined_rho_f: rhos[5],
        combined_rho_g: rhos[6],
        combined_rho_h: rhos[7],
        combined_rho_i: rhos[8],
        combined_rho_j: rhos[9],
        combined_rho_k: rhos[10],
        combined_rho_l: rhos[11],
        combined_rho_m: rhos[12],
        combined_rho_n: rhos[13],
        combined_rho_o: rhos[14],
        r_test: x.r_test,
        rounds: x.run.rounds,
        r_final: x.run.point,
        preact_l_eval: x.run.single_values[0],
        preact_u_eval: x.run.single_values[1],
        d_eval: v[0],
        b_eval: v[1],
        z_eval: v[2],
        sigma_lo_z_eval: v[3],
        sigma_up_z_eval: v[4],
        sigma_lo_zmd_eval: v[5],
        sigma_up_zmd_eval: v[6],
        sigma_lo_zpd_eval: v[7],
        sigma_up_zpd_eval: v[8],
        slack_fd1_eval: v[9],
        slack_fd2_eval: v[10],
        factor_a_eval: v[11],
        factor_b_eval: v[12],
        dz_step_1_eval: v[13],
        dz_step_1_rem_eval: v[14],
        dz_sigma_code_eval: v[15],
        dz_sigma_rem_eval: v[16],
        b_sigma_code_eval: v[17],
        b_sigma_rem_eval: v[18],
        slack_fd1_high_eval: v[19],
        slack_fd1_low_eval: v[20],
        slack_fd2_high_eval: v[21],
        slack_fd2_low_eval: v[22],
        inside_eval: v[23],
        slack_pos_eval: v[24],
        slack_pos_high_eval: v[25],
        slack_pos_low_eval: v[26],
        gated_gap_eval: v[27],
        gated_gap_high_eval: v[28],
        gated_gap_low_eval: v[29],
        is_active_eval: v[30],
        batched_open_at_r: x.run.opening,
        preact_l_open_at_r_final,
        preact_u_open_at_r_final,
    };
    assert(cp_coms(proof) =~= coms@);
    assert(cp_ranges(proof) =~= parts.ranges@);
    assert(cp_env_values(proof) =~= vals(ev@));
    assert(cp_values(proof) =~= vals(v@));
    assert(cp_rhos(proof) =~= vals(rhos@));
    proof
}

/// Prove a layer whose rows were computed.
fn prove_prepared_critical<P: MlPcs>(
    layer_idx: usize,
    kind: ActivationKind,
    line: SshapeLineKind,
    y: CriticalPrepared,
    preact_lower_codes: &[i128],
    preact_upper_codes: &[i128],
    z_seeds: &[Option<i128>],
    preact_lower_aux: &CommittedAux<P>,
    preact_lower_commit: &P::Commitment,
    preact_upper_aux: &CommittedAux<P>,
    preact_upper_commit: &P::Commitment,
    d_line_aux: &CommittedAux<P>,
    d_line_commit: &P::Commitment,
    b_line_aux: &CommittedAux<P>,
    b_line_commit: &P::Commitment,
    s_d: Scale,
    s_b: Scale,
    s_w: Scale,
    params: &SnarkParams<P>,
    sponge: &mut Transcript,
    rng: &mut P::Randomness,
    Ghost(t0): Ghost<Seq<u8>>,
) -> (r: Result<SshapeCriticalPointProof<P>, SnarkError>)
    requires
        preact_lower_codes@.len() <= usize::MAX / 2 + 1,
        4 * pow2(vector_vars(preact_lower_codes@.len())) <= usize::MAX,
        z_seeds@.len() >= preact_lower_codes@.len(),
        forall|j: int| 0 <= j < preact_lower_codes@.len() ==> seed_ok(#[trigger] z_seeds@[j]),
        tables_fit(*params),
        params.scales_ok(),
        state_of(*old(sponge)) == cp_t0::<P>(
            layer_idx,
            kind,
            line,
            preact_lower_codes@.len() as usize,
            *preact_lower_commit,
            *preact_upper_commit,
            *d_line_commit,
            *b_line_commit,
            t0,
        ),
        critical_prepared(
            *params,
            y,
            cp_inputs(
                *params,
                kind,
                line,
                layer_idx,
                preact_lower_codes@,
                preact_upper_codes@,
                decoded(vals(d_line_aux.table@)),
                decoded(vals(b_line_aux.table@)),
                z_seeds@,
                s_d,
                s_b,
                s_w,
            ),
            preact_lower_aux.table@.len(),
            preact_upper_aux.table@.len(),
            s_d,
            s_b,
            s_w,
        ),
    ensures
        ({
            let x = cp_inputs(
                *params,
                kind,
                line,
                layer_idx,
                preact_lower_codes@,
                preact_upper_codes@,
                decoded(vals(d_line_aux.table@)),
                decoded(vals(b_line_aux.table@)),
                z_seeds@,
                s_d,
                s_b,
                s_w,
            );
            &&& critical_ready(
                *params,
                x,
                *preact_lower_aux,
                *preact_lower_commit,
                *preact_upper_aux,
                *preact_upper_commit,
                *d_line_aux,
                *d_line_commit,
                *b_line_aux,
                *b_line_commit,
                s_d,
            ) && params.keys_match() ==> r is Ok
            &&& critical_committed(
                params.committer_key,
                *preact_lower_aux,
                *preact_lower_commit,
                *preact_upper_aux,
                *preact_upper_commit,
                *d_line_aux,
                *d_line_commit,
                *b_line_aux,
                *b_line_commit,
                pow2(vector_vars(preact_lower_codes@.len())),
            ) && params.keys_match() ==> (r matches Ok(proof) ==> {
                &&& critical_verdict(
                    *params,
                    proof,
                    layer_idx,
                    kind,
                    line,
                    preact_lower_codes@.len() as usize,
                    *preact_lower_commit,
                    *preact_upper_commit,
                    *d_line_commit,
                    *b_line_commit,
                    s_d,
                    s_b,
                    s_w,
                    t0,
                ) == Ok::<(), SnarkError>(())
                &&& state_of(*final(sponge)) == critical_state(
                    params.verifier_key,
                    proof,
                    kind,
                    line,
                    *preact_lower_commit,
                    *preact_upper_commit,
                    *d_line_commit,
                    *b_line_commit,
                    t0,
                )
            })
            &&& r matches Ok(proof) ==> critical_made(
                *params,
                proof,
                layer_idx,
                kind,
                line,
                preact_lower_codes@.len(),
                cp_cells(x),
            )
        }),
{
    let kind_tag: u8 = match kind {
        ActivationKind::Sigmoid => 0,
        ActivationKind::Tanh => 1,
        ActivationKind::ReLU => 2,
    };
    let n: usize = preact_lower_codes.len();
    let n_vars: usize = y.n_vars;
    let ghost codes = codes_of(y.cols@);
    let ghost np = pow2(n_vars as nat);
    let ghost x = cp_inputs(
            *params,
            kind,
            line,
            layer_idx,
            preact_lower_codes@,
            preact_upper_codes@,
            decoded(vals(d_line_aux.table@)),
            decoded(vals(b_line_aux.table@)),
            z_seeds@,
            s_d,
            s_b,
            s_w,
        );
    let tables: &SigmaTables = params.preprocessed.sigma();
    proof {
        lemma_bits_small(params.gadget_range_bits as nat);
        law_vector_vars(n as nat);
        lemma_pow2_machine(n_vars as nat);
        lemma_scale_codes(*params, s_d, s_b, s_w);
        lemma_table_four(*tables, kind);
        lemma_neurons_in_table(*tables, x, n as nat, np);
        assert(codes[0] == y.cols@[0]@);
        assert(codes == critical_columns(cp_cells(x)));
        assert(cparts_in_table(*params, kind, codes));
        assert(vals(d_line_aux.table@).len() == np && vals(b_line_aux.table@).len() == np);
    }
    let ghost accepted = critical_committed(
        params.committer_key,
        *preact_lower_aux,
        *preact_lower_commit,
        *preact_upper_aux,
        *preact_upper_commit,
        *d_line_aux,
        *d_line_commit,
        *b_line_aux,
        *b_line_commit,
        np,
    ) && params.keys_match();
    let ghost provable = critical_ready(
        *params,
        x,
        *preact_lower_aux,
        *preact_lower_commit,
        *preact_upper_aux,
        *preact_upper_commit,
        *d_line_aux,
        *d_line_commit,
        *b_line_aux,
        *b_line_commit,
        s_d,
    ) && params.keys_match();
    proof {
        if provable {
            lemma_critical_parts_provable(
                *params,
                y,
                x,
                preact_lower_codes@,
                preact_upper_codes@,
                *preact_lower_aux,
                *preact_lower_commit,
                *preact_upper_aux,
                *preact_upper_commit,
                *d_line_aux,
                *d_line_commit,
                *b_line_aux,
                *b_line_commit,
                s_d,
                s_b,
                s_w,
            );
            lemma_critical_honest(
                *params,
                y,
                x,
                preact_lower_codes@,
                preact_upper_codes@,
                *preact_lower_aux,
                *preact_lower_commit,
                *preact_upper_aux,
                *preact_upper_commit,
                *d_line_aux,
                *d_line_commit,
                *b_line_aux,
                *b_line_commit,
                s_d,
                s_b,
                s_w,
            );
        }
    }
    let ghost h = state_of(*sponge);
    let parts: CriticalParts<P> = match prove_critical_parts(
        &y.cols,
        kind,
        n_vars,
        params,
        sponge,
        rng,
    ) {
        Ok(p) => p,
        Err(e) => {
            return Err(e);
        },
    };
    let ghost t6 = state_of(*sponge);
    let rhos: Vec<Fr> = squeeze_each(sponge, 15);
    let exprs: Vec<Expr> = match build_critical_identities(kind, line, s_d, s_b, s_w, params) {
        Some(e) => e,
        None => {
            return Err(SnarkError::ShapeMismatch { what: "sshape3c: ε_crit overflow" });
        },
    };
    let ghost ev = exprs@;
    let run: CriticalRun<P> = match prove_critical_run(
        exprs,
        rhos,
        &parts.coms,
        &parts.auxes,
        preact_lower_codes,
        preact_upper_codes,
        &y.d_codes,
        &y.b_codes,
        preact_lower_aux,
        preact_lower_commit,
        preact_upper_aux,
        preact_upper_commit,
        d_line_aux,
        d_line_commit,
        b_line_aux,
        b_line_commit,
        n_vars,
        params,
        sponge,
        rng,
        Ghost(codes),
        Ghost(t6),
    ) {
        Ok(x) => x,
        Err(e) => {
            return Err(e);
        },
    };
    let ghost parts0 = parts;
    let ghost run0 = run;
    let ghost t10 = state_of(*sponge);
    let proof: SshapeCriticalPointProof<P> = assemble_critical(
        layer_idx,
        kind_tag,
        line.tag(),
        n_vars,
        n,
        parts,
        run,
    );
    proof {
        if accepted {
            lemma_critical_envelope_accepts(*params, kind, proof, parts0, run0, h, t6);
            lemma_critical_sumcheck_accepts(
                params.verifier_key,
                proof,
                ev,
                parts0,
                run0,
                *preact_lower_commit,
                *preact_upper_commit,
                *d_line_commit,
                *b_line_commit,
                t6,
                t10,
            );
        }
        lemma_critical_made(
            *params,
            proof,
            layer_idx,
            kind,
            line,
            n as nat,
            cp_cells(x),
            parts0,
            run0,
        );
    }
    Ok(proof)
}

/// Prove that a line's slope is matched at a critical point of every neuron,
/// and that the line is on the safe side there. The preactivation codes are
/// the interval `[l, u]` of every neuron at scale `s_w`; `z_seeds` are the
/// seeds of the critical-point search.
pub fn prove_sshape_critical_point<P: MlPcs>(
    layer_idx: usize,
    kind: ActivationKind,
    line: SshapeLineKind,
    preact_lower_codes: &[i128],
    preact_upper_codes: &[i128],
    z_seeds: &[Option<i128>],
    preact_lower_aux: &CommittedAux<P>,
    preact_lower_commit: &P::Commitment,
    preact_upper_aux: &CommittedAux<P>,
    preact_upper_commit: &P::Commitment,
    d_line_aux: &CommittedAux<P>,
    d_line_commit: &P::Commitment,
    b_line_aux: &CommittedAux<P>,
    b_line_commit: &P::Commitment,
    s_d: Scale,
    s_b: Scale,
    s_w: Scale,
    params: &SnarkParams<P>,
    sponge: &mut Transcript,
    rng: &mut P::Randomness,
) -> (r: Result<SshapeCriticalPointProof<P>, SnarkError>)
    requires
        preact_lower_codes@.len() <= usize::MAX / 2 + 1,
        4 * pow2(vector_vars(preact_lower_codes@.len())) <= usize::MAX,
        z_seeds@.len() >= preact_lower_codes@.len(),
        forall|j: int| 0 <= j < preact_lower_codes@.len() ==> seed_ok(#[trigger] z_seeds@[j]),
        tables_fit(*params),
        params.scales_ok(),
    ensures
        ({
            let x = cp_inputs(
                *params,
                kind,
                line,
                layer_idx,
                preact_lower_codes@,
                preact_upper_codes@,
                decoded(vals(d_line_aux.table@)),
                decoded(vals(b_line_aux.table@)),
                z_seeds@,
                s_d,
                s_b,
                s_w,
            );
            let (la, ua) = (preact_lower_aux.table@.len(), preact_upper_aux.table@.len());
            let refusal = critical_refusal(*params, x, la, ua, s_d, s_b, s_w);
            let shape_refusal = critical_shape_refusal(
                *params,
                kind,
                preact_lower_codes@.len(),
                preact_upper_codes@.len(),
                d_line_aux.table@.len(),
                b_line_aux.table@.len(),
                s_d,
                s_b,
                s_w,
            );
            &&& refusal matches Some(e) ==> {
                &&& r == Err::<SshapeCriticalPointProof<P>, SnarkError>(e)
                &&& state_of(*final(sponge)) == if shape_refusal is Some {
                    state_of(*old(sponge))
                } else {
                    cp_t0::<P>(
                        layer_idx,
                        kind,
                        line,
                        preact_lower_codes@.len() as usize,
                        *preact_lower_commit,
                        *preact_upper_commit,
                        *d_line_commit,
                        *b_line_commit,
                        state_of(*old(sponge)),
                    )
                }
            }
            &&& refusal is None && critical_ready(
                *params,
                x,
                *preact_lower_aux,
                *preact_lower_commit,
                *preact_upper_aux,
                *preact_upper_commit,
                *d_line_aux,
                *d_line_commit,
                *b_line_aux,
                *b_line_commit,
                s_d,
            ) && params.keys_match() ==> r is Ok
            &&& critical_committed(
                params.committer_key,
                *preact_lower_aux,
                *preact_lower_commit,
                *preact_upper_aux,
                *preact_upper_commit,
                *d_line_aux,
                *d_line_commit,
                *b_line_aux,
                *b_line_commit,
                pow2(vector_vars(preact_lower_codes@.len())),
            ) && params.keys_match() ==> (r matches Ok(proof) ==> {
                &&& critical_verdict(
                    *params,
                    proof,
                    layer_idx,
                    kind,
                    line,
                    preact_lower_codes@.len() as usize,
                    *preact_lower_commit,
                    *preact_upper_commit,
                    *d_line_commit,
                    *b_line_commit,
                    s_d,
                    s_b,
                    s_w,
                    state_of(*old(sponge)),
                ) == Ok::<(), SnarkError>(())
                &&& state_of(*final(sponge)) == critical_state(
                    params.verifier_key,
                    proof,
                    kind,
                    line,
                    *preact_lower_commit,
                    *preact_upper_commit,
                    *d_line_commit,
                    *b_line_commit,
                    state_of(*old(sponge)),
                )
            })
            &&& r matches Ok(proof) ==> critical_made(
                *params,
                proof,
                layer_idx,
                kind,
                line,
                preact_lower_codes@.len(),
                cp_cells(x),
            )
        }),
{
    let ghost t0 = state_of(*sponge);
    proof {
        lemma_bits_small(params.gadget_range_bits as nat);
        assert(vals(d_line_aux.table@).len() == d_line_aux.table@.len());
        assert(vals(b_line_aux.table@).len() == b_line_aux.table@.len());
    }
    let n: usize = preact_lower_codes.len();
    let n_vars: usize = match check_critical_shapes(
        kind,
        n,
        preact_upper_codes.len(),
        d_line_aux.table.len(),
        b_line_aux.table.len(),
        s_d,
        s_b,
        s_w,
        params,
    ) {
        Ok(k) => k,
        Err(e) => {
            return Err(e);
        },
    };
    let kind_tag: u8 = match kind {
        ActivationKind::Sigmoid => 0,
        ActivationKind::Tanh => 1,
        ActivationKind::ReLU => 2,
    };
    absorb_u64(sponge, layer_idx as u64);
    absorb_u8(sponge, kind_tag);
    absorb_u8(sponge, line.tag());
    absorb_u64(sponge, n_vars as u64);
    absorb_u64(sponge, n as u64);
    absorb_commitment::<P>(sponge, d_line_commit);
    absorb_commitment::<P>(sponge, b_line_commit);
    absorb_commitment::<P>(sponge, preact_lower_commit);
    absorb_commitment::<P>(sponge, preact_upper_commit);
    match prepare_critical(
        n_vars,
        layer_idx,
        kind,
        line,
        preact_lower_codes,
        preact_upper_codes,
        z_seeds,
        preact_lower_aux,
        preact_upper_aux,
        d_line_aux,
        b_line_aux,
        s_d,
        s_b,
        s_w,
        params,
    ) {
        Ok(y) => prove_prepared_critical(
            layer_idx,
            kind,
            line,
            y,
            preact_lower_codes,
            preact_upper_codes,
            z_seeds,
            preact_lower_aux,
            preact_lower_commit,
            preact_upper_aux,
            preact_upper_commit,
            d_line_aux,
            d_line_commit,
            b_line_aux,
            b_line_commit,
            s_d,
            s_b,
            s_w,
            params,
            sponge,
            rng,
            Ghost(t0),
        ),
        Err(e) => Err(e),
    }
}

} // verus!
