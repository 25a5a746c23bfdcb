//! The prover of the S-shape endpoint gadget.

use crate::column_set::{
    abs_coms, codes_of, columns_committed, commit_columns, picked, prove_ranges, ranges_provable,
    ranges_state, ranges_verdict,
};
use crate::columns::{
    all_below, all_decodable, codes_below, decode_or_zero, decoded, even_vars,
    lemma_decoded_lifts, lemma_mle_unpadded, lemma_pow2_126, lemma_signed_of_residue, lift,
    lift_padded, lifted_codes, mask, mask_table, pow2_i128, zero_padded,
};
use crate::envelope::{
    EnvelopeLookup, env_alpha_1, env_alpha_2, env_beta, env_t3, envelope_value,
    law_envelope_table, law_mle_of_row_keys, open_multiplicities, prove_envelope, row_key,
    rows_in_table, sigma_tables,
};
use crate::errors::SnarkError;
use crate::expr::{
    Expr, MaskedCombination, int_value, lemma_masked_total, masked_value, residues, top_degree,
};
use crate::field::{Fr, all_in_field, fsub, in_field, lemma_view_in_field, residue, vals};
use crate::logup::{lower, tops_cancel, upper, vals4};
use crate::lookup_pair::{pair_state, pair_verdict};
use crate::mle::{
    build_eq_table, ceil_log2, copied, eq_table, lemma_ceil_log2_of_pow2, lemma_pow2_machine, mle,
    pow2_usize,
};
use crate::mle_laws::lemma_eq_weight_in_field;
use crate::network::ActivationKind;
use crate::params::{SigmaTables, SnarkParams, tables_fit};
use crate::pcs::{
    BatchOpenSpec, CommittedAux, MlPcs, absorb_commitment, aux_of, batch_open_state,
    batch_open_verdict, hyrax_open_batched_at, lemma_pow2_injective, open_accepted, open_state,
    open_verdict,
};
use crate::pos_range::{PosRangeLogUp, lemma_range_column, minus_one};
use crate::ring::{group_in_field, lemma_residue_id};
use crate::scale::Scale;
use crate::shapes::{law_vector_vars, native_vector_n_vars, vector_vars};
use crate::sshape_endpoint::{
    SshapeEndpointProof, endpoint_state, endpoint_verdict, ep_checked, ep_coms, ep_env_coms,
    ep_env_values, ep_envelope_verdict, ep_exprs, ep_ranges, ep_rhos, ep_sumcheck_verdict, ep_t2,
    ep_t6, ep_t9, ep_values, lemma_bits_small,
};
use crate::sshape_helpers::{envelope_tables, lemma_floor};
use crate::sshape_identities::{
    endpoint_exprs, endpoint_identities, endpoint_row, law_cell_meets_identities,
    lemma_endpoint_degree,
};
use crate::sshape_witness::{
    ScaleCodes, SplitArithCellWitness, SshapeEndpointKind, SshapeLineKind, abs_index, abs_int,
    compute_witnesses, endpoint_cell, endpoint_cells, endpoint_error, endpoint_scan, endpoint_tag,
    kind_tag, lemma_endpoint_scan_none, line_tag, scale_in, scale_precondition_holds, single_bit,
};
use crate::sumcheck::{
    RoundPoly4, cell_at, samples_of, sc_all_split, sc_claim, sc_point, sc_state, total, vals2,
};
use crate::transcript::{
    absorb_u64, absorb_u8, after_squeeze, challenged_n, challenges, squeeze, squeeze_each,
    squeezed, state_of,
};
use crate::zero_check::{
    OpenedRun, item_coms, item_tables, items_committed, joint_state, prove_opened,
    singles_accepted, singles_state, values_at,
};
use ark_crypto_primitives::sponge::merlin::Transcript;
use vstd::arithmetic::power2::{lemma_pow2_pos, lemma_pow2_strictly_increases, pow2};
use vstd::prelude::*;

verus! {

/// The integer of a cell that stands in a column.
pub open spec fn cell_field(c: SplitArithCellWitness, j: int) -> i128 {
    if j == 0 {
        c.abs_l
    } else if j == 1 {
        c.sign
    } else if j == 2 {
        c.sigma_upper_at_abs
    } else if j == 3 {
        c.sigma_lower_at_abs
    } else if j == 4 {
        c.dx_step_1
    } else if j == 5 {
        c.dx_step_1_rem
    } else if j == 6 {
        c.dx_sigma_code
    } else if j == 7 {
        c.dx_sigma_rem
    } else if j == 8 {
        c.b_sigma_code
    } else if j == 9 {
        c.b_sigma_rem
    } else {
        c.diff
    }
}

/// The columns of cells, in the order in which they are committed.
pub open spec fn ep_columns(cells: Seq<SplitArithCellWitness>) -> Seq<Seq<i128>> {
    Seq::new(11, |j: int| ep_column(cells, j))
}

/// One column of cells.
pub open spec fn ep_column(cells: Seq<SplitArithCellWitness>, j: int) -> Seq<i128> {
    Seq::new(cells.len(), |i: int| cell_field(cells[i], j))
}

/// One column of cells.
fn endpoint_column(cells: &Vec<SplitArithCellWitness>, j: usize) -> (r: Vec<i128>)
    ensures
        r@ == ep_column(cells@, j as int),
{
    let mut out: Vec<i128> = Vec::with_capacity(cells.len());
    let mut i: usize = 0;
    while i < cells.len()
        invariant
            i <= cells@.len(),
            out@.len() == i,
            forall|k: int| 0 <= k < i ==> #[trigger] out@[k] == cell_field(cells@[k], j as int),
        decreases cells@.len() - i,
    {
        let c: &SplitArithCellWitness = &cells[i];
        let v: i128 = if j == 0 {
            c.abs_l
        } else if j == 1 {
            c.sign
        } else if j == 2 {
            c.sigma_upper_at_abs
        } else if j == 3 {
            c.sigma_lower_at_abs
        } else if j == 4 {
            c.dx_step_1
        } else if j == 5 {
            c.dx_step_1_rem
        } else if j == 6 {
            c.dx_sigma_code
        } else if j == 7 {
            c.dx_sigma_rem
        } else if j == 8 {
            c.b_sigma_code
        } else if j == 9 {
            c.b_sigma_rem
        } else {
            c.diff
        };
        out.push(v);
        i += 1;
    }
    assert(out@ =~= ep_column(cells@, j as int));
    out
}

/// The columns of cells.
fn endpoint_columns(cells: &Vec<SplitArithCellWitness>) -> (r: Vec<Vec<i128>>)
    ensures
        codes_of(r@) == ep_columns(cells@),
        r@.len() == 11,
        forall|j: int| 0 <= j < 11 ==> (#[trigger] r@[j])@.len() == cells@.len(),
{
    let mut out: Vec<Vec<i128>> = Vec::with_capacity(11);
    let mut j: usize = 0;
    while j < 11
        invariant
            j <= 11,
            out@.len() == j,
            forall|k: int| 0 <= k < j ==> (#[trigger] out@[k])@ == ep_column(cells@, k),
        decreases 11 - j,
    {
        out.push(endpoint_column(cells, j));
        j += 1;
    }
    assert(codes_of(out@) =~= ep_columns(cells@));
    out
}

/// The first range-checked column that is out of range, as an error.
#[verifier::opaque]
pub open spec fn ep_range_error(cols: Seq<Seq<i128>>, bound: int) -> Option<SnarkError> {
    if !all_below(cols[0], bound) {
        Some(
            SnarkError::RelaxationSoundnessFinalCheckFailed {
                which: "sshape_endpoint: abs_l out of range",
            },
        )
    } else if !all_below(cols[5], bound) {
        Some(
            SnarkError::RelaxationSoundnessFinalCheckFailed {
                which: "sshape_endpoint: dx_step_1_rem out of range",
            },
        )
    } else if !all_below(cols[7], bound) {
        Some(
            SnarkError::RelaxationSoundnessFinalCheckFailed {
                which: "sshape_endpoint: dx_sigma_rem out of range",
            },
        )
    } else if !all_below(cols[9], bound) {
        Some(
            SnarkError::RelaxationSoundnessFinalCheckFailed {
                which: "sshape_endpoint: b_sigma_rem out of range",
            },
        )
    } else if !all_below(cols[10], bound) {
        Some(
            SnarkError::RelaxationSoundnessFinalCheckFailed {
                which: "sshape_endpoint: diff out of range",
            },
        )
    } else {
        None
    }
}

/// Check the columns that will be range-proved.
fn check_column_ranges(cols: &Vec<Vec<i128>>, bound: i128) -> (r: Result<(), SnarkError>)
    requires
        cols@.len() == 11,
    ensures
        match ep_range_error(codes_of(cols@), bound as int) {
            Some(e) => r == Err::<(), SnarkError>(e),
            None => r is Ok,
        },
{
    proof {
        reveal(ep_range_error);
    }
    if !codes_below(cols[0].as_slice(), bound) {
        return Err(
            SnarkError::RelaxationSoundnessFinalCheckFailed {
                which: "sshape_endpoint: abs_l out of range",
            },
        );
    }
    if !codes_below(cols[5].as_slice(), bound) {
        return Err(
            SnarkError::RelaxationSoundnessFinalCheckFailed {
                which: "sshape_endpoint: dx_step_1_rem out of range",
            },
        );
    }
    if !codes_below(cols[7].as_slice(), bound) {
        return Err(
            SnarkError::RelaxationSoundnessFinalCheckFailed {
                which: "sshape_endpoint: dx_sigma_rem out of range",
            },
        );
    }
    if !codes_below(cols[9].as_slice(), bound) {
        return Err(
            SnarkError::RelaxationSoundnessFinalCheckFailed {
                which: "sshape_endpoint: b_sigma_rem out of range",
            },
        );
    }
    if !codes_below(cols[10].as_slice(), bound) {
        return Err(
            SnarkError::RelaxationSoundnessFinalCheckFailed {
                which: "sshape_endpoint: diff out of range",
            },
        );
    }
    Ok(())
}

// ---- The committed columns, their ranges, and the envelope lookup ----

/// What the prover has before the sumcheck.
pub struct EndpointParts<P: MlPcs> {
    pub coms: Vec<P::Commitment>,
    pub auxes: Vec<CommittedAux<P>>,
    pub ranges: Vec<PosRangeLogUp<P>>,
    pub look: EnvelopeLookup<P>,
    pub env_values: Vec<Fr>,
    pub env_open: P::Proof,
    pub mult_open: P::Proof,
}

/// The commitments of the envelope's joint opening.
pub open spec fn parts_env_coms<P: MlPcs>(parts: EndpointParts<P>) -> Seq<P::Commitment> {
    seq![parts.coms@[0], parts.coms@[2], parts.coms@[3]]
}

/// Whether a verifier accepts the parts.
#[verifier::opaque]
pub open spec fn parts_ok<P: MlPcs>(
    params: SnarkParams<P>,
    kind: ActivationKind,
    parts: EndpointParts<P>,
    n: nat,
    h: Seq<u8>,
    t6: Seq<u8>,
) -> bool {
    let vk = params.verifier_key;
    let cs = picked(parts.coms@, ep_checked());
    let t1 = abs_coms::<P>(h, parts.coms@);
    let t2 = ranges_state(vk, cs, n, parts.ranges@, t1, 5);
    let np = pow2(n) as u64;
    let (lower, upper) = envelope_tables(params.preprocessed.spec_sigma(), kind)->Some_0;
    let m = ceil_log2(upper.len());
    let look = parts.look;
    let (a1, a2, beta) = (look.alpha_1@, look.alpha_2@, look.beta@);
    let t3 = env_t3::<P>(np, look.mult_commit, np, upper.len() as u64, t2);
    let lp = vals(look.pair.lookup_proof.bottom_point@);
    let tp = vals(look.pair.table_proof.bottom_point@);
    let t4 = pair_state(
        look.pair.lookup_proof,
        look.pair.table_proof,
        look.pair.lookup_top,
        look.pair.table_top,
        t3,
    );
    let ev = vals(parts.env_values@);
    let t5 = batch_open_state::<P>(vk, parts_env_coms(parts), ev, lp, parts.env_open, n, t4);
    &&& ranges_verdict(params, cs, n, parts.ranges@, t1, 0) == Ok::<(), SnarkError>(())
    &&& a1 == env_alpha_1(np, t2)
    &&& a2 == env_alpha_2(np, t2)
    &&& beta == env_beta::<P>(np, look.mult_commit, np, upper.len() as u64, t2)
    &&& look.witness_len == pow2(n)
    &&& look.table_len == upper.len()
    &&& lp.len() == n
    &&& tp.len() == m
    &&& pair_verdict(
        look.pair.lookup_proof,
        look.pair.table_proof,
        look.pair.lookup_top,
        look.pair.table_top,
        minus_one(n),
        minus_one(m),
        t3,
    ) == Ok::<(), SnarkError>(())
    &&& tops_cancel(vals4(look.pair.lookup_top), vals4(look.pair.table_top))
    &&& batch_open_verdict::<P>(vk, parts_env_coms(parts), ev, lp, parts.env_open, n, t4) == Ok::<
        bool,
        SnarkError,
    >(true)
    &&& look.pair.lookup_proof.bottom_denom@ == fsub(row_key(a1, a2, ev[0], ev[1], ev[2]), beta)
    &&& open_accepted::<P>(
        vk,
        look.mult_commit,
        tp,
        look.pair.table_proof.bottom_num@,
        parts.mult_open,
        look.mult_n_vars as nat,
        t5,
    )
    &&& look.pair.table_proof.bottom_denom@ == fsub(
        envelope_value(a1, a2, upper, lower, tp),
        beta,
    )
    &&& t6 == open_state::<P>(
        vk,
        look.mult_commit,
        tp,
        look.pair.table_proof.bottom_num@,
        parts.mult_open,
        look.mult_n_vars as nat,
        t5,
    )
}

/// Whether the parts can be proved: everything can be committed, the columns
/// are in range, and the envelope rows are the table's.
#[verifier::opaque]
pub open spec fn parts_provable<P: MlPcs>(
    params: SnarkParams<P>,
    kind: ActivationKind,
    cols: Seq<Seq<i128>>,
    n: nat,
) -> bool {
    let (lower, upper) = envelope_tables(params.preprocessed.spec_sigma(), kind)->Some_0;
    &&& ranges_provable(params, cols, ep_checked(), n)
    &&& P::can_commit(params.committer_key, pow2(n))
    &&& P::can_commit(params.committer_key, pow2(even_vars(ceil_log2(upper.len()))))
    &&& parts_in_table(params, kind, cols)
}

/// Whether the columns' envelope rows are the table's.
pub open spec fn parts_in_table<P: MlPcs>(
    params: SnarkParams<P>,
    kind: ActivationKind,
    cols: Seq<Seq<i128>>,
) -> bool {
    let (lower, upper) = envelope_tables(params.preprocessed.spec_sigma(), kind)->Some_0;
    rows_in_table(cols[0], lifted_codes(cols[2]), lifted_codes(cols[3]), upper, lower)
}

/// Commit to the columns, and prove their ranges and the envelope lookup.
fn prove_endpoint_parts<P: MlPcs>(
    cols: &Vec<Vec<i128>>,
    kind: ActivationKind,
    n_vars: usize,
    params: &SnarkParams<P>,
    sponge: &mut Transcript,
    rng: &mut P::Randomness,
) -> (r: Result<EndpointParts<P>, SnarkError>)
    requires
        kind != ActivationKind::ReLU,
        n_vars >= 1,
        pow2(n_vars as nat) <= usize::MAX,
        tables_fit(*params),
        cols@.len() == 11,
        forall|j: int| 0 <= j < 11 ==> (#[trigger] cols@[j])@.len() == pow2(n_vars as nat),
    ensures
        r matches Ok(parts) ==> {
            &&& columns_committed(
                params.committer_key,
                parts.coms@,
                parts.auxes@,
                codes_of(cols@),
            )
            &&& parts.ranges@.len() == 5
            &&& parts.env_values@.len() == 3
            &&& parts_in_table(*params, kind, codes_of(cols@)) ==> parts_provable(
                *params,
                kind,
                codes_of(cols@),
                n_vars as nat,
            )
        },
        parts_provable(*params, kind, codes_of(cols@), n_vars as nat) && params.keys_match() ==> {
            &&& r matches Ok(parts)
            &&& parts_ok(
                *params,
                kind,
                parts,
                n_vars as nat,
                state_of(*old(sponge)),
                state_of(*final(sponge)),
            )
        },
{
    proof {
        reveal(parts_ok);
        reveal(parts_provable);
    }
    let ghost n = n_vars as nat;
    let ghost codes = codes_of(cols@);
    let ghost provable = parts_provable(*params, kind, codes, n) && params.keys_match();
    let n_padded: usize = pow2_usize(n_vars);
    proof {
        lemma_pow2_machine(n);
        lemma_range_column(n);
        assert(codes[0] == cols@[0]@ && codes[2] == cols@[2]@ && codes[3] == cols@[3]@);
    }
    let (coms, auxes): (Vec<P::Commitment>, Vec<CommittedAux<P>>) = match commit_columns::<P>(
        &params.committer_key,
        cols,
        sponge,
        rng,
    ) {
        Ok(x) => x,
        Err(e) => {
            return Err(e);
        },
    };
    let which: Vec<usize> = vec![0, 5, 7, 9, 10];
    assert(which@ =~= ep_checked());
    let ranges: Vec<PosRangeLogUp<P>> = match prove_ranges(
        cols,
        &coms,
        &auxes,
        &which,
        n_vars,
        params,
        sponge,
        rng,
    ) {
        Ok(x) => x,
        Err(e) => {
            return Err(e);
        },
    };
    let (table_upper, table_lower): (&Vec<Fr>, &Vec<Fr>) = match sigma_tables(
        params.preprocessed.sigma(),
        kind,
    ) {
        Some(t) => t,
        None => {
            return Err(
                SnarkError::ShapeMismatch { what: "sshape_endpoint called for ReLU layer" },
            );
        },
    };
    let ghost (lower, upper) = envelope_tables(params.preprocessed.spec_sigma(), kind)->Some_0;
    let ghost m = ceil_log2(upper.len());
    proof {
        assert(upper.len() == table_upper@.len());
        let k = choose|k: nat|
            2 <= k < 60 && #[trigger] pow2(k) == table_upper@.len() && pow2(even_vars(k))
                <= usize::MAX;
        lemma_ceil_log2_of_pow2(k);
        assert(pow2(m) == table_upper@.len());
        assert(vals(auxes@[0].table@) == lifted_codes(codes[0]));
        assert(vals(auxes@[2].table@) == lifted_codes(codes[2]));
        assert(vals(auxes@[3].table@) == lifted_codes(codes[3]));
        assert(auxes@[0].table@.len() == codes[0].len());
        assert(auxes@[2].table@.len() == codes[2].len());
        assert(auxes@[3].table@.len() == codes[3].len());
        assert(aux_of(params.committer_key, coms@[0], auxes@[0]));
        assert(aux_of(params.committer_key, coms@[2], auxes@[2]));
        assert(aux_of(params.committer_key, coms@[3], auxes@[3]));
    }
    let look: EnvelopeLookup<P> = match prove_envelope::<P>(
        n_padded as u64,
        &cols[0],
        &auxes[2].table,
        &auxes[3].table,
        table_upper,
        table_lower,
        &params.committer_key,
        sponge,
        rng,
    ) {
        Ok(x) => x,
        Err(e) => {
            return Err(e);
        },
    };
    let ghost lp = vals(look.pair.lookup_proof.bottom_point@);
    let ghost tp = vals(look.pair.table_proof.bottom_point@);
    proof {
        broadcast use lemma_view_in_field, group_in_field;

        lemma_pow2_injective(lp.len(), n);
        lemma_pow2_injective(tp.len(), m);
        lemma_mle_unpadded(lifted_codes(codes[0]), lp);
        lemma_mle_unpadded(lifted_codes(codes[2]), lp);
        lemma_mle_unpadded(lifted_codes(codes[3]), lp);
        law_mle_of_row_keys(
            look.alpha_1@,
            look.alpha_2@,
            lifted_codes(codes[0]),
            lifted_codes(codes[2]),
            lifted_codes(codes[3]),
            lp,
        );
        law_envelope_table(look.alpha_1@, look.alpha_2@, upper, lower, tp);
    }
    let mut items: Vec<BatchOpenSpec<'_, P>> = Vec::with_capacity(3);
    items.push(
        BatchOpenSpec { aux: &auxes[0], commitment: &coms[0], commit_n_vars: n_vars },
    );
    items.push(
        BatchOpenSpec { aux: &auxes[2], commitment: &coms[2], commit_n_vars: n_vars },
    );
    items.push(
        BatchOpenSpec { aux: &auxes[3], commitment: &coms[3], commit_n_vars: n_vars },
    );
    let ghost env_coms = seq![coms@[0], coms@[2], coms@[3]];
    assert(Seq::new(items@.len(), |i: int| *items@[i].commitment) =~= env_coms);
    let (env_values, env_open): (Vec<Fr>, P::Proof) = match hyrax_open_batched_at::<P>(
        &params.committer_key,
        &items,
        look.pair.lookup_proof.bottom_point.as_slice(),
        sponge,
        rng,
    ) {
        Ok(x) => x,
        Err(e) => {
            return Err(e);
        },
    };
    proof {
        let ev = vals(env_values@);
        assert(ev[0] == mle(lifted_codes(codes[0]), lp));
        assert(ev[1] == mle(lifted_codes(codes[2]), lp));
        assert(ev[2] == mle(lifted_codes(codes[3]), lp));
    }
    let mult_open: P::Proof = match open_multiplicities::<P>(
        &look,
        "sshape_endpoint: envelope mult open mismatch",
        &params.committer_key,
        sponge,
        rng,
    ) {
        Ok(x) => x,
        Err(e) => {
            return Err(e);
        },
    };
    Ok(EndpointParts { coms, auxes, ranges, look, env_values, env_open, mult_open })
}

// ---- The sumcheck ----

/// The columns of the sumcheck: the weights, the mask, the preactivations, the
/// line, and the cells' columns.
pub open spec fn ep_table(
    eq: Seq<int>,
    n: nat,
    np: nat,
    l: Seq<int>,
    d: Seq<int>,
    b: Seq<int>,
    cols: Seq<Seq<i128>>,
) -> Seq<Seq<int>> {
    seq![eq, mask(n, np), l, d, b] + Seq::new(cols.len(), |j: int| lifted_codes(cols[j]))
}

/// Honest cells sum to zero.
proof fn lemma_endpoint_total(
    ident: &MaskedCombination,
    pre: SigmaTables,
    kind: ActivationKind,
    line: SshapeLineKind,
    eq: Seq<int>,
    preact: Seq<i128>,
    d: Seq<i128>,
    b: Seq<i128>,
    s_d: i128,
    s_b: i128,
    s_w: i128,
    s_v: i128,
    s_w_log2: int,
    ratio: i128,
    np: nat,
)
    requires
        kind != ActivationKind::ReLU,
        ident.columns == 14,
        ident.exprs@ == endpoint_exprs(kind, line, s_d, s_b, s_w, s_v, ratio),
        0 <= s_w_log2 <= pre.s_x_log2,
        ratio == pow2((pre.s_x_log2 - s_w_log2) as nat),
        eq.len() == np,
        all_in_field(eq),
        preact.len() <= np,
        d.len() == np,
        b.len() == np,
        endpoint_scan(
            pre,
            kind,
            line,
            preact,
            d,
            b,
            (ScaleCodes {
                s_d: s_d as int,
                s_b: s_b as int,
                s_w: s_w as int,
                s_v: s_v as int,
                s_w_log2,
            }),
            np,
            0,
        ) is None,
    ensures
        total(
            ident,
            ep_table(
                eq,
                preact.len(),
                np,
                zero_padded(lifted_codes(preact), np),
                lifted_codes(d),
                lifted_codes(b),
                ep_columns(
                    endpoint_cells(
                        pre,
                        kind,
                        line,
                        preact,
                        d,
                        b,
                        (ScaleCodes {
                            s_d: s_d as int,
                            s_b: s_b as int,
                            s_w: s_w as int,
                            s_v: s_v as int,
                            s_w_log2,
                        }),
                        np,
                    ),
                ),
            ),
            np,
        ) == 0,
{
    let s = ScaleCodes {
        s_d: s_d as int,
        s_b: s_b as int,
        s_w: s_w as int,
        s_v: s_v as int,
        s_w_log2,
    };
    let n = preact.len();
    let cells = endpoint_cells(pre, kind, line, preact, d, b, s, np);
    let l = zero_padded(lifted_codes(preact), np);
    let cols = ep_table(eq, n, np, l, lifted_codes(d), lifted_codes(b), ep_columns(cells));
    let rows = Seq::new(
        np,
        |i: int|
            endpoint_row(eq[i], preact[i] as int, d[i] as int, b[i] as int, cells[i]),
    );
    lemma_endpoint_scan_none(pre, kind, line, preact, d, b, s, np, 0);
    assert(cols[1] == mask(n, np));
    assert forall|i: int| 0 <= i < np implies cols[1][i] == 0 || {
        &&& forall|k: int|
            0 <= k < ident.exprs@.len() ==> int_value(#[trigger] ident.exprs@[k], rows[i]) == 0
        &&& cell_at(cols, i) == residues(#[trigger] rows[i])
    } by {
        if i < n {
            let c = cells[i];
            let row = rows[i];
            assert(endpoint_cell(
                pre,
                kind,
                line,
                preact[i] as int,
                d[i] as int,
                b[i] as int,
                s,
            ) is Ok);
            assert forall|k: int| 0 <= k < ident.exprs@.len() implies int_value(
                #[trigger] ident.exprs@[k],
                row,
            ) == 0 by {
                law_cell_meets_identities(
                    pre,
                    kind,
                    line,
                    eq[i],
                    preact[i] as int,
                    d[i] as int,
                    b[i] as int,
                    s_d,
                    s_b,
                    s_w,
                    s_v,
                    s_w_log2,
                    ratio,
                    k,
                );
            }
            assert(in_field(eq[i]));
            lemma_residue_id(eq[i]);
            lemma_residue_id(1);
            let x = cell_at(cols, i);
            assert(cols.len() == 16);
            assert(x.len() == 16 && row.len() == 16);
            assert(l[i] == residue(preact[i] as int));
            assert forall|j: int| 0 <= j < 16 implies #[trigger] x[j] == residue(row[j]) by {
                if j >= 5 {
                    assert(cols[j] == lifted_codes(ep_columns(cells)[j - 5]));
                    assert(ep_columns(cells)[j - 5][i] == cell_field(c, j - 5));
                }
            }
            assert(x =~= residues(row));
        }
    }
    lemma_masked_total(ident, cols, rows, np);
}

/// The sumcheck's side of a proof.
struct EndpointRun<P: MlPcs> {
    rhos: Vec<Fr>,
    r_test: Vec<Fr>,
    run: OpenedRun<P, RoundPoly4>,
}

/// What a verifier finds of the sumcheck's side.
#[verifier::opaque]
spec fn endpoint_run_ok<P: MlPcs>(
    vk: P::VerifierKey,
    x: EndpointRun<P>,
    exprs: Seq<Expr>,
    n_real: nat,
    n: nat,
    preact: P::Commitment,
    coms: Seq<P::Commitment>,
    t6: Seq<u8>,
    t9: Seq<u8>,
) -> bool {
    let t7 = after_squeeze(challenged_n(t6, 5), n as int);
    let run = x.run;
    let s = samples_of(run.rounds@);
    let point = vals(run.point@);
    let joint = joint_state(vk, coms, run, n, t7);
    let pv = vals(run.single_values@);
    &&& vals(x.rhos@) == challenges(t6, 5)
    &&& vals(x.r_test@) == squeezed(challenged_n(t6, 5), n as int)
    &&& sc_all_split(true, t7, s, 0, n)
    &&& point == sc_point(true, t7, s)
    &&& batch_open_verdict::<P>(
        vk,
        coms,
        vals(run.values@),
        point,
        run.opening,
        n,
        sc_state(true, t7, s, s.len()),
    ) == Ok::<bool, SnarkError>(true)
    &&& open_verdict::<P>(vk, preact, point, pv[0], run.single_openings@[0], n, joint) == Ok::<
        bool,
        SnarkError,
    >(true)
    &&& t9 == open_state::<P>(vk, preact, point, pv[0], run.single_openings@[0], n, joint)
    &&& masked_value(
        vals(x.rhos@),
        exprs,
        seq![mle(eq_table(vals(x.r_test@)), point), mle(mask(n_real, pow2(n)), point), pv[0]]
            + vals(run.values@),
    ) == sc_claim(true, t7, s, 0, n)
}

/// Whether the sumcheck is owed success: the tables are the committed ones, and
/// the identities vanish on the cells.
#[verifier::opaque]
spec fn ep_run_honest<P: MlPcs>(
    params: SnarkParams<P>,
    exprs: Seq<Expr>,
    preact_codes: Seq<i128>,
    d_codes: Seq<i128>,
    b_codes: Seq<i128>,
    preact_aux: CommittedAux<P>,
    preact: P::Commitment,
    d_aux: CommittedAux<P>,
    d: P::Commitment,
    b_aux: CommittedAux<P>,
    b: P::Commitment,
    np: nat,
    codes: Seq<Seq<i128>>,
) -> bool {
    &&& vals(preact_aux.table@) == zero_padded(lifted_codes(preact_codes), np)
    &&& vals(d_aux.table@) == lifted_codes(d_codes)
    &&& vals(b_aux.table@) == lifted_codes(b_codes)
    &&& aux_of(params.committer_key, preact, preact_aux)
    &&& aux_of(params.committer_key, d, d_aux)
    &&& aux_of(params.committer_key, b, b_aux)
    &&& top_degree(exprs, 6) <= 2
    &&& params.keys_match()
    &&& forall|ident: MaskedCombination, eq: Seq<int>|
        ident.columns == 14 && ident.exprs@ == exprs && eq.len() == np && all_in_field(eq)
            ==> #[trigger] total(
            &ident,
            ep_table(
                eq,
                preact_codes.len(),
                np,
                zero_padded(lifted_codes(preact_codes), np),
                lifted_codes(d_codes),
                lifted_codes(b_codes),
                codes,
            ),
            np,
        ) == 0
}

/// Whether the tables of the preactivations and of the line are the committed
/// ones, and of the padded size.
pub open spec fn endpoint_committed<P: MlPcs>(
    ck: P::CommitterKey,
    preact_aux: CommittedAux<P>,
    preact: P::Commitment,
    d_aux: CommittedAux<P>,
    d: P::Commitment,
    b_aux: CommittedAux<P>,
    b: P::Commitment,
    np: nat,
) -> bool {
    &&& aux_of(ck, preact, preact_aux)
    &&& aux_of(ck, d, d_aux)
    &&& aux_of(ck, b, b_aux)
    &&& preact_aux.table@.len() == np
    &&& d_aux.table@.len() == np
    &&& b_aux.table@.len() == np
}

/// Run the sumcheck over the cells, and open everything at its final point.
fn prove_endpoint_run<P: MlPcs>(
    exprs: Vec<Expr>,
    coms: &Vec<P::Commitment>,
    auxes: &Vec<CommittedAux<P>>,
    preact_codes: &[i128],
    d_codes: &Vec<i128>,
    b_codes: &Vec<i128>,
    preact_aux: &CommittedAux<P>,
    preact_commit: &P::Commitment,
    d_aux: &CommittedAux<P>,
    d_commit: &P::Commitment,
    b_aux: &CommittedAux<P>,
    b_commit: &P::Commitment,
    n_vars: usize,
    params: &SnarkParams<P>,
    sponge: &mut Transcript,
    rng: &mut P::Randomness,
    Ghost(codes): Ghost<Seq<Seq<i128>>>,
) -> (r: Result<EndpointRun<P>, SnarkError>)
    requires
        pow2(n_vars as nat) <= usize::MAX,
        preact_codes@.len() <= pow2(n_vars as nat),
        d_codes@.len() == pow2(n_vars as nat),
        b_codes@.len() == pow2(n_vars as nat),
        codes.len() == 11,
        forall|j: int| 0 <= j < 11 ==> (#[trigger] codes[j]).len() == pow2(n_vars as nat),
        columns_committed(params.committer_key, coms@, auxes@, codes),
        exprs@.len() == 6,
    ensures
        r matches Ok(x) ==> {
            &&& x.rhos@.len() == 5
            &&& x.r_test@.len() == n_vars
            &&& x.run.rounds@.len() == n_vars
            &&& x.run.point@.len() == n_vars
            &&& x.run.values@.len() == 13
            &&& x.run.single_values@.len() == 1
            &&& x.run.single_openings@.len() == 1
        },
        ep_run_honest(
            *params,
            exprs@,
            preact_codes@,
            d_codes@,
            b_codes@,
            *preact_aux,
            *preact_commit,
            *d_aux,
            *d_commit,
            *b_aux,
            *b_commit,
            pow2(n_vars as nat),
            codes,
        ) ==> r is Ok,
        endpoint_committed(
            params.committer_key,
            *preact_aux,
            *preact_commit,
            *d_aux,
            *d_commit,
            *b_aux,
            *b_commit,
            pow2(n_vars as nat),
        ) && params.keys_match() ==> (r matches Ok(x) ==> endpoint_run_ok(
            params.verifier_key,
            x,
            exprs@,
            preact_codes@.len(),
            n_vars as nat,
            *preact_commit,
            seq![*d_commit, *b_commit] + coms@,
            state_of(*old(sponge)),
            state_of(*final(sponge)),
        )),
{
    proof {
        reveal(endpoint_run_ok);
        reveal(ep_run_honest);
    }
    let n_padded: usize = pow2_usize(n_vars);
    let ghost np = pow2(n_vars as nat);
    proof {
        lemma_pow2_machine(n_vars as nat);
    }
    let rhos: Vec<Fr> = squeeze_each(sponge, 5);
    let r_test: Vec<Fr> = squeeze(sponge, n_vars);
    let eq: Vec<Fr> = build_eq_table(r_test.as_slice());
    let ghost eqv = eq_table(vals(r_test@));
    let mask_col: Vec<Fr> = mask_table(preact_codes.len(), n_padded);
    let l_col: Vec<Fr> = lift_padded(preact_codes, n_padded);
    let d_col: Vec<Fr> = lift(d_codes.as_slice());
    let b_col: Vec<Fr> = lift(b_codes.as_slice());
    assert(vals(eq@).len() == eq@.len());
    let mut table: Vec<Vec<Fr>> = vec![eq, mask_col, l_col, d_col, b_col];
    let mut items: Vec<BatchOpenSpec<'_, P>> = Vec::with_capacity(13);
    items.push(BatchOpenSpec { aux: d_aux, commitment: d_commit, commit_n_vars: n_vars });
    items.push(BatchOpenSpec { aux: b_aux, commitment: b_commit, commit_n_vars: n_vars });
    let ghost head = table@;
    let mut j: usize = 0;
    while j < 11
        invariant
            j <= 11,
            np == pow2(n_vars as nat),
            codes.len() == 11,
            forall|k: int| 0 <= k < 11 ==> (#[trigger] codes[k]).len() == np,
            columns_committed(params.committer_key, coms@, auxes@, codes),
            head.len() == 5,
            forall|k: int| 0 <= k < 5 ==> (#[trigger] head[k])@.len() == np,
            table@.len() == 5 + j,
            forall|k: int| 0 <= k < 5 ==> #[trigger] table@[k] == head[k],
            forall|k: int|
                0 <= k < 5 + j ==> (#[trigger] table@[k])@.len() == np,
            forall|k: int|
                5 <= k < 5 + j ==> vals((#[trigger] table@[k])@) == lifted_codes(codes[k - 5]),
            items@.len() == 2 + j,
            items@[0].aux == d_aux && items@[0].commitment == d_commit,
            items@[1].aux == b_aux && items@[1].commitment == b_commit,
            items@[0].commit_n_vars == n_vars && items@[1].commit_n_vars == n_vars,
            forall|k: int|
                2 <= k < 2 + j ==> {
                    &&& (#[trigger] items@[k]).aux == &auxes@[k - 2]
                    &&& items@[k].commitment == &coms@[k - 2]
                    &&& items@[k].commit_n_vars == n_vars
                },
        decreases 11 - j,
    {
        assert(vals(auxes@[j as int].table@) == lifted_codes(codes[j as int]));
        assert(codes[j as int].len() == np);
        let c: Vec<Fr> = copied(auxes[j].table.as_slice());
        assert(vals(c@).len() == c@.len());
        table.push(c);
        items.push(
            BatchOpenSpec { aux: &auxes[j], commitment: &coms[j], commit_n_vars: n_vars },
        );
        j += 1;
    }
    let mut singles: Vec<BatchOpenSpec<'_, P>> = Vec::with_capacity(1);
    singles.push(
        BatchOpenSpec { aux: preact_aux, commitment: preact_commit, commit_n_vars: n_vars },
    );
    let ident: MaskedCombination = MaskedCombination {
        columns: 14,
        exprs,
        rhos: copied(rhos.as_slice()),
    };
    let ghost tv = ep_table(
        eqv,
        preact_codes@.len(),
        np,
        zero_padded(lifted_codes(preact_codes@), np),
        lifted_codes(d_codes@),
        lifted_codes(b_codes@),
        codes,
    );
    let ghost honest = ep_run_honest(
        *params,
        exprs@,
        preact_codes@,
        d_codes@,
        b_codes@,
        *preact_aux,
        *preact_commit,
        *d_aux,
        *d_commit,
        *b_aux,
        *b_commit,
        np,
        codes,
    );
    let ghost committed = endpoint_committed(
        params.committer_key,
        *preact_aux,
        *preact_commit,
        *d_aux,
        *d_commit,
        *b_aux,
        *b_commit,
        np,
    );
    let ghost all_coms = seq![*d_commit, *b_commit] + coms@;
    proof {
        if honest {
            assert(vals(preact_aux.table@).len() == preact_aux.table@.len());
            assert(vals(d_aux.table@).len() == d_aux.table@.len());
            assert(vals(b_aux.table@).len() == b_aux.table@.len());
            assert(committed);
        }
        assert forall|i: int| 0 <= i < eqv.len() implies in_field(#[trigger] eqv[i]) by {
            lemma_eq_weight_in_field(vals(r_test@), i);
        }
        assert(vals2(table@) =~= tv) by {
            assert forall|k: int| 0 <= k < 16 implies #[trigger] vals2(table@)[k] == tv[k] by {
                if k < 5 {
                    assert(table@[k] == head[k]);
                }
            }
        }
        assert(item_coms(items@) =~= all_coms);
        assert(item_coms(singles@) =~= seq![*preact_commit]);
        if committed {
            assert forall|i: int| 0 <= i < items@.len() implies {
                &&& (#[trigger] items@[i]).commit_n_vars == n_vars
                &&& items@[i].aux.table@.len() == np
                &&& aux_of(params.committer_key, *items@[i].commitment, *items@[i].aux)
            } by {
                if i >= 2 {
                    assert(aux_of(params.committer_key, coms@[i - 2], auxes@[i - 2]));
                    assert(auxes@[i - 2].table@.len() == codes[i - 2].len());
                }
            }
            assert(items_committed(params.committer_key, items@, n_vars as nat));
            assert(items_committed(params.committer_key, singles@, n_vars as nat));
        }
        if honest {
            assert(total(&ident, tv, np) == 0);
            assert(item_tables(singles@) =~= seq![tv[2]]);
            assert(item_tables(items@) =~= tv.skip(3)) by {
                assert forall|k: int| 0 <= k < 13 implies #[trigger] item_tables(items@)[k]
                    == tv.skip(3)[k] by {
                    if k >= 2 {
                        assert(vals(auxes@[k - 2].table@) == lifted_codes(codes[k - 2]));
                    }
                }
            }
            assert(tv.skip(2) =~= item_tables(singles@) + item_tables(items@));
        }
        assert(tv.take(2) =~= seq![eqv, mask(preact_codes@.len(), np)]);
    }
    let run: OpenedRun<P, RoundPoly4> = match prove_opened::<P, MaskedCombination, RoundPoly4>(
        &ident,
        table,
        2,
        &singles,
        &items,
        n_vars,
        SnarkError::RelaxationSoundnessFinalCheckFailed {
            which: "sshape_endpoint: sumcheck round invariant",
        },
        SnarkError::RelaxationSoundnessFinalCheckFailed {
            which: "sshape_endpoint: final identity at r' (split-arith)",
        },
        &params.committer_key,
        sponge,
        rng,
    ) {
        Ok(x) => x,
        Err(e) => {
            return Err(e);
        },
    };
    proof {
        if committed && params.keys_match() {
            reveal_with_fuel(singles_state, 2);
            reveal_with_fuel(singles_accepted, 2);
            let point = vals(run.point@);
            let pv = vals(run.single_values@);
            assert(pv.len() == 1);
            let cell = values_at(tv.take(2), point) + pv + vals(run.values@);
            assert(cell =~= seq![
                mle(eqv, point),
                mle(mask(preact_codes@.len(), np), point),
                pv[0],
            ] + vals(run.values@));
        }
    }
    Ok(EndpointRun { rhos, r_test, run })
}

// ---- The prover ----

/// The scale codes for given scales.
pub open spec fn ep_scale_codes<P: MlPcs>(
    params: SnarkParams<P>,
    s_d: Scale,
    s_b: Scale,
    s_w: Scale,
) -> ScaleCodes {
    ScaleCodes {
        s_d: pow2(s_d.e as nat) as int,
        s_b: pow2(s_b.e as nat) as int,
        s_w: pow2(s_w.e as nat) as int,
        s_v: pow2(params.sigma_v_scale_log2 as nat) as int,
        s_w_log2: s_w.e as int,
    }
}

/// The cells of a layer for given scales.
pub open spec fn ep_cells<P: MlPcs>(
    params: SnarkParams<P>,
    kind: ActivationKind,
    line: SshapeLineKind,
    preact: Seq<i128>,
    d: Seq<i128>,
    b: Seq<i128>,
    s_d: Scale,
    s_b: Scale,
    s_w: Scale,
) -> Seq<SplitArithCellWitness> {
    endpoint_cells(
        params.preprocessed.spec_sigma(),
        kind,
        line,
        preact,
        d,
        b,
        ep_scale_codes(params, s_d, s_b, s_w),
        pow2(vector_vars(preact.len())),
    )
}

/// The reason why the prover refuses its inputs before it sends anything, if
/// it does.
pub open spec fn endpoint_refusal<P: MlPcs>(
    params: SnarkParams<P>,
    kind: ActivationKind,
    line: SshapeLineKind,
    preact: Seq<i128>,
    d: Seq<int>,
    b: Seq<int>,
    s_d: Scale,
    s_b: Scale,
    s_w: Scale,
) -> Option<SnarkError> {
    let bits = params.gadget_range_bits as nat;
    let np = pow2(vector_vars(preact.len()));
    let s = ep_scale_codes(params, s_d, s_b, s_w);
    let (dc, bc) = (decoded(d), decoded(b));
    if kind is ReLU {
        Some(SnarkError::ShapeMismatch { what: "sshape_endpoint called for ReLU layer" })
    } else if !(scale_in(s_d, bits as int) && scale_in(s_b, bits as int) && scale_in(
        s_w,
        bits as int,
    )) {
        Some(
            SnarkError::RelaxationSoundnessFinalCheckFailed {
                which: "sshape_endpoint: DENOM ≤ 2^GADGET_RANGE_BITS precondition",
            },
        )
    } else if preact.len() == 0 {
        Some(SnarkError::Reserved { what: "sshape_endpoint: requires n (neuron count) ≥ 1" })
    } else if d.len() != np || b.len() != np {
        Some(
            SnarkError::ShapeMismatch {
                what: "sshape_endpoint: d/b commit n_vars doesn't match preact n_vars",
            },
        )
    } else if params.sigma_x_scale_log2 < s_w.e {
        Some(
            SnarkError::Reserved {
                what: "sshape_endpoint: s_w > s_x not yet supported (would need rounding witness)",
            },
        )
    } else {
        match endpoint_error(
            params.preprocessed.spec_sigma(),
            kind,
            line,
            preact,
            dc,
            bc,
            s,
            np,
        ) {
            Some(e) => Some(e),
            None => ep_range_error(
                ep_columns(ep_cells(params, kind, line, preact, dc, bc, s_d, s_b, s_w)),
                pow2(bits) as int,
            ),
        }
    }
}

/// Whether the prover is owed success: it does not refuse its inputs, and the
/// tables and parameters are as they should be.
pub open spec fn endpoint_provable<P: MlPcs>(
    params: SnarkParams<P>,
    kind: ActivationKind,
    line: SshapeLineKind,
    preact_codes: Seq<i128>,
    preact_aux: CommittedAux<P>,
    preact: P::Commitment,
    d_aux: CommittedAux<P>,
    d: P::Commitment,
    b_aux: CommittedAux<P>,
    b: P::Commitment,
    s_d: Scale,
    s_b: Scale,
    s_w: Scale,
) -> bool {
    &&& endpoint_refusal(
        params,
        kind,
        line,
        preact_codes,
        vals(d_aux.table@),
        vals(b_aux.table@),
        s_d,
        s_b,
        s_w,
    ) is None
    &&& endpoint_ready(params, kind, preact_codes, preact_aux, preact, d_aux, d, b_aux, b)
}

/// Whether the tables are the committed ones and can be read as integers, the
/// envelope tables are at the parameters' scale, and everything can be
/// committed.
pub open spec fn endpoint_ready<P: MlPcs>(
    params: SnarkParams<P>,
    kind: ActivationKind,
    preact_codes: Seq<i128>,
    preact_aux: CommittedAux<P>,
    preact: P::Commitment,
    d_aux: CommittedAux<P>,
    d: P::Commitment,
    b_aux: CommittedAux<P>,
    b: P::Commitment,
) -> bool {
    let ck = params.committer_key;
    let bits = params.gadget_range_bits as nat;
    let sigma = params.preprocessed.spec_sigma();
    let np = pow2(vector_vars(preact_codes.len()));
    let (dv, bv) = (vals(d_aux.table@), vals(b_aux.table@));
    let table_len = envelope_tables(sigma, kind)->Some_0.0.len();
    &&& aux_of(ck, preact, preact_aux)
    &&& aux_of(ck, d, d_aux)
    &&& aux_of(ck, b, b_aux)
    &&& vals(preact_aux.table@) == zero_padded(lifted_codes(preact_codes), np)
    &&& all_decodable(dv)
    &&& all_decodable(bv)
    &&& params.sigma_x_scale_log2 == sigma.s_x_log2
    &&& params.preprocessed.has_pos_table(bits)
    &&& P::can_commit(ck, np)
    &&& P::can_commit(ck, pow2(even_vars(bits)))
    &&& P::can_commit(ck, pow2(even_vars(ceil_log2(table_len))))
}

/// What a proof holds: the header, and commitments to the cells' columns.
#[verifier::opaque]
pub open spec fn endpoint_made<P: MlPcs>(
    params: SnarkParams<P>,
    proof: SshapeEndpointProof<P>,
    layer_idx: usize,
    kind: ActivationKind,
    line: SshapeLineKind,
    endpoint: SshapeEndpointKind,
    n: nat,
    cells: Seq<SplitArithCellWitness>,
) -> bool {
    &&& proof.layer_idx == layer_idx
    &&& proof.kind_tag == kind_tag(kind)
    &&& proof.endpoint_tag == endpoint_tag(endpoint)
    &&& proof.line_tag == line_tag(line)
    &&& proof.n_real == n
    &&& proof.n_vars == vector_vars(n)
    &&& forall|j: int|
        0 <= j < 11 ==> exists|st: P::State| #[trigger]
            P::committed(
                params.committer_key,
                #[trigger] ep_coms(proof)[j],
                st,
                lifted_codes(ep_column(cells, j)),
            )
}

/// The envelope rows of honest cells are the table's.
proof fn lemma_cells_in_table(
    pre: SigmaTables,
    kind: ActivationKind,
    line: SshapeLineKind,
    preact: Seq<i128>,
    d: Seq<i128>,
    b: Seq<i128>,
    s: ScaleCodes,
    np: nat,
)
    requires
        pre.wf(),
        kind != ActivationKind::ReLU,
        endpoint_error(pre, kind, line, preact, d, b, s, np) is None,
    ensures
        ({
            let cells = endpoint_cells(pre, kind, line, preact, d, b, s, np);
            let (lower, upper) = envelope_tables(pre, kind)->Some_0;
            rows_in_table(
                ep_column(cells, 0),
                lifted_codes(ep_column(cells, 2)),
                lifted_codes(ep_column(cells, 3)),
                upper,
                lower,
            )
        }),
{
    reveal(endpoint_error);
    broadcast use lemma_view_in_field;

    let cells = endpoint_cells(pre, kind, line, preact, d, b, s, np);
    let (lower, upper) = envelope_tables(pre, kind)->Some_0;
    let idx = ep_column(cells, 0);
    let up = lifted_codes(ep_column(cells, 2));
    let lo = lifted_codes(ep_column(cells, 3));
    lemma_endpoint_scan_none(pre, kind, line, preact, d, b, s, np, 0);
    lemma_table_nonempty(pre, kind);
    assert forall|i: int| 0 <= i < idx.len() implies {
        &&& 0 <= #[trigger] idx[i] < upper.len()
        &&& up[i] == upper[idx[i] as int]
        &&& lo[i] == lower[idx[i] as int]
    } by {
        if i < preact.len() {
            let c = endpoint_cell(
                pre,
                kind,
                line,
                preact[i] as int,
                d[i] as int,
                b[i] as int,
                s,
            );
            assert(c is Ok);
            assert(cells[i] == c->Ok_0);
            let k = abs_index(
                preact[i] as int,
                Scale { c: 1, e: s.s_w_log2 as i32 },
                pre.s_x_log2 as int,
            )->Some_0;
            lemma_abs_index_nonneg(
                preact[i] as int,
                Scale { c: 1, e: s.s_w_log2 as i32 },
                pre.s_x_log2 as int,
            );
            assert(upper.len() <= usize::MAX);
            assert(idx[i] == k as i128 && 0 <= k < upper.len());
            lemma_signed_of_residue(upper[k]);
            lemma_signed_of_residue(lower[k]);
        } else {
            lemma_signed_of_residue(upper[0]);
            lemma_signed_of_residue(lower[0]);
        }
    }
}

/// Table indices are not negative.
proof fn lemma_abs_index_nonneg(code: int, s_w: Scale, s_x_log2: int)
    ensures
        abs_index(code, s_w, s_x_log2) matches Some(k) ==> k >= 0,
{
    let a = abs_int(code);
    let k = s_x_log2 - s_w.e;
    if k >= 0 {
        lemma_pow2_pos(k as nat);
        assert(a * pow2(k as nat) >= 0) by (nonlinear_arith)
            requires
                a >= 0,
                pow2(k as nat) > 0,
        ;
    } else {
        lemma_pow2_pos((-k) as nat);
        lemma_floor(a, pow2((-k) as nat) as int);
    }
}

/// Envelope tables are not empty, and can be addressed.
proof fn lemma_table_nonempty(pre: SigmaTables, kind: ActivationKind)
    requires
        pre.wf(),
        kind != ActivationKind::ReLU,
    ensures
        ({
            let (lower, upper) = envelope_tables(pre, kind)->Some_0;
            &&& lower.len() == upper.len()
            &&& 1 <= upper.len() <= usize::MAX
        }),
{
    let (lower, upper) = envelope_tables(pre, kind)->Some_0;
    let k = choose|k: nat|
        2 <= k < 60 && #[trigger] pow2(k) == lower.len() && pow2(even_vars(k)) <= usize::MAX;
    lemma_pow2_pos(k);
    if k < even_vars(k) {
        lemma_pow2_strictly_increases(k, even_vars(k));
    }
}

/// Whether a proof is put together from its parts.
#[verifier::opaque]
spec fn assembled<P: MlPcs>(
    proof: SshapeEndpointProof<P>,
    layer_idx: usize,
    kind_tag: u8,
    endpoint_tag: u8,
    line_tag: u8,
    n_vars: usize,
    n_real: usize,
    parts: EndpointParts<P>,
    x: EndpointRun<P>,
) -> bool {
    &&& proof.layer_idx == layer_idx
    &&& proof.kind_tag == kind_tag
    &&& proof.endpoint_tag == endpoint_tag
    &&& proof.line_tag == line_tag
    &&& proof.n_vars == n_vars
    &&& proof.n_real == n_real
    &&& ep_coms(proof) == parts.coms@
    &&& ep_ranges(proof) == parts.ranges@
    &&& ep_env_coms(proof) == parts_env_coms(parts)
    &&& ep_env_values(proof) == vals(parts.env_values@)
    &&& proof.envelope_combine_alpha_1 == parts.look.alpha_1
    &&& proof.envelope_combine_alpha_2 == parts.look.alpha_2
    &&& proof.envelope_logup_beta == parts.look.beta
    &&& proof.envelope_lookup_proof == parts.look.pair.lookup_proof
    &&& proof.envelope_table_proof == parts.look.pair.table_proof
    &&& proof.envelope_lookup_top == parts.look.pair.lookup_top
    &&& proof.envelope_table_top == parts.look.pair.table_top
    &&& proof.envelope_witness_len == parts.look.witness_len
    &&& proof.envelope_table_len == parts.look.table_len
    &&& proof.envelope_mult_commit == parts.look.mult_commit
    &&& proof.envelope_mult_open == parts.mult_open
    &&& proof.envelope_mult_n_vars == parts.look.mult_n_vars
    &&& proof.envelope_witness_batched_open == parts.env_open
    &&& ep_rhos(proof) == vals(x.rhos@)
    &&& proof.r_test == x.r_test
    &&& proof.rounds == x.run.rounds
    &&& proof.r_final == x.run.point
    &&& ep_values(proof) == vals(x.run.values@)
    &&& proof.batched_open_at_r == x.run.opening
    &&& proof.preact_eval_at_r_final@ == vals(x.run.single_values@)[0]
    &&& proof.preact_open_at_r_final == x.run.single_openings@[0]
}

/// A proof put together from accepted parts passes the envelope's checks.
proof fn lemma_envelope_accepts<P: MlPcs>(
    params: SnarkParams<P>,
    kind: ActivationKind,
    proof: SshapeEndpointProof<P>,
    kind_tag: u8,
    endpoint_tag: u8,
    line_tag: u8,
    parts: EndpointParts<P>,
    x: EndpointRun<P>,
    h: Seq<u8>,
    t6: Seq<u8>,
)
    requires
        kind != ActivationKind::ReLU,
        pow2(proof.n_vars as nat) <= usize::MAX,
        assembled(
            proof,
            proof.layer_idx,
            kind_tag,
            endpoint_tag,
            line_tag,
            proof.n_vars,
            proof.n_real,
            parts,
            x,
        ),
        parts.ranges@.len() == 5,
        parts.env_values@.len() == 3,
        parts_ok(params, kind, parts, proof.n_vars as nat, h, t6),
    ensures
        ranges_verdict(
            params,
            picked(ep_coms(proof), ep_checked()),
            proof.n_vars as nat,
            ep_ranges(proof),
            abs_coms::<P>(h, ep_coms(proof)),
            0,
        ) == Ok::<(), SnarkError>(()),
        ep_envelope_verdict(params, proof, kind, ep_t2(params.verifier_key, proof, h)) == Ok::<
            (),
            SnarkError,
        >(()),
        t6 == ep_t6(
            params.verifier_key,
            proof,
            ep_t2(params.verifier_key, proof, h),
        ),
{
    reveal(assembled);
    reveal(parts_ok);
    reveal(ep_envelope_verdict);
    reveal(ep_t6);
    let ev = ep_env_values(proof);
    assert(ev[0] == proof.envelope_abs_l_eval@);
    assert(ev[1] == proof.envelope_sigma_upper_at_abs_eval@);
    assert(ev[2] == proof.envelope_sigma_lower_at_abs_eval@);
}

/// A proof put together from an accepted run passes the sumcheck's checks.
proof fn lemma_sumcheck_accepts<P: MlPcs>(
    vk: P::VerifierKey,
    proof: SshapeEndpointProof<P>,
    exprs: Seq<Expr>,
    kind_tag: u8,
    endpoint_tag: u8,
    line_tag: u8,
    parts: EndpointParts<P>,
    x: EndpointRun<P>,
    preact: P::Commitment,
    d: P::Commitment,
    b: P::Commitment,
    t6: Seq<u8>,
    t9: Seq<u8>,
)
    requires
        assembled(
            proof,
            proof.layer_idx,
            kind_tag,
            endpoint_tag,
            line_tag,
            proof.n_vars,
            proof.n_real,
            parts,
            x,
        ),
        x.run.rounds@.len() == proof.n_vars,
        x.run.point@.len() == proof.n_vars,
        endpoint_run_ok(
            vk,
            x,
            exprs,
            proof.n_real as nat,
            proof.n_vars as nat,
            preact,
            seq![d, b] + parts.coms@,
            t6,
            t9,
        ),
    ensures
        ep_sumcheck_verdict(vk, proof, exprs, proof.n_real as nat, preact, d, b, t6) == Ok::<
            (),
            SnarkError,
        >(()),
        t9 == ep_t9(vk, proof, preact, d, b, t6),
{
    reveal(assembled);
    reveal(endpoint_run_ok);
    reveal(ep_sumcheck_verdict);
    reveal(ep_t9);
    assert(samples_of(proof.rounds@).len() == proof.n_vars);
}

/// Put a proof together.
fn assemble_endpoint<P: MlPcs>(
    layer_idx: usize,
    kind_tag: u8,
    endpoint_tag: u8,
    line_tag: u8,
    n_vars: usize,
    n_real: usize,
    parts: EndpointParts<P>,
    x: EndpointRun<P>,
) -> (proof: SshapeEndpointProof<P>)
    requires
        parts.coms@.len() == 11,
        parts.ranges@.len() == 5,
        parts.env_values@.len() == 3,
        x.rhos@.len() == 5,
        x.run.values@.len() == 13,
        x.run.single_values@.len() == 1,
        x.run.single_openings@.len() == 1,
    ensures
        proof.layer_idx == layer_idx,
        proof.kind_tag == kind_tag,
        proof.endpoint_tag == endpoint_tag,
        proof.line_tag == line_tag,
        proof.n_vars == n_vars,
        proof.n_real == n_real,
        assembled(proof, layer_idx, kind_tag, endpoint_tag, line_tag, n_vars, n_real, parts, x),
{
    proof {
        reveal(assembled);
    }
    let coms: Vec<P::Commitment> = parts.coms;
    let mut ranges: Vec<PosRangeLogUp<P>> = parts.ranges;
    let ev: Vec<Fr> = parts.env_values;
    let v: Vec<Fr> = x.run.values;
    let rhos: Vec<Fr> = x.rhos;
    let mut opens: Vec<P::Proof> = x.run.single_openings;
    let diff_range: PosRangeLogUp<P> = ranges.pop().unwrap();
    let b_sigma_rem_range: PosRangeLogUp<P> = ranges.pop().unwrap();
    let dx_sigma_rem_range: PosRangeLogUp<P> = ranges.pop().unwrap();
    let dx_step_1_rem_range: PosRangeLogUp<P> = ranges.pop().unwrap();
    let abs_l_range: PosRangeLogUp<P> = ranges.pop().unwrap();
    let preact_open_at_r_final: P::Proof = opens.pop().unwrap();
    let proof: SshapeEndpointProof<P> = SshapeEndpointProof {
        layer_idx,
        kind_tag,
        endpoint_tag,
        line_tag,
        n_vars,
        n_real,
        abs_l_commit: P::duplicate(&coms[0]),
        sign_commit: P::duplicate(&coms[1]),
        sigma_upper_at_abs_commit: P::duplicate(&coms[2]),
        sigma_lower_at_abs_commit: P::duplicate(&coms[3]),
        dx_step_1_commit: P::duplicate(&coms[4]),
        dx_step_1_rem_commit: P::duplicate(&coms[5]),
        dx_sigma_code_commit: P::duplicate(&coms[6]),
        dx_sigma_rem_commit: P::duplicate(&coms[7]),
        b_sigma_code_commit: P::duplicate(&coms[8]),
        b_sigma_rem_commit: P::duplicate(&coms[9]),
        diff_commit: P::duplicate(&coms[10]),
        abs_l_range,
        dx_step_1_rem_range,
        dx_sigma_rem_range,
        b_sigma_rem_range,
        diff_range,
        envelope_combine_alpha_1: parts.look.alpha_1,
        envelope_combine_alpha_2: parts.look.alpha_2,
        envelope_logup_beta: parts.look.beta,
        envelope_lookup_proof: parts.look.pair.lookup_proof,
        envelope_table_proof: parts.look.pair.table_proof,
        envelope_lookup_top: parts.look.pair.lookup_top,
        envelope_table_top: parts.look.pair.table_top,
        envelope_witness_len: parts.look.witness_len,
        envelope_table_len: parts.look.table_len,
        envelope_mult_commit: parts.look.mult_commit,
        envelope_mult_open: parts.mult_open,
        envelope_mult_n_vars: parts.look.mult_n_vars,
        envelope_abs_l_eval: ev[0],
        envelope_sigma_upper_at_abs_eval: ev[1],
        envelope_sigma_lower_at_abs_eval: ev[2],
        envelope_witness_batched_open: parts.env_open,
        combined_rho_a: rhos[0],
        combined_rho_b: rhos[1],
        combined_rho_c: rhos[2],
        combined_rho_d: rhos[3],
        combined_rho_e: rhos[4],
        r_test: x.r_test,
        rounds: x.run.rounds,
        r_final: x.run.point,
        d_line_eval: v[0],
        b_line_eval: v[1],
        abs_l_eval: v[2],
        sign_eval: v[3],
        sigma_upper_at_abs_eval: v[4],
        sigma_lower_at_abs_eval: v[5],
        dx_step_1_eval: v[6],
        dx_step_1_rem_eval: v[7],
        dx_sigma_code_eval: v[8],
        dx_sigma_rem_eval: v[9],
        b_sigma_code_eval: v[10],
        b_sigma_rem_eval: v[11],
        diff_eval: v[12],
        batched_open_at_r: x.run.opening,
        preact_eval_at_r_final: x.run.single_values[0],
        preact_open_at_r_final,
    };
    assert(ep_coms(proof) =~= coms@);
    assert(ep_ranges(proof) =~= parts.ranges@);
    assert(ep_env_coms(proof) =~= parts_env_coms(parts));
    assert(ep_env_values(proof) =~= vals(ev@));
    assert(ep_values(proof) =~= vals(v@));
    assert(ep_rhos(proof) =~= vals(rhos@));
    proof
}

/// The columns that a proof is made from.
struct EndpointInputs {
    n_vars: usize,
    d_codes: Vec<i128>,
    b_codes: Vec<i128>,
    cols: Vec<Vec<i128>>,
}

/// Whether the inputs were checked and the cells computed.
spec fn prepared<P: MlPcs>(
    params: SnarkParams<P>,
    kind: ActivationKind,
    line: SshapeLineKind,
    x: EndpointInputs,
    preact: Seq<i128>,
    d: Seq<int>,
    b: Seq<int>,
    s_d: Scale,
    s_b: Scale,
    s_w: Scale,
) -> bool {
    let bits = params.gadget_range_bits as nat;
    let np = pow2(vector_vars(preact.len()));
    let cells = ep_cells(params, kind, line, preact, x.d_codes@, x.b_codes@, s_d, s_b, s_w);
    &&& !(kind is ReLU)
    &&& scale_in(s_d, bits as int)
    &&& scale_in(s_b, bits as int)
    &&& scale_in(s_w, bits as int)
    &&& preact.len() >= 1
    &&& d.len() == np
    &&& b.len() == np
    &&& s_w.e <= params.sigma_x_scale_log2
    &&& x.n_vars == vector_vars(preact.len())
    &&& x.d_codes@ == decoded(d)
    &&& x.b_codes@ == decoded(b)
    &&& endpoint_error(
        params.preprocessed.spec_sigma(),
        kind,
        line,
        preact,
        x.d_codes@,
        x.b_codes@,
        ep_scale_codes(params, s_d, s_b, s_w),
        np,
    ) is None
    &&& codes_of(x.cols@) == ep_columns(cells)
    &&& ep_range_error(ep_columns(cells), pow2(bits) as int) is None
    &&& x.cols@.len() == 11
    &&& forall|j: int| 0 <= j < 11 ==> (#[trigger] x.cols@[j])@.len() == np
}

/// Check the inputs, and compute the cells.
fn prepare_endpoint<P: MlPcs>(
    kind: ActivationKind,
    line: SshapeLineKind,
    preact_codes: &[i128],
    d_line_aux: &CommittedAux<P>,
    b_line_aux: &CommittedAux<P>,
    s_d: Scale,
    s_b: Scale,
    s_w: Scale,
    params: &SnarkParams<P>,
) -> (r: Result<EndpointInputs, SnarkError>)
    requires
        preact_codes@.len() <= usize::MAX / 2 + 1,
        pow2(vector_vars(preact_codes@.len())) <= usize::MAX,
        tables_fit(*params),
        params.scales_ok(),
    ensures
        match endpoint_refusal(
            *params,
            kind,
            line,
            preact_codes@,
            vals(d_line_aux.table@),
            vals(b_line_aux.table@),
            s_d,
            s_b,
            s_w,
        ) {
            Some(e) => r == Err::<EndpointInputs, SnarkError>(e),
            None => {
                &&& r matches Ok(x)
                &&& prepared(
                    *params,
                    kind,
                    line,
                    x,
                    preact_codes@,
                    vals(d_line_aux.table@),
                    vals(b_line_aux.table@),
                    s_d,
                    s_b,
                    s_w,
                )
            },
        },
{
    match kind {
        ActivationKind::ReLU => {
            return Err(
                SnarkError::ShapeMismatch { what: "sshape_endpoint called for ReLU layer" },
            );
        },
        _ => {},
    }
    proof {
        lemma_bits_small(params.gadget_range_bits as nat);
    }
    if !scale_precondition_holds(s_d, s_b, s_w, params.gadget_range_bits) {
        return Err(
            SnarkError::RelaxationSoundnessFinalCheckFailed {
                which: "sshape_endpoint: DENOM ≤ 2^GADGET_RANGE_BITS precondition",
            },
        );
    }
    let n: usize = preact_codes.len();
    if n == 0 {
        return Err(
            SnarkError::Reserved { what: "sshape_endpoint: requires n (neuron count) ≥ 1" },
        );
    }
    let n_vars: usize = native_vector_n_vars(n);
    let n_padded: usize = pow2_usize(n_vars);
    proof {
        law_vector_vars(n as nat);
    }
    if d_line_aux.table.len() != n_padded || b_line_aux.table.len() != n_padded {
        return Err(
            SnarkError::ShapeMismatch {
                what: "sshape_endpoint: d/b commit n_vars doesn't match preact n_vars",
            },
        );
    }
    if params.sigma_x_scale_log2 < s_w.e {
        return Err(
            SnarkError::Reserved {
                what: "sshape_endpoint: s_w > s_x not yet supported (would need rounding witness)",
            },
        );
    }
    let s_d_code: i128 = pow2_i128(s_d.e as usize);
    let s_b_code: i128 = pow2_i128(s_b.e as usize);
    let s_w_code: i128 = pow2_i128(s_w.e as usize);
    let s_v_code: i128 = pow2_i128(params.sigma_v_scale_log2 as usize);
    let d_codes: Vec<i128> = decode_or_zero(&d_line_aux.table);
    let b_codes: Vec<i128> = decode_or_zero(&b_line_aux.table);
    let ghost np = pow2(n_vars as nat);
    let ghost (dv, bv) = (vals(d_line_aux.table@), vals(b_line_aux.table@));
    proof {
        lemma_pow2_pos(s_w.e as nat);
        lemma_pow2_pos(params.sigma_v_scale_log2 as nat);
        lemma_pow2_126();
        if params.sigma_v_scale_log2 < 126 {
            lemma_pow2_strictly_increases(params.sigma_v_scale_log2 as nat, 126);
        }
        assert(dv.len() == np && bv.len() == np);
    }
    assert(single_bit(s_w_code as int, s_w.e as nat));
    let cells: Vec<SplitArithCellWitness> = match compute_witnesses(
        params.preprocessed.sigma(),
        kind,
        line,
        preact_codes,
        d_codes.as_slice(),
        b_codes.as_slice(),
        s_d_code,
        s_b_code,
        s_w_code,
        s_v_code,
        n_padded,
    ) {
        Ok(c) => c,
        Err(e) => {
            return Err(e);
        },
    };
    let cols: Vec<Vec<i128>> = endpoint_columns(&cells);
    let bound: i128 = pow2_i128(params.gadget_range_bits);
    match check_column_ranges(&cols, bound) {
        Ok(_) => {},
        Err(e) => {
            return Err(e);
        },
    }
    Ok(EndpointInputs { n_vars, d_codes, b_codes, cols })
}

/// Checked inputs make parts that can be proved.
proof fn lemma_parts_provable<P: MlPcs>(
    params: SnarkParams<P>,
    kind: ActivationKind,
    line: SshapeLineKind,
    x: EndpointInputs,
    preact_codes: Seq<i128>,
    preact_aux: CommittedAux<P>,
    preact: P::Commitment,
    d_aux: CommittedAux<P>,
    d: P::Commitment,
    b_aux: CommittedAux<P>,
    b: P::Commitment,
    s_d: Scale,
    s_b: Scale,
    s_w: Scale,
)
    requires
        params.preprocessed.spec_sigma().wf(),
        prepared(
            params,
            kind,
            line,
            x,
            preact_codes,
            vals(d_aux.table@),
            vals(b_aux.table@),
            s_d,
            s_b,
            s_w,
        ),
        endpoint_ready(params, kind, preact_codes, preact_aux, preact, d_aux, d, b_aux, b),
    ensures
        parts_provable(params, kind, codes_of(x.cols@), x.n_vars as nat),
{
    reveal(ep_range_error);
    reveal(parts_provable);
    let codes = codes_of(x.cols@);
    law_vector_vars(preact_codes.len());
    lemma_table_nonempty(params.preprocessed.spec_sigma(), kind);
    lemma_prepared_in_table(
        params,
        kind,
        line,
        x,
        preact_codes,
        vals(d_aux.table@),
        vals(b_aux.table@),
        s_d,
        s_b,
        s_w,
    );
    assert forall|i: int| 0 <= i < ep_checked().len() implies all_below(
        #[trigger] codes[ep_checked()[i] as int],
        pow2(params.gadget_range_bits as nat) as int,
    ) by {}
}

/// The envelope rows of checked inputs are the table's.
proof fn lemma_prepared_in_table<P: MlPcs>(
    params: SnarkParams<P>,
    kind: ActivationKind,
    line: SshapeLineKind,
    x: EndpointInputs,
    preact_codes: Seq<i128>,
    d: Seq<int>,
    b: Seq<int>,
    s_d: Scale,
    s_b: Scale,
    s_w: Scale,
)
    requires
        params.preprocessed.spec_sigma().wf(),
        prepared(params, kind, line, x, preact_codes, d, b, s_d, s_b, s_w),
    ensures
        parts_in_table(params, kind, codes_of(x.cols@)),
{
    let sigma = params.preprocessed.spec_sigma();
    let s = ep_scale_codes(params, s_d, s_b, s_w);
    let np = pow2(x.n_vars as nat);
    let cells = ep_cells(params, kind, line, preact_codes, x.d_codes@, x.b_codes@, s_d, s_b, s_w);
    let codes = codes_of(x.cols@);
    lemma_cells_in_table(sigma, kind, line, preact_codes, x.d_codes@, x.b_codes@, s, np);
    assert(codes[0] == ep_column(cells, 0));
    assert(codes[2] == ep_column(cells, 2));
    assert(codes[3] == ep_column(cells, 3));
}

/// Checked inputs make an honest sumcheck.
proof fn lemma_run_honest<P: MlPcs>(
    params: SnarkParams<P>,
    kind: ActivationKind,
    line: SshapeLineKind,
    x: EndpointInputs,
    preact_codes: Seq<i128>,
    preact_aux: CommittedAux<P>,
    preact: P::Commitment,
    d_aux: CommittedAux<P>,
    d: P::Commitment,
    b_aux: CommittedAux<P>,
    b: P::Commitment,
    s_d: Scale,
    s_b: Scale,
    s_w: Scale,
)
    requires
        params.gadget_range_bits < 64,
        params.scales_ok(),
        prepared(
            params,
            kind,
            line,
            x,
            preact_codes,
            vals(d_aux.table@),
            vals(b_aux.table@),
            s_d,
            s_b,
            s_w,
        ),
        endpoint_ready(params, kind, preact_codes, preact_aux, preact, d_aux, d, b_aux, b),
        params.keys_match(),
    ensures
        ep_run_honest(
            params,
            ep_exprs(params, kind, line, s_d, s_b, s_w),
            preact_codes,
            x.d_codes@,
            x.b_codes@,
            preact_aux,
            preact,
            d_aux,
            d,
            b_aux,
            b,
            pow2(x.n_vars as nat),
            codes_of(x.cols@),
        ),
{
    reveal(endpoint_error);
    reveal(ep_run_honest);
    broadcast use lemma_view_in_field;

    let sigma = params.preprocessed.spec_sigma();
    let np = pow2(x.n_vars as nat);
    let exprs = ep_exprs(params, kind, line, s_d, s_b, s_w);
    let codes = codes_of(x.cols@);
    law_vector_vars(preact_codes.len());
    lemma_pow2_i128(s_d.e as nat);
    lemma_pow2_i128(s_b.e as nat);
    lemma_pow2_i128(s_w.e as nat);
    lemma_pow2_i128(params.sigma_v_scale_log2 as nat);
    lemma_pow2_i128((params.sigma_x_scale_log2 - s_w.e) as nat);
    let s_d_code = pow2(s_d.e as nat) as i128;
    let s_b_code = pow2(s_b.e as nat) as i128;
    let s_w_code = pow2(s_w.e as nat) as i128;
    let s_v_code = pow2(params.sigma_v_scale_log2 as nat) as i128;
    let ratio = pow2((params.sigma_x_scale_log2 - s_w.e) as nat) as i128;
    lemma_endpoint_degree(kind, line, s_d_code, s_b_code, s_w_code, s_v_code, ratio);
    lemma_decoded_lifts(vals(d_aux.table@));
    lemma_decoded_lifts(vals(b_aux.table@));
    assert forall|ident: MaskedCombination, eq: Seq<int>|
        ident.columns == 14 && ident.exprs@ == exprs && eq.len() == np && all_in_field(
            eq,
        ) implies #[trigger] total(
        &ident,
        ep_table(
            eq,
            preact_codes.len(),
            np,
            zero_padded(lifted_codes(preact_codes), np),
            lifted_codes(x.d_codes@),
            lifted_codes(x.b_codes@),
            codes,
        ),
        np,
    ) == 0 by {
        lemma_endpoint_total(
            &ident,
            sigma,
            kind,
            line,
            eq,
            preact_codes,
            x.d_codes@,
            x.b_codes@,
            s_d_code,
            s_b_code,
            s_w_code,
            s_v_code,
            s_w.e as int,
            ratio,
            np,
        );
    }
}

/// Small powers of two are `i128` values.
proof fn lemma_pow2_i128(k: nat)
    requires
        k <= 126,
    ensures
        (pow2(k) as i128) as int == pow2(k),
{
    lemma_pow2_126();
    if k < 126 {
        lemma_pow2_strictly_increases(k, 126);
    }
}

/// A proof that was put together holds commitments to the cells' columns.
proof fn lemma_endpoint_made<P: MlPcs>(
    params: SnarkParams<P>,
    proof: SshapeEndpointProof<P>,
    layer_idx: usize,
    kind: ActivationKind,
    line: SshapeLineKind,
    endpoint: SshapeEndpointKind,
    n: usize,
    cells: Seq<SplitArithCellWitness>,
    parts: EndpointParts<P>,
    x: EndpointRun<P>,
)
    requires
        vector_vars(n as nat) <= usize::MAX,
        assembled(
            proof,
            layer_idx,
            kind_tag(kind),
            endpoint_tag(endpoint),
            line_tag(line),
            vector_vars(n as nat) as usize,
            n,
            parts,
            x,
        ),
        columns_committed(params.committer_key, parts.coms@, parts.auxes@, ep_columns(cells)),
    ensures
        endpoint_made(params, proof, layer_idx, kind, line, endpoint, n as nat, cells),
{
    reveal(assembled);
    reveal(endpoint_made);
    assert forall|j: int| 0 <= j < 11 implies exists|st: P::State| #[trigger]
        P::committed(
            params.committer_key,
            #[trigger] ep_coms(proof)[j],
            st,
            lifted_codes(ep_column(cells, j)),
        ) by {
        assert(ep_columns(cells)[j] == ep_column(cells, j));
        assert(vals(parts.auxes@[j].table@) == lifted_codes(ep_columns(cells)[j]));
        assert(aux_of(params.committer_key, parts.coms@[j], parts.auxes@[j]));
    }
}

/// Prove a layer whose cells were computed.
fn prove_prepared_endpoint<P: MlPcs>(
    layer_idx: usize,
    kind: ActivationKind,
    line: SshapeLineKind,
    endpoint: SshapeEndpointKind,
    x: EndpointInputs,
    preact_codes: &[i128],
    preact_aux: &CommittedAux<P>,
    preact_commit: &P::Commitment,
    d_line_aux: &CommittedAux<P>,
    d_line_commit: &P::Commitment,
    b_line_aux: &CommittedAux<P>,
    b_line_commit: &P::Commitment,
    s_d: Scale,
    s_b: Scale,
    s_w: Scale,
    params: &SnarkParams<P>,
    sponge: &mut Transcript,
    rng: &mut P::Randomness,
) -> (r: Result<SshapeEndpointProof<P>, SnarkError>)
    requires
        preact_codes@.len() <= usize::MAX / 2 + 1,
        pow2(vector_vars(preact_codes@.len())) <= usize::MAX,
        tables_fit(*params),
        params.scales_ok(),
        prepared(
            *params,
            kind,
            line,
            x,
            preact_codes@,
            vals(d_line_aux.table@),
            vals(b_line_aux.table@),
            s_d,
            s_b,
            s_w,
        ),
    ensures
        endpoint_ready(
            *params,
            kind,
            preact_codes@,
            *preact_aux,
            *preact_commit,
            *d_line_aux,
            *d_line_commit,
            *b_line_aux,
            *b_line_commit,
        ) && params.keys_match() ==> r is Ok,
        endpoint_committed(
            params.committer_key,
            *preact_aux,
            *preact_commit,
            *d_line_aux,
            *d_line_commit,
            *b_line_aux,
            *b_line_commit,
            pow2(vector_vars(preact_codes@.len())),
        ) && params.keys_match() ==> (r matches Ok(proof) ==> {
            &&& endpoint_verdict(
                *params,
                proof,
                layer_idx,
                kind,
                line,
                endpoint,
                preact_codes@.len() as usize,
                *preact_commit,
                *d_line_commit,
                *b_line_commit,
                s_d,
                s_b,
                s_w,
                state_of(*old(sponge)),
            ) == Ok::<(), SnarkError>(())
            &&& state_of(*final(sponge)) == endpoint_state(
                params.verifier_key,
                proof,
                kind,
                line,
                endpoint,
                *preact_commit,
                *d_line_commit,
                *b_line_commit,
                state_of(*old(sponge)),
            )
        }),
        r matches Ok(proof) ==> endpoint_made(
            *params,
            proof,
            layer_idx,
            kind,
            line,
            endpoint,
            preact_codes@.len(),
            ep_cells(
                *params,
                kind,
                line,
                preact_codes@,
                decoded(vals(d_line_aux.table@)),
                decoded(vals(b_line_aux.table@)),
                s_d,
                s_b,
                s_w,
            ),
        ),
{
    let kind_tag: u8 = match kind {
        ActivationKind::Sigmoid => 0,
        ActivationKind::Tanh => 1,
        ActivationKind::ReLU => 2,
    };
    let n: usize = preact_codes.len();
    let n_vars: usize = x.n_vars;
    let ghost codes = codes_of(x.cols@);
    let ghost np = pow2(n_vars as nat);
    let ghost (dv, bv) = (vals(d_line_aux.table@), vals(b_line_aux.table@));
    let ghost cells = ep_cells(
        *params,
        kind,
        line,
        preact_codes@,
        x.d_codes@,
        x.b_codes@,
        s_d,
        s_b,
        s_w,
    );
    proof {
        lemma_bits_small(params.gadget_range_bits as nat);
        law_vector_vars(n as nat);
        assert(dv.len() == np && bv.len() == np);
        assert(n == preact_codes@.len());
    }
    let s_d_code: i128 = pow2_i128(s_d.e as usize);
    let s_b_code: i128 = pow2_i128(s_b.e as usize);
    let s_w_code: i128 = pow2_i128(s_w.e as usize);
    let s_v_code: i128 = pow2_i128(params.sigma_v_scale_log2 as usize);
    let ratio: i128 = pow2_i128((params.sigma_x_scale_log2 - s_w.e) as usize);
    let tables: &SigmaTables = params.preprocessed.sigma();
    let ghost accepted = endpoint_committed(
        params.committer_key,
        *preact_aux,
        *preact_commit,
        *d_line_aux,
        *d_line_commit,
        *b_line_aux,
        *b_line_commit,
        np,
    ) && params.keys_match();
    let ghost provable = endpoint_ready(
        *params,
        kind,
        preact_codes@,
        *preact_aux,
        *preact_commit,
        *d_line_aux,
        *d_line_commit,
        *b_line_aux,
        *b_line_commit,
    ) && params.keys_match();
    proof {
        if provable {
            lemma_parts_provable(
                *params,
                kind,
                line,
                x,
                preact_codes@,
                *preact_aux,
                *preact_commit,
                *d_line_aux,
                *d_line_commit,
                *b_line_aux,
                *b_line_commit,
                s_d,
                s_b,
                s_w,
            );
            lemma_run_honest(
                *params,
                kind,
                line,
                x,
                preact_codes@,
                *preact_aux,
                *preact_commit,
                *d_line_aux,
                *d_line_commit,
                *b_line_aux,
                *b_line_commit,
                s_d,
                s_b,
                s_w,
            );
        }
    }
    absorb_u64(sponge, layer_idx as u64);
    absorb_u8(sponge, kind_tag);
    absorb_u8(sponge, endpoint.tag());
    absorb_u8(sponge, line.tag());
    absorb_u64(sponge, n_vars as u64);
    absorb_u64(sponge, n as u64);
    absorb_commitment::<P>(sponge, d_line_commit);
    absorb_commitment::<P>(sponge, b_line_commit);
    absorb_commitment::<P>(sponge, preact_commit);
    let ghost h = state_of(*sponge);
    let parts: EndpointParts<P> = match prove_endpoint_parts(
        &x.cols,
        kind,
        n_vars,
        params,
        sponge,
        rng,
    ) {
        Ok(p) => p,
        Err(e) => {
            return Err(e);
        },
    };
    let ghost t6 = state_of(*sponge);
    proof {
        lemma_prepared_in_table(
            *params,
            kind,
            line,
            x,
            preact_codes@,
            dv,
            bv,
            s_d,
            s_b,
            s_w,
        );
    }
    let exprs: Vec<Expr> = endpoint_identities(
        kind,
        line,
        s_d_code,
        s_b_code,
        s_w_code,
        s_v_code,
        ratio,
    );
    let ghost ev = exprs@;
    let y: EndpointRun<P> = match prove_endpoint_run(
        exprs,
        &parts.coms,
        &parts.auxes,
        preact_codes,
        &x.d_codes,
        &x.b_codes,
        preact_aux,
        preact_commit,
        d_line_aux,
        d_line_commit,
        b_line_aux,
        b_line_commit,
        n_vars,
        params,
        sponge,
        rng,
        Ghost(codes),
    ) {
        Ok(x) => x,
        Err(e) => {
            return Err(e);
        },
    };
    let ghost parts0 = parts;
    let ghost x0 = y;
    let ghost t9 = state_of(*sponge);
    let proof: SshapeEndpointProof<P> = assemble_endpoint(
        layer_idx,
        kind_tag,
        endpoint.tag(),
        line.tag(),
        n_vars,
        n,
        parts,
        y,
    );
    proof {
        if accepted {
            lemma_envelope_accepts(
                *params,
                kind,
                proof,
                kind_tag,
                endpoint_tag(endpoint),
                line_tag(line),
                parts0,
                x0,
                h,
                t6,
            );
            lemma_sumcheck_accepts(
                params.verifier_key,
                proof,
                ev,
                kind_tag,
                endpoint_tag(endpoint),
                line_tag(line),
                parts0,
                x0,
                *preact_commit,
                *d_line_commit,
                *b_line_commit,
                t6,
                t9,
            );
            assert(ev == ep_exprs(*params, kind, line, s_d, s_b, s_w));
        }
        lemma_endpoint_made(
            *params,
            proof,
            layer_idx,
            kind,
            line,
            endpoint,
            n,
            cells,
            parts0,
            x0,
        );
    }
    Ok(proof)
}

/// Prove that a line bounds the function at an endpoint of every neuron.
/// `preact_codes` are the endpoint's preactivations at scale `s_w`, committed
/// in `preact_commit`.
pub fn prove_sshape_at_endpoint<P: MlPcs>(
    layer_idx: usize,
    kind: ActivationKind,
    line: SshapeLineKind,
    endpoint: SshapeEndpointKind,
    preact_codes: &[i128],
    preact_aux: &CommittedAux<P>,
    preact_commit: &P::Commitment,
    d_line_aux: &CommittedAux<P>,
    d_line_commit: &P::Commitment,
    b_line_aux: &CommittedAux<P>,
    b_line_commit: &P::Commitment,
    s_d: Scale,
    s_b: Scale,
    s_w: Scale,
    params: &SnarkParams<P>,
    sponge: &mut Transcript,
    rng: &mut P::Randomness,
) -> (r: Result<SshapeEndpointProof<P>, SnarkError>)
    requires
        preact_codes@.len() <= usize::MAX / 2 + 1,
        pow2(vector_vars(preact_codes@.len())) <= usize::MAX,
        tables_fit(*params),
        params.scales_ok(),
    ensures
        endpoint_refusal(
            *params,
            kind,
            line,
            preact_codes@,
            vals(d_line_aux.table@),
            vals(b_line_aux.table@),
            s_d,
            s_b,
            s_w,
        ) matches Some(e) ==> r == Err::<SshapeEndpointProof<P>, SnarkError>(e) && state_of(
            *final(sponge),
        ) == state_of(*old(sponge)),
        endpoint_provable(
            *params,
            kind,
            line,
            preact_codes@,
            *preact_aux,
            *preact_commit,
            *d_line_aux,
            *d_line_commit,
            *b_line_aux,
            *b_line_commit,
            s_d,
            s_b,
            s_w,
        ) && params.keys_match() ==> r is Ok,
        endpoint_committed(
            params.committer_key,
            *preact_aux,
            *preact_commit,
            *d_line_aux,
            *d_line_commit,
            *b_line_aux,
            *b_line_commit,
            pow2(vector_vars(preact_codes@.len())),
        ) && params.keys_match() ==> (r matches Ok(proof) ==> {
            &&& endpoint_verdict(
                *params,
                proof,
                layer_idx,
                kind,
                line,
                endpoint,
                preact_codes@.len() as usize,
                *preact_commit,
                *d_line_commit,
                *b_line_commit,
                s_d,
                s_b,
                s_w,
                state_of(*old(sponge)),
            ) == Ok::<(), SnarkError>(())
            &&& state_of(*final(sponge)) == endpoint_state(
                params.verifier_key,
                proof,
                kind,
                line,
                endpoint,
                *preact_commit,
                *d_line_commit,
                *b_line_commit,
                state_of(*old(sponge)),
            )
        }),
        r matches Ok(proof) ==> endpoint_made(
            *params,
            proof,
            layer_idx,
            kind,
            line,
            endpoint,
            preact_codes@.len(),
            ep_cells(
                *params,
                kind,
                line,
                preact_codes@,
                decoded(vals(d_line_aux.table@)),
                decoded(vals(b_line_aux.table@)),
                s_d,
                s_b,
                s_w,
            ),
        ),
{
    match prepare_endpoint(
        kind,
        line,
        preact_codes,
        d_line_aux,
        b_line_aux,
        s_d,
        s_b,
        s_w,
        params,
    ) {
        Ok(x) => prove_prepared_endpoint(
            layer_idx,
            kind,
            line,
            endpoint,
            x,
            preact_codes,
            preact_aux,
            preact_commit,
            d_line_aux,
            d_line_commit,
            b_line_aux,
            b_line_commit,
            s_d,
            s_b,
            s_w,
            params,
            sponge,
            rng,
        ),
        Err(e) => Err(e),
    }
}

} // verus!
