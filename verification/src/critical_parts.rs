//! The first half of the S-shape critical-point prover: the committed columns,
//! their ranges, and the envelope lookup.

use crate::column_set::{
    abs_coms, codes_of, columns_committed, commit_columns, picked, prove_ranges, ranges_provable,
    ranges_state, ranges_verdict,
};
use crate::columns::{all_below, codes_below, even_vars, lemma_mle_unpadded, lifted_codes};
use crate::critical_rows::{
    build_row_indices, build_row_values, law_mle_of_rows, row_indices, row_values,
};
use crate::critical_witness::lemma_table_four;
use crate::envelope::{
    EnvelopeLookup, env_alpha_1, env_alpha_2, env_beta, env_t3, envelope_value,
    law_envelope_table, open_multiplicities, prove_envelope, row_keys, rows_in_table,
    sigma_tables,
};
use crate::errors::SnarkError;
use crate::field::{Fr, all_in_field, fadd, fsub, in_field, lemma_view_in_field, vals};
use crate::logup::{column_ok, lower, tops_cancel, upper, vals4};
use crate::lookup_pair::{pair_state, pair_verdict};
use crate::mle::{ceil_log2, lemma_ceil_log2_of_pow2, mle, pow2_usize};
use crate::network::ActivationKind;
use crate::params::{SnarkParams, tables_fit};
use crate::pcs::{
    BatchOpenSpec, CommittedAux, MlPcs, aux_of, batch_open_state, batch_open_verdict,
    hyrax_open_batched_at, lemma_pow2_injective, mle_padded, open_accepted, open_state,
};
use crate::pos_range::{PosRangeLogUp, lemma_range_column};
use crate::ring::{group_in_field, lemma_residue_add, lemma_residue_id, lemma_residue_sub};
use crate::sshape_critical_point::{
    cp_checked, cp_checked_list, cp_env_coms, cp_len_tag, cp_rows_key, first_coordinates,
    readable, readable_entry,
};
use crate::sshape_helpers::envelope_tables;
use crate::transcript::state_of;
use ark_crypto_primitives::sponge::merlin::Transcript;
use vstd::arithmetic::power2::{lemma_pow2_unfold, pow2};
use vstd::prelude::*;

verus! {

/// The first column that is out of range, as an error.
#[verifier::opaque]
pub open spec fn cp_range_error(cols: Seq<Seq<i128>>, bound: int) -> Option<SnarkError> {
    if !all_below(cols[16], bound) {
        Some(
            SnarkError::RelaxationSoundnessFinalCheckFailed {
                which: "sshape3c: dz_step_1_rem out of range",
            },
        )
    } else if !all_below(cols[18], bound) {
        Some(
            SnarkError::RelaxationSoundnessFinalCheckFailed {
                which: "sshape3c: dz_sigma_rem out of range",
            },
        )
    } else if !all_below(cols[20], bound) {
        Some(
            SnarkError::RelaxationSoundnessFinalCheckFailed {
                which: "sshape3c: b_sigma_rem out of range",
            },
        )
    } else if !all_below(cols[24], bound) {
        Some(
            SnarkError::RelaxationSoundnessFinalCheckFailed {
                which: "sshape3c: slack_pos_high out of range",
            },
        )
    } else if !all_below(cols[25], bound) {
        Some(
            SnarkError::RelaxationSoundnessFinalCheckFailed {
                which: "sshape3c: slack_pos_low out of range",
            },
        )
    } else if !all_below(cols[27], bound) {
        Some(
            SnarkError::RelaxationSoundnessFinalCheckFailed {
                which: "sshape3c: gated_gap_high out of range",
            },
        )
    } else if !all_below(cols[28], bound) {
        Some(
            SnarkError::RelaxationSoundnessFinalCheckFailed {
                which: "sshape3c: gated_gap_low out of range",
            },
        )
    } else if !all_below(cols[9], bound) {
        Some(
            SnarkError::RelaxationSoundnessFinalCheckFailed {
                which: "sshape3c: slack_fd1_high out of range",
            },
        )
    } else if !all_below(cols[10], bound) {
        Some(
            SnarkError::RelaxationSoundnessFinalCheckFailed {
                which: "sshape3c: slack_fd1_low out of range",
            },
        )
    } else if !all_below(cols[11], bound) {
        Some(
            SnarkError::RelaxationSoundnessFinalCheckFailed {
                which: "sshape3c: slack_fd2_high out of range",
            },
        )
    } else if !all_below(cols[12], bound) {
        Some(
            SnarkError::RelaxationSoundnessFinalCheckFailed {
                which: "sshape3c: slack_fd2_low out of range",
            },
        )
    } else {
        None
    }
}

/// Check the columns that will be range-proved.
pub fn check_critical_ranges(cols: &Vec<Vec<i128>>, bound: i128) -> (r: Result<(), SnarkError>)
    requires
        cols@.len() == 29,
    ensures
        match cp_range_error(codes_of(cols@), bound as int) {
            Some(e) => r == Err::<(), SnarkError>(e),
            None => r is Ok,
        },
{
    proof {
        reveal(cp_range_error);
    }
    if !codes_below(cols[16].as_slice(), bound) {
        return Err(
            SnarkError::RelaxationSoundnessFinalCheckFailed {
                which: "sshape3c: dz_step_1_rem out of range",
            },
        );
    }
    if !codes_below(cols[18].as_slice(), bound) {
        return Err(
            SnarkError::RelaxationSoundnessFinalCheckFailed {
                which: "sshape3c: dz_sigma_rem out of range",
            },
        );
    }
    if !codes_below(cols[20].as_slice(), bound) {
        return Err(
            SnarkError::RelaxationSoundnessFinalCheckFailed {
                which: "sshape3c: b_sigma_rem out of range",
            },
        );
    }
    if !codes_below(cols[24].as_slice(), bound) {
        return Err(
            SnarkError::RelaxationSoundnessFinalCheckFailed {
                which: "sshape3c: slack_pos_high out of range",
            },
        );
    }
    if !codes_below(cols[25].as_slice(), bound) {
        return Err(
            SnarkError::RelaxationSoundnessFinalCheckFailed {
                which: "sshape3c: slack_pos_low out of range",
            },
        );
    }
    if !codes_below(cols[27].as_slice(), bound) {
        return Err(
            SnarkError::RelaxationSoundnessFinalCheckFailed {
                which: "sshape3c: gated_gap_high out of range",
            },
        );
    }
    if !codes_below(cols[28].as_slice(), bound) {
        return Err(
            SnarkError::RelaxationSoundnessFinalCheckFailed {
                which: "sshape3c: gated_gap_low out of range",
            },
        );
    }
    if !codes_below(cols[9].as_slice(), bound) {
        return Err(
            SnarkError::RelaxationSoundnessFinalCheckFailed {
                which: "sshape3c: slack_fd1_high out of range",
            },
        );
    }
    if !codes_below(cols[10].as_slice(), bound) {
        return Err(
            SnarkError::RelaxationSoundnessFinalCheckFailed {
                which: "sshape3c: slack_fd1_low out of range",
            },
        );
    }
    if !codes_below(cols[11].as_slice(), bound) {
        return Err(
            SnarkError::RelaxationSoundnessFinalCheckFailed {
                which: "sshape3c: slack_fd2_high out of range",
            },
        );
    }
    if !codes_below(cols[12].as_slice(), bound) {
        return Err(
            SnarkError::RelaxationSoundnessFinalCheckFailed {
                which: "sshape3c: slack_fd2_low out of range",
            },
        );
    }
    Ok(())
}

// ---- The committed columns, their ranges, and the envelope lookup ----

/// What the prover has before the sumcheck.
pub struct CriticalParts<P: MlPcs> {
    pub coms: Vec<P::Commitment>,
    pub auxes: Vec<CommittedAux<P>>,
    pub ranges: Vec<PosRangeLogUp<P>>,
    pub look: EnvelopeLookup<P>,
    pub mult_open: P::Proof,
    pub env_values: Vec<Fr>,
    pub env_open: P::Proof,
}

/// Whether a verifier accepts the parts.
#[verifier::opaque]
pub open spec fn cparts_ok<P: MlPcs>(
    params: SnarkParams<P>,
    kind: ActivationKind,
    parts: CriticalParts<P>,
    n: nat,
    h: Seq<u8>,
    t6: Seq<u8>,
) -> bool {
    let vk = params.verifier_key;
    let cs = picked(parts.coms@, cp_checked());
    let t1 = abs_coms::<P>(h, parts.coms@);
    let t2 = ranges_state(vk, cs, n, parts.ranges@, t1, 12);
    let tag = cp_len_tag(n);
    let (lower, upper) = envelope_tables(params.preprocessed.spec_sigma(), kind)->Some_0;
    let m = ceil_log2(upper.len());
    let look = parts.look;
    let (a1, a2, beta) = (look.alpha_1@, look.alpha_2@, look.beta@);
    let wl = (4 * pow2(n)) as u64;
    let t3 = env_t3::<P>(tag, look.mult_commit, wl, upper.len() as u64, t2);
    let lp = vals(look.pair.lookup_proof.bottom_point@);
    let tp = vals(look.pair.table_proof.bottom_point@);
    let t4 = pair_state(
        look.pair.lookup_proof,
        look.pair.table_proof,
        look.pair.lookup_top,
        look.pair.table_top,
        t3,
    );
    let t5 = open_state::<P>(
        vk,
        look.mult_commit,
        tp,
        look.pair.table_proof.bottom_num@,
        parts.mult_open,
        look.mult_n_vars as nat,
        t4,
    );
    let ev = vals(parts.env_values@);
    let coms = cp_env_coms::<P>(parts.coms@);
    &&& ranges_verdict(params, cs, n, parts.ranges@, t1, 0) == Ok::<(), SnarkError>(())
    &&& a1 == env_alpha_1(tag, t2)
    &&& a2 == env_alpha_2(tag, t2)
    &&& beta == env_beta::<P>(tag, look.mult_commit, wl, upper.len() as u64, t2)
    &&& look.witness_len == 4 * pow2(n)
    &&& look.table_len == upper.len()
    &&& lp.len() == n + 2
    &&& tp.len() == m
    &&& pair_verdict(
        look.pair.lookup_proof,
        look.pair.table_proof,
        look.pair.lookup_top,
        look.pair.table_top,
        look.pair.lookup_proof.layers@.len(),
        look.pair.table_proof.layers@.len(),
        t3,
    ) == Ok::<(), SnarkError>(())
    &&& tops_cancel(vals4(look.pair.lookup_top), vals4(look.pair.table_top))
    &&& look.pair.table_proof.bottom_denom@ == fsub(
        envelope_value(a1, a2, upper, lower, tp),
        beta,
    )
    &&& open_accepted::<P>(
        vk,
        look.mult_commit,
        tp,
        look.pair.table_proof.bottom_num@,
        parts.mult_open,
        look.mult_n_vars as nat,
        t4,
    )
    &&& batch_open_verdict::<P>(vk, coms, ev, lp.take(n as int), parts.env_open, n, t5) == Ok::<
        bool,
        SnarkError,
    >(true)
    &&& fadd(look.pair.lookup_proof.bottom_denom@, beta) == cp_rows_key(
        a1,
        a2,
        ev,
        upper,
        lower,
        lp[n as int],
        lp[(n + 1) as int],
    )
    &&& t6 == batch_open_state::<P>(vk, coms, ev, lp.take(n as int), parts.env_open, n, t5)
}

/// The upper envelope values of the rows.
pub open spec fn cp_row_uppers(cols: Seq<Seq<i128>>, upper: Seq<int>) -> Seq<int> {
    row_values(
        lifted_codes(cols[2]),
        lifted_codes(cols[4]),
        lifted_codes(cols[6]),
        readable(upper[0]),
    )
}

/// The lower envelope values of the rows.
pub open spec fn cp_row_lowers(cols: Seq<Seq<i128>>, lower: Seq<int>) -> Seq<int> {
    row_values(
        lifted_codes(cols[1]),
        lifted_codes(cols[3]),
        lifted_codes(cols[5]),
        readable(lower[0]),
    )
}

/// Whether the parts can be proved: everything can be committed, the columns
/// are in range, and the envelope rows are the table's.
#[verifier::opaque]
pub open spec fn cparts_provable<P: MlPcs>(
    params: SnarkParams<P>,
    kind: ActivationKind,
    cols: Seq<Seq<i128>>,
    n: nat,
) -> bool {
    let (lower, upper) = envelope_tables(params.preprocessed.spec_sigma(), kind)->Some_0;
    &&& ranges_provable(params, cols, cp_checked(), n)
    &&& P::can_commit(params.committer_key, pow2(n))
    &&& P::can_commit(params.committer_key, pow2(even_vars(ceil_log2(upper.len()))))
    &&& cparts_in_table(params, kind, cols)
}

/// Whether the columns' envelope rows are the table's.
pub open spec fn cparts_in_table<P: MlPcs>(
    params: SnarkParams<P>,
    kind: ActivationKind,
    cols: Seq<Seq<i128>>,
) -> bool {
    let (lower, upper) = envelope_tables(params.preprocessed.spec_sigma(), kind)->Some_0;
    rows_in_table(
        row_indices(cols[0]),
        cp_row_uppers(cols, upper),
        cp_row_lowers(cols, lower),
        upper,
        lower,
    )
}

/// Four times a power of two can be the bottom of a circuit.
proof fn lemma_four_rows(n: nat)
    ensures
        4 * pow2(n) == pow2(n + 2),
        column_ok(4 * pow2(n)),
{
    lemma_pow2_unfold(n + 2);
    lemma_pow2_unfold(n + 1);
    lemma_range_column(n + 2);
}

/// The sum of a difference and what was taken away.
proof fn lemma_add_back(a: int, b: int)
    requires
        in_field(a),
        in_field(b),
    ensures
        fadd(fsub(a, b), b) == a,
{
    lemma_residue_id(a);
    lemma_residue_id(b);
    lemma_residue_sub(a, b);
    lemma_residue_add(a - b, b);
}

/// Commit to the columns, and prove their ranges and the envelope lookup.
pub fn prove_critical_parts<P: MlPcs>(
    cols: &Vec<Vec<i128>>,
    kind: ActivationKind,
    n_vars: usize,
    params: &SnarkParams<P>,
    sponge: &mut Transcript,
    rng: &mut P::Randomness,
) -> (r: Result<CriticalParts<P>, SnarkError>)
    requires
        kind != ActivationKind::ReLU,
        1 <= n_vars < 64,
        4 * pow2(n_vars as nat) <= usize::MAX,
        tables_fit(*params),
        cols@.len() == 29,
        forall|j: int| 0 <= j < 29 ==> (#[trigger] cols@[j])@.len() == pow2(n_vars as nat),
        forall|i: int|
            0 <= i < pow2(n_vars as nat) ==> i128::MIN < #[trigger] cols@[0]@[i] < i128::MAX,
    ensures
        r matches Ok(parts) ==> {
            &&& columns_committed(
                params.committer_key,
                parts.coms@,
                parts.auxes@,
                codes_of(cols@),
            )
            &&& parts.ranges@.len() == 12
            &&& parts.env_values@.len() == 7
            &&& cparts_in_table(*params, kind, codes_of(cols@)) ==> cparts_provable(
                *params,
                kind,
                codes_of(cols@),
                n_vars as nat,
            )
        },
        cparts_provable(*params, kind, codes_of(cols@), n_vars as nat) && params.keys_match() ==> {
            &&& r matches Ok(parts)
            &&& cparts_ok(
                *params,
                kind,
                parts,
                n_vars as nat,
                state_of(*old(sponge)),
                state_of(*final(sponge)),
            )
        },
{
    proof {
        reveal(cparts_ok);
        reveal(cparts_provable);
        lemma_four_rows(n_vars as nat);
    }
    let ghost n = n_vars as nat;
    let ghost codes = codes_of(cols@);
    let ghost provable = cparts_provable(*params, kind, codes, n) && params.keys_match();
    let n_padded: usize = pow2_usize(n_vars);
    assert forall|j: int| 0 <= j < 29 implies #[trigger] codes[j] == cols@[j]@ by {}
    let (coms, auxes): (Vec<P::Commitment>, Vec<CommittedAux<P>>) = match commit_columns::<P>(
        &params.committer_key,
        cols,
        sponge,
        rng,
    ) {
        Ok(x) => x,
        Err(e) => {
            return Err(e);
        },
    };
    let which: Vec<usize> = cp_checked_list();
    let ranges: Vec<PosRangeLogUp<P>> = match prove_ranges(
        cols,
        &coms,
        &auxes,
        &which,
        n_vars,
        params,
        sponge,
        rng,
    ) {
        Ok(x) => x,
        Err(e) => {
            return Err(e);
        },
    };
    let (table_upper, table_lower): (&Vec<Fr>, &Vec<Fr>) = match sigma_tables(
        params.preprocessed.sigma(),
        kind,
    ) {
        Some(t) => t,
        None => {
            return Err(SnarkError::ShapeMismatch { what: "sshape3c called for ReLU layer" });
        },
    };
    let ghost (lower, upper) = envelope_tables(params.preprocessed.spec_sigma(), kind)->Some_0;
    let ghost m = ceil_log2(upper.len());
    proof {
        assert(upper.len() == table_upper@.len());
        let k = choose|k: nat|
            2 <= k < 60 && #[trigger] pow2(k) == table_upper@.len() && pow2(even_vars(k))
                <= usize::MAX;
        lemma_ceil_log2_of_pow2(k);
        lemma_table_four(params.preprocessed.spec_sigma(), kind);
        assert(pow2(m) == table_upper@.len());
        assert(upper[0] == table_upper@[0]@ && lower[0] == table_lower@[0]@);
        assert forall|j: int| 0 <= j < 7 implies {
            &&& vals((#[trigger] auxes@[j]).table@) == lifted_codes(codes[j])
            &&& auxes@[j].table@.len() == pow2(n)
            &&& aux_of(params.committer_key, coms@[j], auxes@[j])
        } by {
            assert(codes[j].len() == pow2(n));
        }
    }
    let pad_up: Fr = readable_entry(table_upper[0]);
    let pad_lo: Fr = readable_entry(table_lower[0]);
    let idx: Vec<i128> = build_row_indices(&cols[0]);
    let up: Vec<Fr> = build_row_values(&auxes[2].table, &auxes[4].table, &auxes[6].table, pad_up);
    let lo: Vec<Fr> = build_row_values(&auxes[1].table, &auxes[3].table, &auxes[5].table, pad_lo);
    let look: EnvelopeLookup<P> = match prove_envelope::<P>(
        (3 * n_padded) as u64,
        &idx,
        &up,
        &lo,
        table_upper,
        table_lower,
        &params.committer_key,
        sponge,
        rng,
    ) {
        Ok(x) => x,
        Err(e) => {
            return Err(e);
        },
    };
    let ghost lp = vals(look.pair.lookup_proof.bottom_point@);
    let ghost tp = vals(look.pair.table_proof.bottom_point@);
    proof {
        lemma_pow2_injective(lp.len(), n + 2);
        lemma_pow2_injective(tp.len(), m);
    }
    let mult_open: P::Proof = match open_multiplicities::<P>(
        &look,
        "sshape3c: envelope mult open mismatch",
        &params.committer_key,
        sponge,
        rng,
    ) {
        Ok(x) => x,
        Err(e) => {
            return Err(e);
        },
    };
    let bp_high: Vec<Fr> = first_coordinates(&look.pair.lookup_proof.bottom_point, n_vars);
    let ghost hp = lp.take(n as int);
    proof {
        broadcast use lemma_view_in_field, group_in_field;

        let (x, y) = (lp[n as int], lp[(n + 1) as int]);
        assert(hp + seq![x, y] =~= lp);
        assert(all_in_field(hp));
        assert forall|j: int| 0 <= j < 7 implies #[trigger] mle_padded(
            lifted_codes(codes[j]),
            hp,
            n,
        ) == mle(lifted_codes(codes[j]), hp) by {
            lemma_mle_unpadded(lifted_codes(codes[j]), hp);
        }
        law_mle_of_rows(
            look.alpha_1@,
            look.alpha_2@,
            codes[0],
            (lifted_codes(codes[2]), lifted_codes(codes[4]), lifted_codes(codes[6])),
            (lifted_codes(codes[1]), lifted_codes(codes[3]), lifted_codes(codes[5])),
            readable(upper[0]),
            readable(lower[0]),
            hp,
            x,
            y,
        );
        law_envelope_table(look.alpha_1@, look.alpha_2@, upper, lower, tp);
    }
    let mut items: Vec<BatchOpenSpec<'_, P>> = Vec::with_capacity(7);
    let mut j: usize = 0;
    while j < 7
        invariant
            j <= 7,
            coms@.len() == 29,
            auxes@.len() == 29,
            items@.len() == j,
            forall|k: int|
                0 <= k < j ==> {
                    &&& (#[trigger] items@[k]).aux == &auxes@[k]
                    &&& items@[k].commitment == &coms@[k]
                    &&& items@[k].commit_n_vars == n_vars
                },
        decreases 7 - j,
    {
        items.push(
            BatchOpenSpec { aux: &auxes[j], commitment: &coms[j], commit_n_vars: n_vars },
        );
        j += 1;
    }
    assert(Seq::new(items@.len(), |i: int| *items@[i].commitment) =~= cp_env_coms::<P>(coms@));
    let (env_values, env_open): (Vec<Fr>, P::Proof) = match hyrax_open_batched_at::<P>(
        &params.committer_key,
        &items,
        bp_high.as_slice(),
        sponge,
        rng,
    ) {
        Ok(x) => x,
        Err(e) => {
            return Err(e);
        },
    };
    proof {
        broadcast use lemma_view_in_field, group_in_field;

        let ev = vals(env_values@);
        if provable {
            assert forall|j: int| 0 <= j < 7 implies #[trigger] ev[j] == mle(
                lifted_codes(codes[j]),
                hp,
            ) by {
                assert(vals(auxes@[j].table@) == lifted_codes(codes[j]));
                assert(mle_padded(lifted_codes(codes[j]), hp, n) == mle(lifted_codes(codes[j]), hp));
            }
            assert(ev[0] == mle(lifted_codes(codes[0]), hp) && ev[1] == mle(
                lifted_codes(codes[1]),
                hp,
            ) && ev[2] == mle(lifted_codes(codes[2]), hp) && ev[3] == mle(
                lifted_codes(codes[3]),
                hp,
            ) && ev[4] == mle(lifted_codes(codes[4]), hp) && ev[5] == mle(
                lifted_codes(codes[5]),
                hp,
            ) && ev[6] == mle(lifted_codes(codes[6]), hp));
            let key = mle(
                row_keys(
                    look.alpha_1@,
                    look.alpha_2@,
                    lifted_codes(row_indices(codes[0])),
                    cp_row_uppers(codes, upper),
                    cp_row_lowers(codes, lower),
                ),
                lp,
            );
            assert(key == cp_rows_key(
                look.alpha_1@,
                look.alpha_2@,
                ev,
                upper,
                lower,
                lp[n as int],
                lp[(n + 1) as int],
            ));
            lemma_add_back(key, look.beta@);
        }
    }
    Ok(CriticalParts { coms, auxes, ranges, look, mult_open, env_values, env_open })
}

} // verus!
