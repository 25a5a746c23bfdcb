//! What the commitments to a certificate and to its passes are of.

use crate::cert::QuantCert;
use crate::column_set::abs_coms;
use crate::columns::even_vars;
use crate::commit::{
    PassCommitments, PassProverStates, ProverPolyStates, RelaxationCommitments, TensorCommitments,
    matrix_committed, present, public_surface, relaxation_coms, vector_committed,
};
use crate::commit_all::{LayerCommits, cert_committed, layer_committed};
use crate::commit_pass::{ChainLink, chain_a_at, chain_b_at, chain_links, pass_committed};
use crate::errors::SnarkError;
use crate::field::{residue, signed_of, vals};
use crate::hidden_pass_prover::{BoundCodes, bound_codes_of};
use crate::layer_scale_api::{
    LayerScalesCommit, ScaleClass, scale_at, scales_in_range, scales_sized,
};
use crate::logup::{lower, upper};
use crate::mle::{ceil_log2, lemma_ceil_log2};
use crate::pcs::{CommittedAux, MlPcs};
use crate::public_binding::{BindingSizes, PublicCodes, public_tables};
use crate::qarray::{
    CodeMatrix, QArray1, code_differences, committed_table, matrix_rows, matrix_width,
    vector_codes, vector_table,
};
use crate::ring::lemma_residue_id;
use crate::scale::Scale;
use crate::shapes::law_vector_vars;
use crate::sshape_witness::abs_int;
use crate::trace::BackwardTrace;
use crate::transcript::absorbed;
use vstd::arithmetic::power2::{lemma_pow2_adds, pow2};
use vstd::prelude::*;

verus! {

// ---- Tables ----

/// A vector is committed as its own codes, one entry to a code, with zeros
/// behind them up to the next power of two with an even exponent of at least
/// two.
pub proof fn law_vector_table(codes: Seq<i128>, i: int)
    ensures
        vector_table(codes).len() == pow2(even_vars(ceil_log2(codes.len()))),
        0 <= i < codes.len() ==> vector_table(codes)[i] == residue(codes[i] as int),
        codes.len() <= i < vector_table(codes).len() ==> vector_table(codes)[i] == 0,
{
    law_vector_vars(codes.len());
}

/// A matrix is committed row by row, every row padded with zeros to a power of
/// two and the whole to the next power of two with an even exponent of at least
/// two.
pub proof fn law_matrix_table(m: CodeMatrix, i: int, j: int)
    requires
        0 <= i,
        0 <= j < pow2(ceil_log2(matrix_width(m))),
    ensures
        committed_table(m).len() == pow2(
            even_vars(ceil_log2(matrix_rows(m).len()) + ceil_log2(matrix_width(m))),
        ),
        ({
            let k = i * pow2(ceil_log2(matrix_width(m))) + j;
            k < committed_table(m).len() ==> committed_table(m)[k] == (if i < matrix_rows(m).len()
                && j < matrix_width(m) {
                residue(matrix_rows(m)[i][j] as int)
            } else {
                0
            })
        }),
{
    let d = pow2(ceil_log2(matrix_width(m))) as int;
    vstd::arithmetic::div_mod::lemma_fundamental_div_mod_converse(i * d + j, d, i, j);
    assert(i * d + j >= 0) by (nonlinear_arith)
        requires
            i >= 0,
            d > 0,
            j >= 0,
    ;
}

/// The tables of a public statement: the property's matrix row by row, and its
/// offsets and the box's corners code by code, each with zeros behind.
pub proof fn law_public_tables(codes: PublicCodes, z: BindingSizes, i: int, j: int)
    requires
        0 <= i,
        0 <= j,
    ensures
        ({
            let t = public_tables(codes, z);
            &&& t.spec_c.len() == pow2(z.spec_c as nat)
            &&& t.spec_d.len() == pow2(z.spec_d as nat)
            &&& t.x_lower.len() == pow2(z.x as nat)
            &&& t.x_upper.len() == pow2(z.x as nat)
            &&& i < t.spec_d.len() ==> t.spec_d[i] == code_or_zero(
                vector_codes(codes.spec_d.codes),
                i,
            )
            &&& i < t.x_lower.len() ==> t.x_lower[i] == code_or_zero(
                vector_codes(codes.x_lower.codes),
                i,
            )
            &&& i < t.x_upper.len() ==> t.x_upper[i] == code_or_zero(
                vector_codes(codes.x_upper.codes),
                i,
            )
        }),
        ({
            let t = public_tables(codes, z);
            let rows = matrix_rows(codes.spec_c.codes);
            let width = matrix_width(codes.spec_c.codes);
            let k = i * pow2(ceil_log2(width)) + j;
            j < pow2(ceil_log2(width)) && k < t.spec_c.len() ==> t.spec_c[k] == (if i < rows.len()
                && j < width {
                residue(rows[i][j] as int)
            } else {
                0
            })
        }),
{
    lemma_ceil_log2(vector_codes(codes.spec_d.codes).len());
    lemma_ceil_log2(vector_codes(codes.x_lower.codes).len());
    lemma_ceil_log2(vector_codes(codes.x_upper.codes).len());
    let m = codes.spec_c.codes;
    let (rows, width) = (matrix_rows(m), matrix_width(m));
    let (h, w) = (ceil_log2(rows.len()), ceil_log2(width));
    let d = pow2(w) as int;
    lemma_ceil_log2(rows.len());
    lemma_residue_id(0);
    lemma_pow2_adds(h, w);
    if j < d {
        vstd::arithmetic::div_mod::lemma_fundamental_div_mod_converse(i * d + j, d, i, j);
        assert(i * d + j >= 0) by (nonlinear_arith)
            requires
                i >= 0,
                d > 0,
                j >= 0,
        ;
        assert(i < rows.len() ==> i * d + j < pow2(h) * pow2(w)) by (nonlinear_arith)
            requires
                rows.len() <= pow2(h),
                d == pow2(w),
                j < d,
                i >= 0,
                d > 0,
        ;
    }
}

/// A code's residue, or zero behind the last code.
pub open spec fn code_or_zero(codes: Seq<i128>, i: int) -> int {
    if i < codes.len() {
        residue(codes[i] as int)
    } else {
        0
    }
}

// ---- The transcript of a certificate ----

/// The commitments that are there, in order, are those of the options that hold
/// one.
pub proof fn law_present<C>(coms: Seq<Option<C>>)
    ensures
        present(coms) == coms.filter(|c: Option<C>| c is Some).map_values(
            |c: Option<C>| c->Some_0,
        ),
    decreases coms.len(),
{
    reveal(Seq::filter);
    let there = |c: Option<C>| c is Some;
    let inner = |c: Option<C>| c->Some_0;
    if coms.len() > 0 {
        law_present(coms.drop_last());
        let rest = coms.drop_last().filter(there);
        if coms.last() is Some {
            assert(rest.push(coms.last()).map_values(inner) =~= rest.map_values(inner).push(
                coms.last()->Some_0,
            ));
        }
    } else {
        assert(present(coms) =~= coms.filter(there).map_values(inner));
    }
}

/// The relaxations that are there are bound four commitments to a layer: lower
/// slopes, upper slopes, lower offsets, upper offsets.
pub proof fn law_relaxations_bound<P: MlPcs>(
    rels: Seq<Option<RelaxationCommitments<P>>>,
    k: int,
)
    ensures
        ({
            let there = present(rels);
            let coms = relaxation_coms(rels);
            &&& coms.len() == 4 * there.len()
            &&& 0 <= k < there.len() ==> {
                &&& coms[4 * k] == there[k].d_lower
                &&& coms[4 * k + 1] == there[k].d_upper
                &&& coms[4 * k + 2] == there[k].b_lower
                &&& coms[4 * k + 3] == there[k].b_upper
            }
        }),
    decreases rels.len(),
{
    if rels.len() > 0 {
        law_relaxations_bound(rels.drop_last(), k);
    }
}

/// A transcript is bound to a certificate by absorbing, one after the other,
/// the weights, the biases and the relaxations that are there, the box's
/// corners, the property's matrix and offsets, and the targets that are there.
pub proof fn law_certificate_transcript<P: MlPcs>(t0: Seq<u8>, c: TensorCommitments<P>)
    ensures
        ({
            let front = present(c.weight@) + present(c.bias@) + relaxation_coms(c.relaxation@);
            let t1 = abs_coms::<P>(t0, front);
            let t2 = absorbed(
                absorbed(
                    absorbed(absorbed(t1, P::bytes(c.x_lower)), P::bytes(c.x_upper)),
                    P::bytes(c.spec_c),
                ),
                P::bytes(c.spec_d),
            );
            let t3 = match c.target_lower {
                Some(x) => absorbed(t2, P::bytes(x)),
                None => t2,
            };
            let t4 = match c.target_upper {
                Some(x) => absorbed(t3, P::bytes(x)),
                None => t3,
            };
            abs_coms::<P>(t0, public_surface(c)) == t4
        }),
{
    let front = present(c.weight@) + present(c.bias@) + relaxation_coms(c.relaxation@);
    let fixed = seq![c.x_lower, c.x_upper, c.spec_c, c.spec_d];
    let (l, u) = (c.target_lower, c.target_upper);
    assert(seq![l, u].drop_last() =~= seq![l]);
    assert(seq![l].drop_last() =~= Seq::<Option<P::Commitment>>::empty());
    reveal_with_fuel(present, 3);
    let s1 = front.push(c.x_lower);
    let s2 = s1.push(c.x_upper);
    let s3 = s2.push(c.spec_c);
    let s4 = s3.push(c.spec_d);
    assert(front + fixed =~= s4);
    let targets = present(seq![l, u]);
    let s5 = match l {
        Some(x) => s4.push(x),
        None => s4,
    };
    let s6 = match u {
        Some(x) => s5.push(x),
        None => s5,
    };
    assert(public_surface(c) =~= s6);
    law_commitments_absorbed_in_order::<P>(t0, front, c.x_lower);
    law_commitments_absorbed_in_order::<P>(t0, s1, c.x_upper);
    law_commitments_absorbed_in_order::<P>(t0, s2, c.spec_c);
    law_commitments_absorbed_in_order::<P>(t0, s3, c.spec_d);
    if let Some(x) = l {
        law_commitments_absorbed_in_order::<P>(t0, s4, x);
    }
    if let Some(x) = u {
        law_commitments_absorbed_in_order::<P>(t0, s5, x);
    }
}

/// Commitments are absorbed one after the other, in order.
pub proof fn law_commitments_absorbed_in_order<P: MlPcs>(
    t0: Seq<u8>,
    coms: Seq<P::Commitment>,
    last: P::Commitment,
)
    ensures
        abs_coms::<P>(t0, Seq::empty()) == t0,
        abs_coms::<P>(t0, coms.push(last)) == absorbed(
            abs_coms::<P>(t0, coms),
            P::bytes(last),
        ),
{
    assert(coms.push(last).drop_last() =~= coms);
}

// ---- The chains of a pass ----

/// What a chain holds at an index is said by the first step that speaks of it:
/// the step of the layer before the index says what it started from, the step
/// of the layer at the index what it made. Where no step speaks of an index,
/// there is nothing.
pub proof fn law_chain_entries(links: Seq<ChainLink>, idx: int, k: int)
    ensures
        (forall|i: int|
            0 <= i < links.len() ==> (#[trigger] links[i]).layer_idx + 1 != idx
                && links[i].layer_idx != idx) ==> chain_a_at(links, idx) is None && chain_b_at(
            links,
            idx,
        ) is None,
        0 <= k < links.len() && (forall|i: int|
            0 <= i < k ==> (#[trigger] links[i]).layer_idx + 1 != idx && links[i].layer_idx != idx)
            ==> {
            &&& links[k].layer_idx + 1 == idx ==> chain_a_at(links, idx) == Some(*links[k].a_old)
                && chain_b_at(links, idx) == Some(*links[k].b_acc_old)
            &&& links[k].layer_idx == idx ==> chain_a_at(links, idx) == Some(*links[k].a_new)
                && chain_b_at(links, idx) == Some(*links[k].b_acc_new)
        },
    decreases links.len(),
{
    if links.len() > 0 {
        let rest = links.drop_last();
        law_chain_entries(rest, idx, k);
        if forall|i: int|
            0 <= i < links.len() ==> (#[trigger] links[i]).layer_idx + 1 != idx
                && links[i].layer_idx != idx {
            assert forall|i: int| 0 <= i < rest.len() implies (#[trigger] rest[i]).layer_idx + 1
                != idx && rest[i].layer_idx != idx by {
                assert(rest[i] == links[i]);
            }
            assert(links[links.len() - 1].layer_idx != idx);
        }
        if 0 <= k < links.len() && (forall|i: int|
            0 <= i < k ==> (#[trigger] links[i]).layer_idx + 1 != idx && links[i].layer_idx
                != idx) {
            assert forall|i: int| 0 <= i < k implies (#[trigger] rest[i]).layer_idx + 1 != idx
                && rest[i].layer_idx != idx by {
                assert(rest[i] == links[i]);
            }
            if k < rest.len() {
                assert(rest[k] == links[k]);
            }
        }
    }
}

/// The links of a pass are what its linear steps say, then what its activation
/// steps say: the layer, and the coefficients and biases before and behind it.
pub proof fn law_chain_links(trace: BackwardTrace, i: int)
    ensures
        ({
            let links = chain_links(&trace);
            let n = trace.linear_steps@.len();
            &&& links.len() == n + trace.activation_steps@.len()
            &&& 0 <= i < n ==> {
                let s = trace.linear_steps@[i];
                &&& links[i].layer_idx == s.layer_idx
                &&& *links[i].a_old == s.a_old && *links[i].a_new == s.a_new
                &&& *links[i].b_acc_old == s.b_acc_old && *links[i].b_acc_new == s.b_acc_new
            }
            &&& n <= i < links.len() ==> {
                let s = trace.activation_steps@[i - n];
                &&& links[i].layer_idx == s.layer_idx
                &&& *links[i].a_old == s.a_old && *links[i].a_new == s.a_new
                &&& *links[i].b_acc_old == s.b_acc_old && *links[i].b_acc_new == s.b_acc_new
            }
        }),
{
}

/// Whether a commitment was made for a table, and the table was kept with what
/// opens it.
pub open spec fn made_for<P: MlPcs>(
    ck: P::CommitterKey,
    com: P::Commitment,
    aux: CommittedAux<P>,
    table: Seq<int>,
) -> bool {
    vals(aux.table@) == table && P::committed(ck, com, aux.state, table)
}

/// The commitments of a pass are those of its tensors, each at its own place:
/// of every link of both chains; of every linear step's two products and of
/// what the step adds to the bias; and of every activation step's signs,
/// positive part, product with the slopes, product with the offsets, and of
/// what the step adds to the bias.
pub proof fn law_pass_commitments<P: MlPcs>(
    ck: P::CommitterKey,
    trace: BackwardTrace,
    c: PassCommitments<P>,
    s: PassProverStates<P>,
    i: int,
)
    requires
        pass_committed(ck, trace, c, s),
    ensures
        ({
            let links = chain_links(&trace);
            &&& c.chain_a@.len() == links.len() + 1
            &&& c.chain_b_acc@.len() == links.len() + 1
            &&& 0 <= i <= links.len() ==> {
                &&& made_for(
                    ck,
                    c.chain_a@[i],
                    s.chain_a@[i],
                    committed_table(chain_a_at(links, i)->0.codes),
                )
                &&& made_for(
                    ck,
                    c.chain_b_acc@[i],
                    s.chain_b_acc@[i],
                    vector_table(vector_codes(chain_b_at(links, i)->0.codes)),
                )
            }
        }),
        c.linear_a_w@.len() == trace.linear_steps@.len(),
        0 <= i < trace.linear_steps@.len() ==> {
            let t = trace.linear_steps@[i];
            &&& made_for(ck, c.linear_a_w@[i], s.linear_a_w@[i], committed_table(t.a_w.codes))
            &&& made_for(
                ck,
                c.linear_a_b@[i],
                s.linear_a_b@[i],
                vector_table(vector_codes(t.a_b.codes)),
            )
            &&& made_for(
                ck,
                c.linear_prod_w@[i],
                s.linear_prod_w@[i],
                vector_table(
                    code_differences(
                        vector_codes(t.b_acc_new.codes),
                        vector_codes(t.b_acc_old.codes),
                    ),
                ),
            )
        },
        c.activation_a_pos@.len() == trace.activation_steps@.len(),
        0 <= i < trace.activation_steps@.len() ==> {
            let t = trace.activation_steps@[i];
            &&& made_for(
                ck,
                c.activation_sel@[i],
                s.activation_sel@[i],
                committed_table(t.selectors.codes),
            )
            &&& made_for(
                ck,
                c.activation_a_pos@[i],
                s.activation_a_pos@[i],
                committed_table(t.a_pos.codes),
            )
            &&& made_for(
                ck,
                c.activation_a_d_doubled@[i],
                s.activation_a_d_doubled@[i],
                committed_table(t.a_d_doubled.codes),
            )
            &&& made_for(
                ck,
                c.activation_bias_doubled@[i],
                s.activation_bias_doubled@[i],
                vector_table(vector_codes(t.bias_delta_doubled.codes)),
            )
            &&& made_for(
                ck,
                c.activation_bias_delta@[i],
                s.activation_bias_delta@[i],
                vector_table(
                    code_differences(
                        vector_codes(t.b_acc_new.codes),
                        vector_codes(t.b_acc_old.codes),
                    ),
                ),
            )
        },
{
    let links = chain_links(&trace);
    if 0 <= i <= links.len() {
        assert(matrix_committed(
            ck,
            chain_a_at(links, i)->0.codes,
            c.chain_a@[i],
            s.chain_a@[i],
        ));
        assert(vector_committed(
            ck,
            vector_codes(chain_b_at(links, i)->0.codes),
            c.chain_b_acc@[i],
            s.chain_b_acc@[i],
        ));
    }
}

/// The last step's commitments of a pass are there exactly where the step is,
/// and are those of its signs, of its doubled target, of its positive part, and
/// of what the target adds to the last bias.
pub proof fn law_last_commitments<P: MlPcs>(
    ck: P::CommitterKey,
    trace: BackwardTrace,
    c: PassCommitments<P>,
    s: PassProverStates<P>,
)
    requires
        pass_committed(ck, trace, c, s),
    ensures
        trace.concretize is Some <==> c.concretize_sel is Some,
        trace.concretize is Some <==> c.concretize_target_doubled is Some,
        trace.concretize is Some <==> c.concretize_a_pos is Some,
        trace.concretize is Some <==> c.concretize_acc_w is Some,
        trace.concretize matches Some(t) ==> {
            &&& made_for(
                ck,
                c.concretize_sel->0,
                s.concretize_sel->0,
                committed_table(t.selectors.codes),
            )
            &&& made_for(
                ck,
                c.concretize_target_doubled->0,
                s.concretize_target_doubled->0,
                vector_table(vector_codes(t.target_doubled.codes)),
            )
            &&& made_for(
                ck,
                c.concretize_a_pos->0,
                s.concretize_a_pos->0,
                committed_table(t.a_pos.codes),
            )
            &&& made_for(
                ck,
                c.concretize_acc_w->0,
                s.concretize_acc_w->0,
                vector_table(
                    code_differences(
                        vector_codes(t.final_target.codes),
                        vector_codes(t.b_acc_final.codes),
                    ),
                ),
            )
        },
{
}

/// The commitments of a certificate are those of its tensors: at a layer with
/// weights and a bias, of those and of no relaxation; at another, of the four
/// vectors of its relaxation and of no weights; and of the box's corners, the
/// property, and the targets that are there.
pub proof fn law_certificate_commitments<P: MlPcs>(
    ck: P::CommitterKey,
    cert: QuantCert,
    n: nat,
    lower: Option<&BackwardTrace>,
    upper: Option<&BackwardTrace>,
    c: TensorCommitments<P>,
    s: ProverPolyStates<P>,
    i: int,
)
    requires
        cert_committed(ck, cert, n, lower, upper, c, s),
        0 <= i < n,
    ensures
        c.weight@.len() == n && c.bias@.len() == n && c.relaxation@.len() == n,
        cert.weights@[i] is Some && cert.biases@[i] is Some ==> {
            &&& c.weight@[i] is Some && c.bias@[i] is Some && c.relaxation@[i] is None
            &&& made_for(
                ck,
                c.weight@[i]->0,
                s.weight@[i]->0,
                committed_table(cert.weights@[i]->0.codes),
            )
            &&& made_for(
                ck,
                c.bias@[i]->0,
                s.bias@[i]->0,
                vector_table(vector_codes(cert.biases@[i]->0.codes)),
            )
        },
        !(cert.weights@[i] is Some && cert.biases@[i] is Some) ==> {
            let (r, rc, rs) = (cert.relaxations@[i]->0, c.relaxation@[i]->0, s.relaxation@[i]->0);
            &&& c.weight@[i] is None && c.bias@[i] is None && c.relaxation@[i] is Some
            &&& made_for(ck, rc.d_lower, rs.d_lower, vector_table(vector_codes(r.d_lower.codes)))
            &&& made_for(ck, rc.d_upper, rs.d_upper, vector_table(vector_codes(r.d_upper.codes)))
            &&& made_for(ck, rc.b_lower, rs.b_lower, vector_table(vector_codes(r.b_lower.codes)))
            &&& made_for(ck, rc.b_upper, rs.b_upper, vector_table(vector_codes(r.b_upper.codes)))
        },
        made_for(ck, c.x_lower, s.x_lower, vector_table(vector_codes(cert.x_lower.codes))),
        made_for(ck, c.x_upper, s.x_upper, vector_table(vector_codes(cert.x_upper.codes))),
        made_for(ck, c.spec_c, s.spec_c, committed_table(cert.spec_c.codes)),
        made_for(ck, c.spec_d, s.spec_d, vector_table(vector_codes(cert.spec_d.codes))),
        cert.target_lower is Some <==> c.target_lower is Some,
        cert.target_upper is Some <==> c.target_upper is Some,
        cert.target_lower matches Some(v) ==> exists|state: P::State| #[trigger]
            P::committed(
                ck,
                c.target_lower->0,
                state,
                vector_table(vector_codes(v.codes)),
            ),
        cert.target_upper matches Some(v) ==> exists|state: P::State| #[trigger]
            P::committed(
                ck,
                c.target_upper->0,
                state,
                vector_table(vector_codes(v.codes)),
            ),
        lower is Some <==> c.pass_lower is Some,
        upper is Some <==> c.pass_upper is Some,
        lower matches Some(t) ==> pass_committed(ck, *t, c.pass_lower->0, s.pass_lower->0),
        upper matches Some(t) ==> pass_committed(ck, *t, c.pass_upper->0, s.pass_upper->0),
{
    let lc = LayerCommits {
        weight: c.weight,
        bias: c.bias,
        relaxation: c.relaxation,
        weight_state: s.weight,
        bias_state: s.bias,
        relaxation_state: s.relaxation,
    };
    assert(layer_committed(ck, cert, i, lc));
}

// ---- What a bound is proved from ----

/// The codes that a pass's bound is proved from: the bound's own codes with
/// zeros behind, the codes of the chain's first bias, and those of what the
/// last step adds, each over at most `2^n_vars` entries.
pub proof fn law_bound_codes<P: MlPcs>(
    c: BoundCodes,
    preact: QArray1,
    n_vars: nat,
    st: PassProverStates<P>,
    i: int,
)
    requires
        bound_codes_of(c, preact, n_vars, st),
        0 <= i < pow2(n_vars),
    ensures
        ({
            let codes = vector_codes(preact.codes);
            let bias = st.chain_b_acc@[0].table@;
            let share = st.concretize_acc_w->0.table@;
            &&& c.claimed@.len() == pow2(n_vars)
            &&& c.claimed@[i] == (if i < codes.len() {
                codes[i]
            } else {
                0
            })
            &&& i < bias.len() ==> i < c.b_acc_final@.len() && c.b_acc_final@[i] == (match signed_of(
                bias[i]@,
            ) {
                Some(v) => v,
                None => 0,
            })
            &&& i < share.len() ==> i < c.acc_w@.len() && c.acc_w@[i] == (match signed_of(
                share[i]@,
            ) {
                Some(v) => v,
                None => 0,
            })
            &&& c.b_acc_final@.len() <= pow2(n_vars) && c.b_acc_final@.len() <= bias.len()
            &&& c.acc_w@.len() <= pow2(n_vars) && c.acc_w@.len() <= share.len()
        }),
{
}

// ---- The scales of the layers ----

/// A class that names a scale's first number gives the layer's own pair of that
/// tensor: of its weights, its biases, its slopes or its offsets. The classes
/// that name a second number give none.
pub proof fn law_layer_scales(c: LayerScalesCommit, i: int)
    requires
        0 <= i < c.weight_c@.len(),
    ensures
        scale_at(c, ScaleClass::WeightC, i) == Ok::<Scale, SnarkError>(
            Scale { c: c.weight_c@[i], e: c.weight_e@[i] },
        ),
        scale_at(c, ScaleClass::BiasC, i) == Ok::<Scale, SnarkError>(
            Scale { c: c.bias_c@[i], e: c.bias_e@[i] },
        ),
        scale_at(c, ScaleClass::RelaxDC, i) == Ok::<Scale, SnarkError>(
            Scale { c: c.relax_d_c@[i], e: c.relax_d_e@[i] },
        ),
        scale_at(c, ScaleClass::RelaxBC, i) == Ok::<Scale, SnarkError>(
            Scale { c: c.relax_b_c@[i], e: c.relax_b_e@[i] },
        ),
        scale_at(c, ScaleClass::WeightE, i) is Err,
        scale_at(c, ScaleClass::BiasE, i) is Err,
        scale_at(c, ScaleClass::RelaxDE, i) is Err,
        scale_at(c, ScaleClass::RelaxBE, i) is Err,
{
}

/// No class has a scale behind the last layer.
pub proof fn law_no_scale_behind_the_layers(c: LayerScalesCommit, class: ScaleClass, i: int)
    requires
        i >= c.weight_c@.len(),
    ensures
        scale_at(c, class, i) is Err,
{
}

/// Scales that are admitted have one entry for every layer in each of the eight
/// lists, and no exponent is larger in size than a hundred.
pub proof fn law_admitted_scales(c: LayerScalesCommit, n: nat, i: int)
    requires
        scales_sized(c, n),
        scales_in_range(c),
        0 <= i < n,
    ensures
        c.weight_c@.len() == n && c.weight_e@.len() == n,
        c.bias_c@.len() == n && c.bias_e@.len() == n,
        c.relax_d_c@.len() == n && c.relax_d_e@.len() == n,
        c.relax_b_c@.len() == n && c.relax_b_e@.len() == n,
        abs_int(c.weight_e@[i] as int) <= 100,
        abs_int(c.bias_e@[i] as int) <= 100,
        abs_int(c.relax_d_e@[i] as int) <= 100,
        abs_int(c.relax_b_e@[i] as int) <= 100,
{
}

} // verus!
