//! On which inputs a prover is owed success, and what a refused one is
//! answered.

use crate::chain_init::{chain_init_ready, chain_init_refusal};
use crate::columns::{
    even_vars, fits, lemma_signed_of_residue, lemma_signed_roundtrip, lifted_codes,
};
use crate::commit::{PassCommitments, PassProverStates, TensorCommitments};
use crate::critical_prover::critical_shape_refusal;
use crate::critical_witness::{
    CriticalInputs, CriticalScales, critical_cell, critical_factors, critical_index,
    critical_neuron, critical_scan, critical_split, twos,
};
use crate::errors::SnarkError;
use crate::field::{all_in_field, fmul, fsub, in_field, residue, signed_of, vals};
use crate::hidden_identity::{identity_init_ready, identity_init_refusal, identity_matrix_table};
use crate::logup::{column_ok, lower, upper};
use crate::network::ActivationKind;
use crate::params::SnarkParams;
use crate::pcs::{CommittedAux, MlPcs, aux_of, zeros};
use crate::pos_range::range_provable;
use crate::range_per_tensor::{cells_in_range, range_index};
use crate::relu_d_boolean::all_boolean;
use crate::relu_upper_endpoint::{half_cell, half_scan};
use crate::scale::Scale;
use crate::shapes::vector_vars;
use crate::sshape_endpoint_prover::{cell_field, ep_columns, ep_range_error};
use crate::sshape_helpers::{fd1, fd2, quot};
use crate::sshape_witness::{SplitArithCellWitness, SshapeLineKind, abs_int};
use crate::value_laws::law_slack;
use vstd::arithmetic::power2::{lemma_pow2_pos, pow2};
use vstd::prelude::*;

verus! {

// ---- Ranges ----

/// An endpoint's columns pass exactly where the size of the preactivation, the
/// three remainders and the distance from the envelope are in range in every
/// row.
pub proof fn law_endpoint_columns_in_range(cells: Seq<SplitArithCellWitness>, bound: int)
    ensures
        ep_range_error(ep_columns(cells), bound) is None <==> forall|i: int|
            0 <= i < cells.len() ==> {
                &&& 0 <= (#[trigger] cells[i]).abs_l < bound
                &&& 0 <= cells[i].dx_step_1_rem < bound
                &&& 0 <= cells[i].dx_sigma_rem < bound
                &&& 0 <= cells[i].b_sigma_rem < bound
                &&& 0 <= cells[i].diff < bound
            },
{
    reveal(ep_range_error);
    let cols = ep_columns(cells);
    assert forall|j: int, i: int| 0 <= j < 11 && 0 <= i < cells.len() implies (
    #[trigger] cols[j])[i] == cell_field(#[trigger] cells[i], j) by {}
    if ep_range_error(cols, bound) is None {
        assert forall|i: int| 0 <= i < cells.len() implies {
            &&& 0 <= (#[trigger] cells[i]).abs_l < bound
            &&& 0 <= cells[i].dx_step_1_rem < bound
            &&& 0 <= cells[i].dx_sigma_rem < bound
            &&& 0 <= cells[i].b_sigma_rem < bound
            &&& 0 <= cells[i].diff < bound
        } by {
            assert(0 <= cols[0][i] < bound && 0 <= cols[5][i] < bound && 0 <= cols[7][i] < bound);
            assert(0 <= cols[9][i] < bound && 0 <= cols[10][i] < bound);
        }
    }
    if forall|i: int|
        0 <= i < cells.len() ==> {
            &&& 0 <= (#[trigger] cells[i]).abs_l < bound
            &&& 0 <= cells[i].dx_step_1_rem < bound
            &&& 0 <= cells[i].dx_sigma_rem < bound
            &&& 0 <= cells[i].b_sigma_rem < bound
            &&& 0 <= cells[i].diff < bound
        } {
        assert forall|i: int| 0 <= i < cells.len() implies 0 <= #[trigger] cols[0][i] < bound by {
            assert(0 <= cells[i].abs_l < bound);
        }
        assert forall|i: int| 0 <= i < cells.len() implies 0 <= #[trigger] cols[5][i] < bound by {
            assert(0 <= cells[i].dx_step_1_rem < bound);
        }
        assert forall|i: int| 0 <= i < cells.len() implies 0 <= #[trigger] cols[7][i] < bound by {
            assert(0 <= cells[i].dx_sigma_rem < bound);
        }
        assert forall|i: int| 0 <= i < cells.len() implies 0 <= #[trigger] cols[9][i] < bound by {
            assert(0 <= cells[i].b_sigma_rem < bound);
        }
        assert forall|i: int| 0 <= i < cells.len() implies 0 <= #[trigger] cols[10][i] < bound by {
            assert(0 <= cells[i].diff < bound);
        }
    }
}

// ---- The upper line of a ReLU ----

/// Whether a cell's codes can be read and every product of its line fits.
pub open spec fn upper_line_computable(
    preact: int,
    d: int,
    b: int,
    s_d: int,
    s_w: int,
    s_b: int,
) -> bool {
    &&& signed_of(preact) is Some && signed_of(d) is Some && signed_of(b) is Some
    &&& ({
        let (x, dd, bb) = (
            signed_of(preact)->Some_0 as int,
            signed_of(d)->Some_0 as int,
            signed_of(b)->Some_0 as int,
        );
        let relu = if x > 0 {
            x
        } else {
            0
        };
        let q = s_w / s_b;
        &&& fits(dd * x) && fits(bb * q) && fits(bb * q * s_d) && fits(relu * s_d)
        &&& fits(dd * x + bb * q * s_d)
        &&& fits(dd * x + bb * q * s_d - relu * s_d)
    })
}

/// Whether the upper line is not below the ReLU of a readable preactivation.
pub open spec fn line_above_relu(
    preact: int,
    d: int,
    b: int,
    s_d: int,
    s_w: int,
    s_b: int,
) -> bool {
    let (x, dd, bb) = (
        signed_of(preact)->Some_0 as int,
        signed_of(d)->Some_0 as int,
        signed_of(b)->Some_0 as int,
    );
    let line = dd * x * s_b + bb * s_w * s_d;
    line >= 0 && line >= x * s_d * s_b
}

/// The prover of a ReLU layer's upper line refuses no cell exactly where every
/// line can be computed and is not below the ReLU. A line that is below is
/// answered with its cell.
pub proof fn law_upper_line_owed(
    preact: Seq<int>,
    d: Seq<int>,
    b: Seq<int>,
    s_d: int,
    s_w: int,
    s_b: int,
    i: nat,
)
    requires
        s_d > 0,
        s_b > 0,
        s_w % s_b == 0,
        i <= preact.len(),
    ensures
        half_scan(preact, d, b, s_d, s_w, s_b, i) is None <==> forall|k: int|
            i <= k < preact.len() ==> {
                &&& upper_line_computable(#[trigger] preact[k], d[k], b[k], s_d, s_w, s_b)
                &&& line_above_relu(preact[k], d[k], b[k], s_d, s_w, s_b)
            },
        i < preact.len() && upper_line_computable(
            preact[i as int],
            d[i as int],
            b[i as int],
            s_d,
            s_w,
            s_b,
        ) && !line_above_relu(preact[i as int], d[i as int], b[i as int], s_d, s_w, s_b) ==> {
            &&& half_scan(preact, d, b, s_d, s_w, s_b, i) matches Some(
                SnarkError::RelaxationSoundnessReluUpperEndpointInvalid { layer_idx, endpoint },
            )
            &&& layer_idx == i as usize
        },
    decreases preact.len() - i,
{
    if i < preact.len() {
        let (p, dd, bb) = (preact[i as int], d[i as int], b[i as int]);
        lemma_upper_line_cell(p, dd, bb, s_d, s_w, s_b, i);
        law_upper_line_owed(preact, d, b, s_d, s_w, s_b, i + 1);
        if half_scan(preact, d, b, s_d, s_w, s_b, i) is None {
            assert forall|k: int| i <= k < preact.len() implies {
                &&& upper_line_computable(#[trigger] preact[k], d[k], b[k], s_d, s_w, s_b)
                &&& line_above_relu(preact[k], d[k], b[k], s_d, s_w, s_b)
            } by {
                if k > i {
                    assert(i + 1 <= k);
                }
            }
        }
    }
}

/// A cell has its integers exactly where its line can be computed and is not
/// below the ReLU.
proof fn lemma_upper_line_cell(
    preact: int,
    d: int,
    b: int,
    s_d: int,
    s_w: int,
    s_b: int,
    i: nat,
)
    requires
        s_d > 0,
        s_b > 0,
        s_w % s_b == 0,
    ensures
        half_cell(preact, d, b, s_d, s_w, s_b, i) is Ok <==> upper_line_computable(
            preact,
            d,
            b,
            s_d,
            s_w,
            s_b,
        ) && line_above_relu(preact, d, b, s_d, s_w, s_b),
        upper_line_computable(preact, d, b, s_d, s_w, s_b) && !line_above_relu(
            preact,
            d,
            b,
            s_d,
            s_w,
            s_b,
        ) ==> {
            &&& half_cell(preact, d, b, s_d, s_w, s_b, i) matches Err(
                SnarkError::RelaxationSoundnessReluUpperEndpointInvalid { layer_idx, endpoint },
            )
            &&& layer_idx == i as usize
        },
{
    if signed_of(preact) is Some && signed_of(d) is Some && signed_of(b) is Some {
        let (x, dd, bb) = (
            signed_of(preact)->Some_0 as int,
            signed_of(d)->Some_0 as int,
            signed_of(b)->Some_0 as int,
        );
        let relu = if x > 0 {
            x
        } else {
            0
        };
        law_slack(dd, bb, x, relu, s_d, s_w, s_b);
        let line = dd * x * s_b + bb * s_w * s_d;
        assert(relu * s_d * s_b == if x > 0 {
            x * s_d * s_b
        } else {
            0
        }) by {
            assert(0 * s_d * s_b == 0) by (nonlinear_arith);
        }
        assert(x <= 0 ==> x * s_d * s_b <= 0) by (nonlinear_arith)
            requires
                s_d > 0,
                s_b > 0,
        ;
        assert(x > 0 ==> x * s_d * s_b > 0) by (nonlinear_arith)
            requires
                s_d > 0,
                s_b > 0,
        ;
        let q = s_w / s_b;
        vstd::arithmetic::div_mod::lemma_fundamental_div_mod(s_w, s_b);
        let num = dd * x + bb * q * s_d - relu * s_d;
        assert(num * s_b == line - relu * s_d * s_b) by (nonlinear_arith)
            requires
                num == dd * x + bb * q * s_d - relu * s_d,
                s_w == s_b * q,
                line == dd * x * s_b + bb * s_w * s_d,
        ;
        assert(num >= 0 <==> num * s_b >= 0) by (nonlinear_arith)
            requires
                s_b > 0,
        ;
    }
}

// ---- The critical point ----

/// A critical point's prover refuses its scales and sizes exactly where the
/// layer is a ReLU, a scale is not a power of two within the range, the
/// preactivations' scale is not the tables', there is no neuron, the ends of
/// the preactivations differ in number, or a line's table is not the padded
/// layer's size.
pub proof fn law_critical_sizes<P: MlPcs>(
    params: SnarkParams<P>,
    kind: ActivationKind,
    l_len: nat,
    u_len: nat,
    d_len: nat,
    b_len: nat,
    s_d: Scale,
    s_b: Scale,
    s_w: Scale,
)
    ensures
        critical_shape_refusal(params, kind, l_len, u_len, d_len, b_len, s_d, s_b, s_w) is None
            <==> {
            &&& kind is Sigmoid || kind is Tanh
            &&& s_d.c == 1 && 0 <= s_d.e <= params.gadget_range_bits
            &&& s_b.c == 1 && 0 <= s_b.e <= params.gadget_range_bits
            &&& s_w.c == 1 && 0 <= s_w.e <= params.gadget_range_bits
            &&& s_w.e == params.sigma_x_scale_log2
            &&& l_len >= 1 && u_len == l_len
            &&& d_len == pow2(vector_vars(l_len)) && b_len == pow2(vector_vars(l_len))
        },
{
}

/// Whether every number of a neuron's line at a point fits an `i128`: the
/// product rounded down at both scales, the offset rounded to the line's safe
/// side.
pub open spec fn neuron_computable(
    kind: ActivationKind,
    line: SshapeLineKind,
    x: int,
    l: int,
    u: int,
    top: int,
    d: int,
    b: int,
    s: CriticalScales,
) -> bool {
    let q1 = (d * x) / s.s_d;
    let q2 = (q1 * s.s_v) / s.s_w;
    let q3 = if line is Lower {
        -((-(b * s.s_v)) / s.s_b)
    } else {
        (b * s.s_v) / s.s_b
    };
    let bottom = if kind is Sigmoid {
        s.s_v - top
    } else {
        -top
    };
    &&& s.s_d > 0 && s.s_w > 0 && s.s_b > 0
    &&& fits(d * x) && fits(q1 * s.s_d) && fits(q1 * s.s_v) && fits(q2 * s.s_w)
    &&& fits(b * s.s_v) && fits(q3 * s.s_b)
    &&& line is Upper ==> fits(u - x) && u - x != i128::MIN && fits(q2 + q3) && fits(q2 + q3 - top)
    &&& line is Lower ==> fits(-x - l) && -x - l != i128::MIN && fits(bottom) && fits(bottom + q2)
        && fits(bottom + q2 - q3)
}

/// Whether a neuron's rounded line keeps its side of the envelope at a point
/// where its interval reaches it, and both the distance from the interval's end
/// and the one from the envelope are below the square of the range.
pub open spec fn neuron_clears(
    kind: ActivationKind,
    line: SshapeLineKind,
    x: int,
    l: int,
    u: int,
    top: int,
    d: int,
    b: int,
    s: CriticalScales,
    square: int,
) -> bool {
    let q2 = (((d * x) / s.s_d) * s.s_v) / s.s_w;
    let q3 = if line is Lower {
        -((-(b * s.s_v)) / s.s_b)
    } else {
        (b * s.s_v) / s.s_b
    };
    let reach = if line is Upper {
        u - x
    } else {
        -x - l
    };
    let gap = if line is Upper {
        q2 + q3 - top
    } else if kind is Sigmoid {
        s.s_v - top + q2 - q3
    } else {
        -top + q2 - q3
    };
    &&& -square <= reach < square
    &&& reach >= 0 ==> 0 <= gap < square
}

/// A neuron has its integers exactly where its line is flat or its slope has a
/// critical point whose two slacks are below the square of the range, the
/// preactivations' scale is not finer than the tables', and its line can be
/// computed and clears the envelope there.
pub proof fn law_neuron_owed(
    lower: Seq<i128>,
    upper: Seq<i128>,
    kind: ActivationKind,
    line: SshapeLineKind,
    layer_idx: usize,
    l: int,
    u: int,
    d: int,
    b: int,
    seed: Option<i128>,
    s: CriticalScales,
    bound: int,
)
    requires
        kind is Sigmoid || kind is Tanh,
        bound > 0,
    ensures
        ({
            let found = critical_index(lower, upper, d, s.s_d, s.s_x, s.s_v, seed);
            let z = if d == 0 {
                1
            } else {
                found->Some_0
            };
            let x = z / (pow2((twos(s.s_x) - twos(s.s_w)) as nat) as int);
            critical_cell(lower, upper, kind, line, layer_idx, l, u, d, b, seed, s, bound) is Ok
                <==> {
                &&& d == 0 || found is Some
                &&& fits(bound * bound)
                &&& d != 0 ==> fd1(
                    lower[z] as int,
                    upper[z - 1] as int,
                    d,
                    s.s_d,
                    s.s_x,
                    s.s_v,
                ) < bound * bound && fd2(
                    lower[z] as int,
                    upper[z + 1] as int,
                    d,
                    s.s_d,
                    s.s_x,
                    s.s_v,
                ) < bound * bound
                &&& twos(s.s_x) >= twos(s.s_w)
                &&& neuron_computable(kind, line, x, l, u, upper[z] as int, d, b, s)
                &&& neuron_clears(
                    kind,
                    line,
                    x,
                    l,
                    u,
                    upper[z] as int,
                    d,
                    b,
                    s,
                    bound * bound,
                )
            }
        }),
{
    let found = critical_index(lower, upper, d, s.s_d, s.s_x, s.s_v, seed);
    let z = if d == 0 {
        1
    } else {
        found->Some_0
    };
    let x = z / (pow2((twos(s.s_x) - twos(s.s_w)) as nat) as int);
    let top = upper[z] as int;
    assert(bound * bound > 0) by (nonlinear_arith)
        requires
            bound > 0,
    ;
    if neuron_computable(kind, line, x, l, u, top, d, b, s) {
        let q1 = (d * x) / s.s_d;
        lemma_remainder_fits_in(false, d * x, s.s_d);
        lemma_remainder_fits_in(false, q1 * s.s_v, s.s_w);
        lemma_remainder_fits_in(line is Lower, b * s.s_v, s.s_b);
    }
    let reach = if line is Upper {
        u - x
    } else {
        -x - l
    };
    let pos = if reach >= 0 {
        reach
    } else {
        -reach - 1
    };
    lemma_high_chunk(pos, bound);
    if critical_split(line, d, x, b, s) is Ok {
        let q1 = (d * x) / s.s_d;
        lemma_remainder_fits_in(false, d * x, s.s_d);
        lemma_remainder_fits_in(false, q1 * s.s_v, s.s_w);
        lemma_remainder_fits_in(line is Lower, b * s.s_v, s.s_b);
        let sp = critical_split(line, d, x, b, s)->Ok_0;
        let factors = critical_factors(
            kind,
            line,
            x,
            l,
            u,
            top,
            sp.dz_sigma_code as int,
            sp.b_sigma_code as int,
            s.s_v,
        );
        if factors is Ok {
            let gap = if factors->Ok_0.0 >= 0 {
                factors->Ok_0.1 as int
            } else {
                0
            };
            lemma_high_chunk(gap, bound);
        }
    }
}

/// A quotient fits where its product with the denominator does.
proof fn lemma_remainder_fits_in(up: bool, n: int, d: int)
    requires
        d > 0,
        fits(quot(up, n, d) * d),
    ensures
        fits(quot(up, n, d)),
{
    let q = quot(up, n, d);
    assert(abs_int(q) <= abs_int(q * d)) by (nonlinear_arith)
        requires
            d >= 1,
    {
        if q >= 0 {
            assert(q * d >= q);
        } else {
            assert(q * d <= q);
        }
    }
    assert(q >= 0 <==> q * d >= 0) by (nonlinear_arith)
        requires
            d >= 1,
    ;
}

/// A number that is not negative is below the square of a bound exactly where
/// its high chunk is below the bound.
proof fn lemma_high_chunk(x: int, bound: int)
    requires
        bound > 0,
    ensures
        x >= 0 ==> (x / bound < bound <==> x < bound * bound),
{
    vstd::arithmetic::div_mod::lemma_fundamental_div_mod(x, bound);
    vstd::arithmetic::div_mod::lemma_mod_bound(x, bound);
    let (q, r) = (x / bound, x % bound);
    assert(q < bound <==> x < bound * bound) by (nonlinear_arith)
        requires
            x == bound * q + r,
            0 <= r < bound,
    ;
}

/// A critical point's prover refuses no neuron exactly where each has its
/// integers.
pub proof fn law_neurons_owed(x: CriticalInputs, n: nat, j: nat)
    ensures
        critical_scan(x, n, j) is None <==> forall|k: int|
            j <= k < n ==> (#[trigger] critical_neuron(x, k)) is Ok,
    decreases n - j,
{
    if j < n {
        law_neurons_owed(x, n, j + 1);
        if critical_scan(x, n, j) is None {
            assert forall|k: int| j <= k < n implies (#[trigger] critical_neuron(x, k)) is Ok by {
                if k > j {
                    assert(j + 1 <= k);
                }
            }
        } else if forall|k: int| j <= k < n ==> (#[trigger] critical_neuron(x, k)) is Ok {
            assert(critical_neuron(x, j as int) is Ok);
        }
    }
}

/// The neurons of a layer are its own: each has the ends of its preactivation,
/// its line and its seed, at the layer's scales.
pub proof fn law_neuron_inputs(x: CriticalInputs, j: int)
    ensures
        critical_neuron(x, j) == critical_cell(
            x.lower,
            x.upper,
            x.kind,
            x.line,
            x.layer_idx,
            x.l[j] as int,
            x.u[j] as int,
            x.d[j] as int,
            x.b[j] as int,
            x.seeds[j],
            x.s,
            x.bound,
        ),
{
}

// ---- Starts, ranges and slopes ----

/// The prover of a start is owed success where the last tables of its chains
/// are committed and are the property's, and is refused exactly where a chain
/// is empty.
pub proof fn law_start_owed<P: MlPcs>(
    ck: P::CommitterKey,
    pass: PassCommitments<P>,
    st: PassProverStates<P>,
    coms: TensorCommitments<P>,
    spec_c_aux: CommittedAux<P>,
    spec_d_aux: CommittedAux<P>,
    a_n_vars: usize,
    b_n_vars: usize,
)
    ensures
        chain_init_refusal(pass, st) is Ok <==> st.chain_a@.len() > 0 && pass.chain_a@.len() > 0
            && st.chain_b_acc@.len() > 0 && pass.chain_b_acc@.len() > 0,
        st.chain_a@.len() > 0 && pass.chain_a@.len() > 0 && st.chain_b_acc@.len() > 0
            && pass.chain_b_acc@.len() > 0 && aux_of(
            ck,
            pass.chain_a@[pass.chain_a@.len() - 1],
            st.chain_a@[st.chain_a@.len() - 1],
        ) && aux_of(
            ck,
            pass.chain_b_acc@[pass.chain_b_acc@.len() - 1],
            st.chain_b_acc@[st.chain_b_acc@.len() - 1],
        ) && aux_of(ck, coms.spec_c, spec_c_aux) && aux_of(ck, coms.spec_d, spec_d_aux) && vals(
            st.chain_a@[st.chain_a@.len() - 1].table@,
        ) == vals(spec_c_aux.table@) && vals(st.chain_b_acc@[st.chain_b_acc@.len() - 1].table@)
            == vals(spec_d_aux.table@) && spec_c_aux.table@.len() == pow2(a_n_vars as nat)
            && spec_d_aux.table@.len() == pow2(b_n_vars as nat) ==> chain_init_ready(
            ck,
            pass,
            st,
            coms,
            spec_c_aux,
            spec_d_aux,
            a_n_vars,
            b_n_vars,
        ),
{
}

/// The prover of a hidden pass's start is owed success where the tables of its
/// chains above the target are committed, one holds the identity and the other
/// zeros, and is refused exactly where a chain ends at the target.
pub proof fn law_identity_start_owed<P: MlPcs>(
    ck: P::CommitterKey,
    pass: PassCommitments<P>,
    st: PassProverStates<P>,
    target: usize,
    n: nat,
    one: i128,
)
    ensures
        ({
            let top = target + 1;
            let long = pass.chain_a@.len() > top && st.chain_a@.len() > top
                && pass.chain_b_acc@.len() > top && st.chain_b_acc@.len() > top;
            &&& identity_init_refusal(pass, st, target) is Ok <==> long
            &&& long && aux_of(ck, pass.chain_a@[top], st.chain_a@[top]) && aux_of(
                ck,
                pass.chain_b_acc@[top],
                st.chain_b_acc@[top],
            ) && vals(st.chain_a@[top].table@) == identity_matrix_table(n, one) && vals(
                st.chain_b_acc@[top].table@,
            ) == Seq::new(pow2(vector_vars(n)), |i: int| 0int) ==> identity_init_ready(
                ck,
                pass,
                st,
                target,
                n,
                one,
            )
        }),
{
    let top = target + 1;
    if vals(st.chain_b_acc@[top].table@) == Seq::new(pow2(vector_vars(n)), |i: int| 0int) {
        assert(vals(st.chain_b_acc@[top].table@) =~= zeros(pow2(vector_vars(n))));
    }
}

/// A committed column of codes from zero to the range is owed its range proof.
pub proof fn law_range_owed<P: MlPcs>(
    params: SnarkParams<P>,
    codes: Seq<i128>,
    n: nat,
    aux: CommittedAux<P>,
    com: P::Commitment,
)
    requires
        n >= 1,
        codes.len() == pow2(n),
        forall|i: int|
            0 <= i < codes.len() ==> 0 <= #[trigger] codes[i] < pow2(
                params.gadget_range_bits as nat,
            ),
        params.preprocessed.has_pos_table(params.gadget_range_bits as nat),
        vals(aux.table@) == Seq::new(codes.len(), |i: int| residue(codes[i] as int)),
        aux_of(params.committer_key, com, aux),
        P::can_commit(
            params.committer_key,
            pow2(even_vars(params.gadget_range_bits as nat)),
        ),
    ensures
        range_provable(
            params,
            Seq::new(codes.len(), |i: int| residue(codes[i] as int)),
            codes,
            aux,
            com,
        ),
{
    let witness = Seq::new(codes.len(), |i: int| residue(codes[i] as int));
    assert(witness =~= lifted_codes(codes));
    vstd::arithmetic::power2::lemma_pow2_unfold(n);
    lemma_pow2_pos((n - 1) as nat);
    assert(column_ok(witness.len())) by {
        assert(pow2(n) == witness.len());
    }
}

/// Whether a residue is that of a code from minus half on and below half.
pub open spec fn has_code_below(x: int, half: int) -> bool {
    exists|v: i128| -half <= v < half && #[trigger] residue(v as int) == x
}

/// A table's cells are in a tensor's range exactly where each is the residue of
/// a code from minus half on and below half.
pub proof fn law_tensor_range_owed(t: Seq<int>, half: int)
    requires
        all_in_field(t),
        0 <= half <= 0x1000_0000_0000_0000,
    ensures
        cells_in_range(t, half) <==> forall|i: int|
            0 <= i < t.len() ==> has_code_below(#[trigger] t[i], half),
{
    assert forall|i: int| 0 <= i < t.len() implies (range_index(#[trigger] t[i], half) >= 0
        <==> has_code_below(t[i], half)) by {
        assert(in_field(t[i]));
        lemma_signed_of_residue(t[i]);
        if range_index(t[i], half) >= 0 {
            let v = signed_of(t[i])->Some_0;
            assert(-half <= v < half && residue(v as int) == t[i]);
        }
        if has_code_below(t[i], half) {
            let v = choose|v: i128| -half <= v < half && #[trigger] residue(v as int) == t[i];
            lemma_signed_roundtrip(v);
        }
    }
}

/// Slopes that are zero or one, at their scale, are owed their proof.
pub proof fn law_boolean_owed(d: Seq<int>, s_d: int)
    requires
        in_field(s_d),
        forall|i: int| 0 <= i < d.len() ==> #[trigger] d[i] == 0 || d[i] == s_d,
    ensures
        all_boolean(d, s_d),
{
    reveal(fmul);
    reveal(fsub);
    assert forall|i: int| 0 <= i < d.len() implies fmul(#[trigger] d[i], fsub(s_d, d[i]))
        == 0 by {
        let f = fsub(s_d, d[i]);
        if d[i] == 0 {
            assert(0 * f == 0);
        } else {
            assert(f == 0);
            assert(d[i] * 0 == 0);
        }
    }
}

} // verus!
