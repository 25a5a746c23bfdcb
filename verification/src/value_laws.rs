//! What the computed integers of a certificate's lines say of the lines.

use crate::cert::QuantCert;
use crate::columns::{even_vars, fits};
use crate::critical_identities::lemma_neuron_facts;
use crate::critical_witness::{CriticalScales, critical_cell, critical_index, twos};
use crate::field::{fadd, fmul, residue, signed_of};
use crate::logup::{lower, upper};
use crate::network::{ActivationKind, LayerShape};
use crate::params::{SigmaTables, table_sized};
use crate::qarray::{code_differences, differences_fit, joint_len, repeated, vector_codes};
use crate::relu_lookup_1d::relu_scan;
use crate::relu_upper_endpoint::{half_cell, scale_codes_error, slack_result};
use crate::scale::Scale;
use crate::sshape_endpoint_api::{
    cell_in_range, cells_verdict, cert_layer_verdict, cert_verdict, table_scale_codes,
};
use crate::sshape_helpers::{
    ceil_quot, envelope, envelope_tables, fd_fits, lemma_pow2_within_126, nearest_match, quot,
    quot_rem, slope_matches, slope_matches_at, split_step,
};
use crate::sshape_identities::line_sign;
use crate::sshape_witness::{
    ScaleCodes, SshapeLineKind, abs_int, endpoint_cell, endpoint_cells, endpoint_error,
    endpoint_scan, law_sigma_used_is_envelope, scale_in,
};
use crate::statement_laws::{lower_envelope_at, upper_envelope_at};
use crate::table_mle::{identity_table, relu_table, signed_range_table};
use vstd::arithmetic::power2::{lemma_pow2_pos, lemma_pow2_strictly_increases, pow2};
use vstd::prelude::*;

verus! {

// ---- Tables ----

/// The rows of the three range tables: the numbers from zero on, the numbers
/// from minus half on, and for each of these its mix with its ReLU.
pub proof fn law_table_rows(n: nat, alpha: int, i: int)
    requires
        n >= 1,
        0 <= i < pow2(n),
    ensures
        identity_table(n).len() == pow2(n),
        identity_table(n)[i] == residue(i),
        signed_range_table(n).len() == pow2(n),
        signed_range_table(n)[i] == residue(i - pow2((n - 1) as nat)),
        relu_table(n, alpha).len() == pow2(n),
        ({
            let x = i - pow2((n - 1) as nat);
            relu_table(n, alpha)[i] == fadd(
                fmul(alpha, residue(x)),
                residue(
                    if x > 0 {
                        x
                    } else {
                        0
                    },
                ),
            )
        }),
{
}

/// The envelope of a function at an input is the one that the tables give it,
/// by reflection behind zero; inputs as large as the bound, or as long as the
/// tables, have none, and nor has a ReLU.
pub proof fn law_envelope_values(pre: SigmaTables, kind: ActivationKind, x: int, bound: int)
    requires
        pre.wf(),
    ensures
        kind is ReLU ==> envelope(pre, kind, x, bound) is None,
        abs_int(x) >= bound ==> envelope(pre, kind, x, bound) is None,
        kind is Sigmoid && abs_int(x) >= pre.sigmoid_lower_fr@.len() ==> envelope(
            pre,
            kind,
            x,
            bound,
        ) is None,
        kind is Tanh && abs_int(x) >= pre.tanh_lower_fr@.len() ==> envelope(
            pre,
            kind,
            x,
            bound,
        ) is None,
        (kind is Sigmoid || kind is Tanh) && abs_int(x) < bound && has_row(pre, kind, x)
            ==> envelope(pre, kind, x, bound) is Some,
        envelope(pre, kind, x, bound) matches Some((lo, up)) ==> {
            &&& lo == lower_envelope_at(pre, kind, x)
            &&& up == upper_envelope_at(pre, kind, x)
        },
{
}

/// Differences of vectors of one length are taken code by code; a vector of one
/// code is taken from, or from it, every code of the other.
pub proof fn law_code_differences(a: Seq<i128>, b: Seq<i128>, i: int)
    requires
        differences_fit(a, b),
    ensures
        a.len() == b.len() && 0 <= i < a.len() ==> code_differences(a, b).len() == a.len()
            && code_differences(a, b)[i] == a[i] - b[i],
        a.len() == 1 && 0 <= i < b.len() ==> code_differences(a, b).len() == b.len()
            && code_differences(a, b)[i] == a[0] - b[i],
        b.len() == 1 && 0 <= i < a.len() ==> code_differences(a, b).len() == a.len()
            && code_differences(a, b)[i] == a[i] - b[0],
{
    if 0 <= i < joint_len(a, b) {
        assert(fits(repeated(a, i) - repeated(b, i)));
    }
}

// ---- The upper line of a ReLU ----

/// A slack is given exactly where the offsets' scale divides the
/// preactivations', the line is not below the ReLU at the preactivation, and
/// every product fits. It and its remainder split what the line is above the
/// ReLU by: the line's value, cleared of denominators, is
/// `(slack + relu) s_d s_b` plus `s_b` times the remainder.
pub proof fn law_slack(d: int, b: int, x: int, relu: int, s_d: int, s_w: int, s_b: int)
    requires
        s_d > 0,
        s_b > 0,
    ensures
        slack_result(d, b, x, relu, s_d, s_w, s_b) matches Ok((slack, epsilon)) ==> {
            &&& s_w % s_b == 0
            &&& slack >= 0
            &&& 0 <= epsilon < s_d
            &&& d * x * s_b + b * s_w * s_d == (slack * s_d + epsilon + relu * s_d) * s_b
            &&& d * x * s_b + b * s_w * s_d >= relu * s_d * s_b
        },
        d * x * s_b + b * s_w * s_d < relu * s_d * s_b ==> slack_result(
            d,
            b,
            x,
            relu,
            s_d,
            s_w,
            s_b,
        ) is Err,
        s_w % s_b != 0 ==> slack_result(d, b, x, relu, s_d, s_w, s_b) is Err,
        s_w % s_b == 0 && d * x * s_b + b * s_w * s_d >= relu * s_d * s_b && fits(d * x) && fits(
            b * (s_w / s_b),
        ) && fits(b * (s_w / s_b) * s_d) && fits(relu * s_d) && fits(
            d * x + b * (s_w / s_b) * s_d,
        ) && fits(d * x + b * (s_w / s_b) * s_d - relu * s_d) ==> slack_result(
            d,
            b,
            x,
            relu,
            s_d,
            s_w,
            s_b,
        ) is Ok,
{
    let q = s_w / s_b;
    let num = d * x + b * q * s_d - relu * s_d;
    if s_w % s_b == 0 {
        vstd::arithmetic::div_mod::lemma_fundamental_div_mod(s_w, s_b);
        assert(s_w == s_b * q);
        assert(num * s_b == d * x * s_b + b * s_w * s_d - relu * s_d * s_b) by (nonlinear_arith)
            requires
                num == d * x + b * q * s_d - relu * s_d,
                s_w == s_b * q,
        ;
        assert(num >= 0 <==> num * s_b >= 0) by (nonlinear_arith)
            requires
                s_b > 0,
        ;
        vstd::arithmetic::div_mod::lemma_fundamental_div_mod(num, s_d);
        vstd::arithmetic::div_mod::lemma_mod_bound(num, s_d);
        let (k, e) = (num / s_d, num % s_d);
        assert(num >= 0 ==> k >= 0) by (nonlinear_arith)
            requires
                num == s_d * k + e,
                0 <= e < s_d,
        ;
        assert((k * s_d + e + relu * s_d) * s_b == num * s_b + relu * s_d * s_b)
            by (nonlinear_arith)
            requires
                num == s_d * k + e,
        ;
    }
}

/// A cell of a ReLU layer's upper line has its integers only where the line is
/// not below the ReLU of its preactivation; they are the ReLU, the slack and
/// the slack's remainder.
pub proof fn law_upper_line_cell(
    preact: int,
    d: int,
    b: int,
    s_d: int,
    s_w: int,
    s_b: int,
    i: nat,
)
    requires
        s_d > 0,
        s_b > 0,
        half_cell(preact, d, b, s_d, s_w, s_b, i) is Ok,
    ensures
        signed_of(preact) is Some && signed_of(d) is Some && signed_of(b) is Some,
        ({
            let c = half_cell(preact, d, b, s_d, s_w, s_b, i)->Ok_0;
            let (x, dd, bb) = (
                signed_of(preact)->Some_0 as int,
                signed_of(d)->Some_0 as int,
                signed_of(b)->Some_0 as int,
            );
            let line = dd * x * s_b + bb * s_w * s_d;
            &&& c.relu >= 0 && c.relu >= x && (c.relu == 0 || c.relu == x)
            &&& line >= c.relu * s_d * s_b
            &&& line == (c.slack * s_d + c.epsilon + c.relu * s_d) * s_b
            &&& c.slack >= 0 && 0 <= c.epsilon < s_d
        }),
{
    let (x, dd, bb) = (
        signed_of(preact)->Some_0 as int,
        signed_of(d)->Some_0 as int,
        signed_of(b)->Some_0 as int,
    );
    let relu = if x > 0 {
        x
    } else {
        0
    };
    law_slack(dd, bb, x, relu, s_d, s_w, s_b);
}

/// The scale codes of an upper line are refused exactly where one of them is
/// not positive, the offsets' does not divide the preactivations', or the code
/// that the offsets are multiplied by does not fit.
pub proof fn law_upper_line_scales(s_d: int, s_w: int, s_b: int)
    ensures
        scale_codes_error(s_d, s_w, s_b) is None <==> s_d > 0 && s_w > 0 && s_b > 0 && s_w % s_b
            == 0 && i128::MIN <= (s_w / s_b) * s_d <= i128::MAX,
{
}

/// A column of preactivations and a column of ReLUs pass exactly where every
/// preactivation is in the table's domain and has its own ReLU beside it.
pub proof fn law_relu_columns(preact: Seq<int>, relu: Seq<int>, half: int, i: nat)
    requires
        i <= preact.len(),
    ensures
        relu_scan(preact, relu, half, i) is None <==> forall|j: int|
            i <= j < preact.len() ==> {
                &&& signed_of(#[trigger] preact[j]) matches Some(x)
                &&& signed_of(relu[j]) matches Some(y)
                &&& -half <= x < half
                &&& y == if x > 0 {
                    x as int
                } else {
                    0
                }
            },
    decreases preact.len() - i,
{
    if i < preact.len() {
        law_relu_columns(preact, relu, half, i + 1);
    }
}

// ---- The critical point ----

/// A slope matches at a table index where it lies between the function's steps
/// to the index and from it, with four steps of the scale to spare on either
/// side.
pub proof fn law_slope_match(
    lo_z: int,
    up_minus: int,
    up_plus: int,
    d: int,
    s_d: int,
    s_x: int,
    s_v: int,
)
    ensures
        slope_matches(lo_z, up_minus, up_plus, d, s_d, s_x, s_v) ==> {
            &&& d * s_v <= (lo_z - up_minus + 4) * (s_d * s_x)
            &&& d * s_v >= (up_plus - lo_z - 4) * (s_d * s_x)
        },
        fd_fits(lo_z, up_minus, up_plus, d, s_d, s_x, s_v) && d * s_v <= (lo_z - up_minus + 4) * (
        s_d * s_x) && d * s_v >= (up_plus - lo_z - 4) * (s_d * s_x) ==> slope_matches(
            lo_z,
            up_minus,
            up_plus,
            d,
            s_d,
            s_x,
            s_v,
        ),
{
    let c = s_d * s_x;
    assert((lo_z - up_minus + 4) * c == (lo_z - up_minus) * c + c * 4) by (nonlinear_arith);
    assert((up_plus - lo_z - 4) * c == (up_plus - lo_z) * c - c * 4) by (nonlinear_arith);
}

/// A critical point that is found has both neighbours in the tables, matches
/// the slope, which is not negative, and is at most sixteen steps from the
/// seed; no index closer to the seed matches, nor a smaller one equally close.
pub proof fn law_critical_point(
    lower: Seq<i128>,
    upper: Seq<i128>,
    d: int,
    s_d: int,
    s_x: int,
    s_v: int,
    seed: Option<i128>,
)
    ensures
        critical_index(lower, upper, d, s_d, s_x, s_v, seed) matches Some(z) ==> {
            &&& d >= 0
            &&& seed is Some
            &&& 1 <= z <= lower.len() - 2
            &&& abs_int(z - seed->Some_0) <= 16
            &&& slope_matches(
                lower[z] as int,
                upper[z - 1] as int,
                upper[z + 1] as int,
                d,
                s_d,
                s_x,
                s_v,
            )
            &&& forall|y: int|
                1 <= y <= lower.len() - 2 && #[trigger] slope_matches(
                    lower[y] as int,
                    upper[y - 1] as int,
                    upper[y + 1] as int,
                    d,
                    s_d,
                    s_x,
                    s_v,
                ) ==> abs_int(z - seed->Some_0) <= abs_int(y - seed->Some_0) && (y < z
                    ==> abs_int(z - seed->Some_0) < abs_int(y - seed->Some_0))
        },
        critical_index(lower, upper, d, s_d, s_x, s_v, seed) is None && d >= 0 && seed is Some
            ==> forall|y: int|
            1 <= y <= lower.len() - 2 && abs_int(y - seed->Some_0) <= 16 ==> !#[trigger] slope_matches(
                lower[y] as int,
                upper[y - 1] as int,
                upper[y + 1] as int,
                d,
                s_d,
                s_x,
                s_v,
            ),
{
    if lower.len() >= 3 && d >= 0 && seed is Some {
        lemma_nearest(lower, upper, d, s_d, s_x, s_v, seed->Some_0 as int, 16, 0);
        let found = critical_index(lower, upper, d, s_d, s_x, s_v, seed);
        assert forall|y: int|
            1 <= y <= lower.len() - 2 && #[trigger] slope_matches(
                lower[y] as int,
                upper[y - 1] as int,
                upper[y + 1] as int,
                d,
                s_d,
                s_x,
                s_v,
            ) implies slope_matches_at(lower, upper, d, s_d, s_x, s_v, y) by {}
    }
}

/// What the search from a distance on finds is the nearest match from there on.
proof fn lemma_nearest(
    lower: Seq<i128>,
    upper: Seq<i128>,
    d: int,
    s_d: int,
    s_x: int,
    s_v: int,
    seed: int,
    radius: int,
    r: int,
)
    requires
        0 <= r,
    ensures
        nearest_match(lower, upper, d, s_d, s_x, s_v, seed, radius, r) matches Some(z) ==> {
            &&& slope_matches_at(lower, upper, d, s_d, s_x, s_v, z)
            &&& r <= abs_int(z - seed) <= radius
            &&& forall|y: int| #[trigger]
                slope_matches_at(lower, upper, d, s_d, s_x, s_v, y) && abs_int(y - seed) >= r
                    ==> abs_int(z - seed) <= abs_int(y - seed) && (y < z ==> abs_int(z - seed)
                    < abs_int(y - seed))
        },
        nearest_match(lower, upper, d, s_d, s_x, s_v, seed, radius, r) is None ==> forall|y: int|
            #[trigger] slope_matches_at(lower, upper, d, s_d, s_x, s_v, y) && abs_int(y - seed)
                >= r ==> abs_int(y - seed) > radius,
    decreases radius - r + 1,
{
    if r <= radius {
        lemma_nearest(lower, upper, d, s_d, s_x, s_v, seed, radius, r + 1);
        let found = nearest_match(lower, upper, d, s_d, s_x, s_v, seed, radius, r);
        assert forall|y: int| #[trigger]
            slope_matches_at(lower, upper, d, s_d, s_x, s_v, y) && abs_int(y - seed) >= r
                && abs_int(y - seed) < r + 1 implies y == seed - r || y == seed + r by {}
    }
}

/// A neuron has its integers at a critical point only where its line is sound
/// there. At the table index `z` that they name, which is `x` at the
/// preactivations' scale, an upper line whose interval reaches `x` is not below
/// the upper envelope, and a lower line whose interval reaches `-x` is not above
/// the lower envelope; and a line that is not flat has a slope that matches at
/// `z`.
pub proof fn law_neuron_bounds_the_function(
    lower: Seq<i128>,
    upper: Seq<i128>,
    kind: ActivationKind,
    line: SshapeLineKind,
    layer_idx: usize,
    l: int,
    u: int,
    d: int,
    b: int,
    seed: Option<i128>,
    s: CriticalScales,
    bound: int,
)
    requires
        3 <= lower.len() <= usize::MAX,
        upper.len() == lower.len(),
        kind is Sigmoid || kind is Tanh,
        bound > 0,
        fits(s.s_d) && fits(s.s_b) && fits(s.s_w) && fits(s.s_v),
        s.s_v >= 0,
        critical_cell(lower, upper, kind, line, layer_idx, l, u, d, b, seed, s, bound) is Ok,
    ensures
        ({
            let c = critical_cell(
                lower,
                upper,
                kind,
                line,
                layer_idx,
                l,
                u,
                d,
                b,
                seed,
                s,
                bound,
            )->Ok_0;
            let z = c.z as int;
            let x = z / (pow2((twos(s.s_x) - twos(s.s_w)) as nat) as int);
            let whole = s.s_d * s.s_w * s.s_b;
            &&& twos(s.s_x) >= twos(s.s_w)
            &&& 1 <= z <= lower.len() - 2
            &&& line is Upper && x <= u ==> (d * x * s.s_b + b * (s.s_d * s.s_w)) * s.s_v
                >= upper[z] * whole
            &&& line is Lower && -x >= l ==> (d * (-x) * s.s_b + b * (s.s_d * s.s_w)) * s.s_v <= (
            if kind is Sigmoid {
                s.s_v - upper[z]
            } else {
                -upper[z]
            }) * whole
            &&& d != 0 ==> slope_matches(
                lower[z] as int,
                upper[z - 1] as int,
                upper[z + 1] as int,
                d,
                s.s_d,
                s.s_x,
                s.s_v,
            )
        }),
{
    let c = critical_cell(lower, upper, kind, line, layer_idx, l, u, d, b, seed, s, bound)->Ok_0;
    lemma_neuron_facts(lower, upper, kind, line, layer_idx, l, u, d, b, seed, s, bound);
    let z = c.z as int;
    let x = z / (pow2((twos(s.s_x) - twos(s.s_w)) as nat) as int);
    if d != 0 {
        law_critical_point(lower, upper, d, s.s_d, s.s_x, s.s_v, seed);
    }
    let (step, dx, bs) = (c.dz_step_1 as int, c.dz_sigma_code as int, c.b_sigma_code as int);
    let (sd, sb, sw, sv) = (s.s_d, s.s_b, s.s_w, s.s_v);
    let (sign, left) = (line_sign(line) as int, b * sv - bs * sb);
    assert(sign * left == if line is Upper {
        left
    } else {
        -left
    }) by (nonlinear_arith)
        requires
            sign == (if line is Upper {
                1int
            } else {
                -1int
            }),
    ;
    if line is Upper && x <= u {
        let top = upper[z] as int;
        assert(dx + bs >= top);
        lemma_upper_rounding(d, x, b, step, dx, bs, top, sd, sb, sw, sv);
    }
    if line is Lower && -x >= l {
        let bottom = if kind is Sigmoid {
            sv - upper[z]
        } else {
            -upper[z]
        };
        assert(bottom + dx - bs >= 0);
        lemma_lower_rounding(d, x, b, step, dx, bs, bottom, sd, sb, sw, sv);
    }
}

/// A line whose product and offset were rounded down is not below what the
/// rounded line is not below.
proof fn lemma_upper_rounding(
    d: int,
    z: int,
    b: int,
    step: int,
    dx: int,
    bs: int,
    top: int,
    sd: int,
    sb: int,
    sw: int,
    sv: int,
)
    requires
        sd > 0 && sb > 0 && sw > 0 && sv >= 0,
        d * z >= step * sd,
        step * sv >= dx * sw,
        b * sv >= bs * sb,
        dx + bs >= top,
    ensures
        (d * z * sb + b * (sd * sw)) * sv >= top * (sd * sw * sb),
{
    let p = d * z;
    assert(p * sv >= dx * sw * sd) by (nonlinear_arith)
        requires
            p >= step * sd,
            step * sv >= dx * sw,
            sd > 0,
            sv >= 0,
    {
        assert(p * sv >= step * sd * sv);
        assert(step * sv * sd >= dx * sw * sd);
        assert(step * sd * sv == step * sv * sd);
    }
    assert((p * sb + b * (sd * sw)) * sv == (p * sv) * sb + (b * sv) * (sd * sw))
        by (nonlinear_arith);
    assert((p * sv) * sb >= dx * (sd * sw * sb)) by (nonlinear_arith)
        requires
            p * sv >= dx * sw * sd,
            sb > 0,
    {
        assert((p * sv) * sb >= (dx * sw * sd) * sb);
        assert((dx * sw * sd) * sb == dx * (sd * sw * sb));
    }
    assert((b * sv) * (sd * sw) >= bs * (sd * sw * sb)) by (nonlinear_arith)
        requires
            b * sv >= bs * sb,
            sd > 0,
            sw > 0,
    {
        assert(sd * sw > 0);
        assert((b * sv) * (sd * sw) >= (bs * sb) * (sd * sw));
        assert((bs * sb) * (sd * sw) == bs * (sd * sw * sb));
    }
    assert(dx * (sd * sw * sb) + bs * (sd * sw * sb) >= top * (sd * sw * sb)) by (nonlinear_arith)
        requires
            dx + bs >= top,
            sd > 0,
            sw > 0,
            sb > 0,
    {
        assert(sd * sw > 0);
        assert(sd * sw * sb > 0);
        assert((dx + bs) * (sd * sw * sb) >= top * (sd * sw * sb));
        assert((dx + bs) * (sd * sw * sb) == dx * (sd * sw * sb) + bs * (sd * sw * sb));
    }
}

/// A line at a point behind zero, whose product at the mirrored point was
/// rounded down and whose offset was rounded up, is not above what the rounded
/// line is not above.
proof fn lemma_lower_rounding(
    d: int,
    z: int,
    b: int,
    step: int,
    dx: int,
    bs: int,
    bottom: int,
    sd: int,
    sb: int,
    sw: int,
    sv: int,
)
    requires
        sd > 0 && sb > 0 && sw > 0 && sv >= 0,
        d * z >= step * sd,
        step * sv >= dx * sw,
        bs * sb >= b * sv,
        bottom + dx - bs >= 0,
    ensures
        (d * (-z) * sb + b * (sd * sw)) * sv <= bottom * (sd * sw * sb),
{
    assert((-b) * sv >= (-bs) * sb) by (nonlinear_arith)
        requires
            bs * sb >= b * sv,
    ;
    lemma_upper_rounding(d, z, -b, step, dx, -bs, -bottom, sd, sb, sw, sv);
    assert((d * (-z) * sb + b * (sd * sw)) * sv == -((d * z * sb + (-b) * (sd * sw)) * sv))
        by (nonlinear_arith);
    assert((-bottom) * (sd * sw * sb) == -(bottom * (sd * sw * sb))) by (nonlinear_arith);
}

// ---- When a line is accepted at an endpoint ----

/// Whether the rounded line keeps its side of the envelope at a preactivation,
/// by less than the range: the product is taken at the preactivations' scale,
/// then at the envelope's, and the offset at the envelope's, each rounded away
/// from the envelope.
pub open spec fn rounded_line_clears(
    pre: SigmaTables,
    kind: ActivationKind,
    line: SshapeLineKind,
    x: int,
    d: int,
    b: int,
    s_d: Scale,
    s_b: Scale,
    s_w: Scale,
    bits: nat,
) -> bool {
    let (sd, sb, sw) = (
        pow2(s_d.e as nat) as int,
        pow2(s_b.e as nat) as int,
        pow2(s_w.e as nat) as int,
    );
    let sv = pow2(pre.s_v_log2 as nat) as int;
    let at = x * (pow2((pre.s_x_log2 - s_w.e) as nat) as int);
    let bound = pow2(bits) as int;
    &&& abs_int(at) < bound
    &&& line is Upper ==> 0 <= (((d * x) / sd) * sv) / sw + (b * sv) / sb - upper_envelope_at(
        pre,
        kind,
        at,
    ) < bound
    &&& line is Lower ==> 0 <= lower_envelope_at(pre, kind, at) - ceil_quot(
        ceil_quot(d * x, sd) * sv,
        sw,
    ) - ceil_quot(b * sv, sb) < bound
}

/// The bound that a line of a kind must keep at an input, in the tables' steps.
pub open spec fn envelope_of_side(
    pre: SigmaTables,
    kind: ActivationKind,
    line: SshapeLineKind,
    x: int,
) -> int {
    if line is Upper {
        upper_envelope_at(pre, kind, x)
    } else {
        lower_envelope_at(pre, kind, x)
    }
}

/// Whether the tables have a readable row for an input, in the tables' steps.
pub open spec fn has_row(pre: SigmaTables, kind: ActivationKind, x: int) -> bool {
    let k = abs_int(x);
    if kind is Sigmoid {
        &&& k < pre.sigmoid_upper_fr@.len()
        &&& signed_of(pre.sigmoid_upper_fr@[k]@) is Some
        &&& signed_of(pre.sigmoid_lower_fr@[k]@) is Some
    } else {
        &&& k < pre.tanh_upper_fr@.len()
        &&& signed_of(pre.tanh_upper_fr@[k]@) is Some
        &&& signed_of(pre.tanh_lower_fr@[k]@) is Some
    }
}

/// Whether the preactivation has a row of the tables, and every number on the
/// way to the rounded line and its distance from the envelope fits an `i128`.
pub open spec fn line_computable(
    pre: SigmaTables,
    kind: ActivationKind,
    line: SshapeLineKind,
    x: int,
    d: int,
    b: int,
    s_d: Scale,
    s_b: Scale,
    s_w: Scale,
) -> bool {
    let (sd, sb, sw) = (
        pow2(s_d.e as nat) as int,
        pow2(s_b.e as nat) as int,
        pow2(s_w.e as nat) as int,
    );
    let sv = pow2(pre.s_v_log2 as nat) as int;
    let at = x * (pow2((pre.s_x_log2 - s_w.e) as nat) as int);
    let step = if line is Upper {
        (d * x) / sd
    } else {
        -((-(d * x)) / sd)
    };
    let dx = if line is Upper {
        (step * sv) / sw
    } else {
        -((-(step * sv)) / sw)
    };
    let bs = if line is Upper {
        (b * sv) / sb
    } else {
        -((-(b * sv)) / sb)
    };
    &&& fits(abs_int(x)) && fits(abs_int(at))
    &&& has_row(pre, kind, at)
    &&& fits(d * x) && fits(step * sd)
    &&& fits(step * sv) && fits(dx * sw)
    &&& fits(b * sv) && fits(bs * sb)
    &&& fits(dx + bs)
    &&& line is Upper ==> fits(dx + bs - envelope_of_side(pre, kind, line, at))
    &&& line is Lower ==> fits(envelope_of_side(pre, kind, line, at) - (dx + bs))
}

/// A cell has its integers, and they are in range, exactly where its line can
/// be computed and clears the envelope.
proof fn lemma_cell_exact(
    pre: SigmaTables,
    kind: ActivationKind,
    line: SshapeLineKind,
    x: int,
    d: int,
    b: int,
    s_d: Scale,
    s_b: Scale,
    s_w: Scale,
    bits: nat,
)
    requires
        pre.wf(),
        kind is Sigmoid || kind is Tanh,
        bits < 127,
        0 <= s_d.e <= bits && 0 <= s_b.e <= bits && 0 <= s_w.e <= bits,
        s_w.e <= pre.s_x_log2,
    ensures
        ({
            let cell = endpoint_cell(
                pre,
                kind,
                line,
                x,
                d,
                b,
                table_scale_codes(pre, s_d, s_b, s_w),
            );
            cell is Ok && cell_in_range(cell->Ok_0, pow2(bits) as int) <==> line_computable(
                pre,
                kind,
                line,
                x,
                d,
                b,
                s_d,
                s_b,
                s_w,
            ) && rounded_line_clears(pre, kind, line, x, d, b, s_d, s_b, s_w, bits)
        }),
{
    let s = table_scale_codes(pre, s_d, s_b, s_w);
    let (lower, upper) = envelope_tables(pre, kind)->Some_0;
    let ratio = pow2((pre.s_x_log2 - s_w.e) as nat) as int;
    lemma_pow2_pos((pre.s_x_log2 - s_w.e) as nat);
    lemma_pow2_pos(s_d.e as nat);
    lemma_pow2_pos(s_b.e as nat);
    lemma_pow2_pos(s_w.e as nat);
    lemma_pow2_within_126(bits);
    lemma_scale_within(s_d.e as nat, bits);
    lemma_scale_within(s_b.e as nat, bits);
    lemma_scale_within(s_w.e as nat, bits);
    let at = x * ratio;
    assert(abs_int(at) == abs_int(x) * ratio) by (nonlinear_arith)
        requires
            at == x * ratio,
            ratio > 0,
    {
        if x >= 0 {
            assert(x * ratio >= 0);
        } else {
            assert(x * ratio <= 0);
            assert((-x) * ratio == -(x * ratio));
        }
    }
    assert(x >= 0 <==> at >= 0) by (nonlinear_arith)
        requires
            at == x * ratio,
            ratio > 0,
    ;
    let k = abs_int(at);
    assert(upper.len() == lower.len());
    if k < upper.len() {
        let (up, lo) = (signed_of(upper[k])->Some_0 as int, signed_of(lower[k])->Some_0 as int);
        law_sigma_used_is_envelope(kind, line, up, lo, s.s_v);
    }
    let round_up = line is Lower;
    let step = split_step(round_up, d, x, s.s_d);
    lemma_quot_bounds(round_up, d * x, s.s_d);
    lemma_quot_bounds(round_up, step * s.s_v, s.s_w);
    lemma_quot_bounds(round_up, b * s.s_v, s.s_b);
    lemma_remainder_fits(round_up, d * x, s.s_d);
    lemma_remainder_fits(round_up, step * s.s_v, s.s_w);
    lemma_remainder_fits(round_up, b * s.s_v, s.s_b);
}

/// A smaller power of two is not above a larger one.
proof fn lemma_scale_within(e: nat, bits: nat)
    requires
        e <= bits,
    ensures
        pow2(e) <= pow2(bits),
{
    if e < bits {
        lemma_pow2_strictly_increases(e, bits);
    }
}

/// What a rounding drops is at least zero and less than the denominator.
proof fn lemma_quot_bounds(up: bool, n: int, d: int)
    requires
        d > 0,
    ensures
        0 <= quot_rem(up, n, d) < d,
{
    let m = if up {
        -n
    } else {
        n
    };
    vstd::arithmetic::div_mod::lemma_fundamental_div_mod(m, d);
    vstd::arithmetic::div_mod::lemma_mod_bound(m, d);
    let q = m / d;
    assert(d * q == q * d) by (nonlinear_arith);
    assert((-q) * d == -(q * d)) by (nonlinear_arith);
}

/// What a rounding drops fits where the quotient's product and the number do.
proof fn lemma_remainder_fits(up: bool, n: int, d: int)
    requires
        0 < d <= i128::MAX,
    ensures
        fits(n) && fits(quot(up, n, d) * d) ==> fits(quot_rem(up, n, d)) && fits(quot(up, n, d)),
{
    lemma_quot_bounds(up, n, d);
    let q = quot(up, n, d);
    assert(abs_int(q) <= abs_int(q * d)) by (nonlinear_arith)
        requires
            d >= 1,
    {
        if q >= 0 {
            assert(q * d >= q);
        } else {
            assert(q * d <= q);
        }
    }
}

/// The endpoint check accepts the cells of a line exactly where every scale is
/// a power of two within the range, the preactivations' is not finer than the
/// tables', the tables' first rows can be read, and every line can be computed
/// and clears the envelope, by less than the range.
pub proof fn law_accepted_cells(
    pre: SigmaTables,
    kind: ActivationKind,
    line: SshapeLineKind,
    preact: Seq<i128>,
    d: Seq<i128>,
    b: Seq<i128>,
    s_d: Scale,
    s_b: Scale,
    s_w: Scale,
    range_bits: nat,
)
    requires
        pre.wf(),
        kind is Sigmoid || kind is Tanh,
        range_bits < 127,
    ensures
        cells_verdict(pre, kind, line, preact, d, b, s_d, s_b, s_w, range_bits) is Ok <==> {
            &&& s_d.c == 1 && 0 <= s_d.e <= range_bits
            &&& s_b.c == 1 && 0 <= s_b.e <= range_bits
            &&& s_w.c == 1 && 0 <= s_w.e <= range_bits
            &&& s_w.e <= pre.s_x_log2
            &&& has_row(pre, kind, 0)
            &&& forall|j: int|
                0 <= j < preact.len() ==> {
                    let (x, dj, bj) = (#[trigger] preact[j] as int, d[j] as int, b[j] as int);
                    &&& line_computable(pre, kind, line, x, dj, bj, s_d, s_b, s_w)
                    &&& rounded_line_clears(
                        pre,
                        kind,
                        line,
                        x,
                        dj,
                        bj,
                        s_d,
                        s_b,
                        s_w,
                        range_bits,
                    )
                }
        },
{
    let s = table_scale_codes(pre, s_d, s_b, s_w);
    let n = preact.len();
    if scale_in(s_d, range_bits as int) && scale_in(s_b, range_bits as int) && scale_in(
        s_w,
        range_bits as int,
    ) && s_w.e <= pre.s_x_log2 {
        reveal(endpoint_error);
        lemma_scan_exact(pre, kind, line, preact, d, b, s, n, 0);
        assert forall|j: int| 0 <= j < n implies ({
            let (x, dj, bj) = (#[trigger] preact[j] as int, d[j] as int, b[j] as int);
            let cell = endpoint_cell(pre, kind, line, x, dj, bj, s);
            cell is Ok && cell_in_range(cell->Ok_0, pow2(range_bits) as int) <==> line_computable(
                pre,
                kind,
                line,
                x,
                dj,
                bj,
                s_d,
                s_b,
                s_w,
            ) && rounded_line_clears(pre, kind, line, x, dj, bj, s_d, s_b, s_w, range_bits)
        }) by {
            lemma_cell_exact(
                pre,
                kind,
                line,
                preact[j] as int,
                d[j] as int,
                b[j] as int,
                s_d,
                s_b,
                s_w,
                range_bits,
            );
        }
        let cells = endpoint_cells(pre, kind, line, preact, d, b, s, n);
        assert forall|j: int| 0 <= j < n implies (#[trigger] cells[j]) == endpoint_cell(
            pre,
            kind,
            line,
            preact[j] as int,
            d[j] as int,
            b[j] as int,
            s,
        )->Ok_0 by {}
        let accepted = cells_verdict(
            pre,
            kind,
            line,
            preact,
            d,
            b,
            s_d,
            s_b,
            s_w,
            range_bits,
        ) is Ok;
        if accepted {
            assert forall|j: int| 0 <= j < n implies ({
                let (x, dj, bj) = (#[trigger] preact[j] as int, d[j] as int, b[j] as int);
                &&& line_computable(pre, kind, line, x, dj, bj, s_d, s_b, s_w)
                &&& rounded_line_clears(pre, kind, line, x, dj, bj, s_d, s_b, s_w, range_bits)
            }) by {
                assert(cell_in_range(cells[j], pow2(range_bits) as int));
            }
        }
        let (lower, upper) = envelope_tables(pre, kind)->Some_0;
        lemma_table_sized(upper.len());
        assert(has_row(pre, kind, 0) <==> signed_of(upper[0]) is Some && signed_of(lower[0]) is Some);
        if has_row(pre, kind, 0) && forall|j: int|
            0 <= j < n ==> {
                let (x, dj, bj) = (#[trigger] preact[j] as int, d[j] as int, b[j] as int);
                &&& line_computable(pre, kind, line, x, dj, bj, s_d, s_b, s_w)
                &&& rounded_line_clears(pre, kind, line, x, dj, bj, s_d, s_b, s_w, range_bits)
            } {
            assert forall|j: int| 0 <= j < n implies cell_in_range(
                #[trigger] cells[j],
                pow2(range_bits) as int,
            ) by {
                assert(preact[j] == preact[j]);
            }
            assert(endpoint_scan(pre, kind, line, preact, d, b, s, n, 0) is None);
        }
    }
}

/// A table's length is at least four.
proof fn lemma_table_sized(len: nat)
    requires
        table_sized(len),
    ensures
        len >= 4,
{
    let k = choose|k: nat|
        2 <= k < 60 && #[trigger] pow2(k) == len && pow2(even_vars(k)) <= usize::MAX;
    vstd::arithmetic::power2::lemma2_to64();
    lemma_scale_within(2, k);
}

/// The cells from `i` on have no error exactly where each has its integers.
proof fn lemma_scan_exact(
    pre: SigmaTables,
    kind: ActivationKind,
    line: SshapeLineKind,
    preact: Seq<i128>,
    d: Seq<i128>,
    b: Seq<i128>,
    s: ScaleCodes,
    n: nat,
    i: nat,
)
    requires
        n == preact.len(),
    ensures
        endpoint_scan(pre, kind, line, preact, d, b, s, n, i) is None <==> forall|k: int|
            i <= k < n ==> endpoint_cell(
                pre,
                kind,
                line,
                #[trigger] preact[k] as int,
                d[k] as int,
                b[k] as int,
                s,
            ) is Ok,
    decreases n - i,
{
    if i < n {
        lemma_scan_exact(pre, kind, line, preact, d, b, s, n, i + 1);
        let first = endpoint_cell(
            pre,
            kind,
            line,
            preact[i as int] as int,
            d[i as int] as int,
            b[i as int] as int,
            s,
        );
        if first is Ok && endpoint_scan(pre, kind, line, preact, d, b, s, n, i + 1) is None {
            assert forall|k: int| i <= k < n implies endpoint_cell(
                pre,
                kind,
                line,
                #[trigger] preact[k] as int,
                d[k] as int,
                b[k] as int,
                s,
            ) is Ok by {
                if k > i {
                    assert(i + 1 <= k);
                }
            }
        }
    }
}

/// Whether a certificate has all that the endpoint check reads of a layer, and
/// the check accepts both lines at both ends of its preactivations.
pub open spec fn endpoints_accepted(
    kind: ActivationKind,
    cert: QuantCert,
    pre: SigmaTables,
    range_bits: nat,
    i: int,
) -> bool {
    &&& 1 <= i
    &&& i < cert.relaxations@.len() && cert.relaxations@[i] is Some
    &&& i - 1 < cert.preact_lower@.len() && cert.preact_lower@[i - 1] is Some
    &&& i - 1 < cert.preact_upper@.len() && cert.preact_upper@[i - 1] is Some
    &&& ({
        let r = cert.relaxations@[i]->Some_0;
        let (l, u) = (
            vector_codes(cert.preact_lower@[i - 1]->Some_0.codes),
            vector_codes(cert.preact_upper@[i - 1]->Some_0.codes),
        );
        let (du, bu) = (vector_codes(r.d_upper.codes), vector_codes(r.b_upper.codes));
        let (dl, bl) = (vector_codes(r.d_lower.codes), vector_codes(r.b_lower.codes));
        let (sdu, sbu) = (r.d_upper.scale, r.b_upper.scale);
        let (sdl, sbl) = (r.d_lower.scale, r.b_lower.scale);
        let w = cert.scales.working;
        let (up, lo) = (SshapeLineKind::Upper, SshapeLineKind::Lower);
        &&& cells_verdict(pre, kind, up, l, du, bu, sdu, sbu, w, range_bits) is Ok
        &&& cells_verdict(pre, kind, up, u, du, bu, sdu, sbu, w, range_bits) is Ok
        &&& cells_verdict(pre, kind, lo, l, dl, bl, sdl, sbl, w, range_bits) is Ok
        &&& cells_verdict(pre, kind, lo, u, dl, bl, sdl, sbl, w, range_bits) is Ok
    })
}

/// The endpoint check accepts a certificate exactly where it accepts both lines
/// at both ends for every sigmoid and every tanh layer; linear and ReLU layers
/// ask for nothing.
pub proof fn law_accepted_certificate(
    layers: Seq<LayerShape>,
    cert: QuantCert,
    pre: SigmaTables,
    range_bits: nat,
    from: nat,
)
    requires
        from <= layers.len(),
    ensures
        cert_verdict(layers, cert, pre, range_bits, from) is Ok <==> forall|i: int|
            from <= i < layers.len() ==> {
                &&& #[trigger] layers[i] == (LayerShape::Activation {
                    kind: ActivationKind::Sigmoid,
                }) ==> endpoints_accepted(ActivationKind::Sigmoid, cert, pre, range_bits, i)
                &&& layers[i] == (LayerShape::Activation { kind: ActivationKind::Tanh })
                    ==> endpoints_accepted(ActivationKind::Tanh, cert, pre, range_bits, i)
            },
    decreases layers.len() - from,
{
    if from < layers.len() {
        law_accepted_certificate(layers, cert, pre, range_bits, from + 1);
        let i = from as int;
        let wanted = {
            &&& layers[i] == (LayerShape::Activation { kind: ActivationKind::Sigmoid })
                ==> endpoints_accepted(ActivationKind::Sigmoid, cert, pre, range_bits, i)
            &&& layers[i] == (LayerShape::Activation { kind: ActivationKind::Tanh })
                ==> endpoints_accepted(ActivationKind::Tanh, cert, pre, range_bits, i)
        };
        assert(cert_layer_verdict(layers, cert, pre, range_bits, i) is Ok <==> wanted);
        if wanted && cert_verdict(layers, cert, pre, range_bits, from + 1) is Ok {
            assert forall|j: int| from <= j < layers.len() implies {
                &&& #[trigger] layers[j] == (LayerShape::Activation {
                    kind: ActivationKind::Sigmoid,
                }) ==> endpoints_accepted(ActivationKind::Sigmoid, cert, pre, range_bits, j)
                &&& layers[j] == (LayerShape::Activation { kind: ActivationKind::Tanh })
                    ==> endpoints_accepted(ActivationKind::Tanh, cert, pre, range_bits, j)
            } by {
                if j > i {
                    assert(from + 1 <= j);
                }
            }
        }
    }
}

} // verus!
