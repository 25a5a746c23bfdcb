//! Integer arithmetic for the S-shape (sigmoid and tanh) gadgets.
//!
//! * The envelope lookup reads a lower and an upper bound of the function from
//!   the tables over the non-negative half of its domain, by symmetry for a
//!   negative input.
//! * The critical-point search finds a table index where the function's finite
//!   differences match a line's slope.
//! * The split arithmetic evaluates a line at the envelope's scale by a chain
//!   of small divisions, each rounded to the safe side.

use crate::columns::{fits, lemma_pow2_126, pow2_i128};
use crate::field::{Fr, fr_to_signed_i128, signed_of, vals};
use crate::logup::{lower, upper};
use crate::network::ActivationKind;
use crate::params::SigmaTables;
use vstd::arithmetic::div_mod::{lemma_fundamental_div_mod, lemma_mod_bound};
use vstd::arithmetic::power2::{lemma_pow2_adds, lemma_pow2_pos, lemma_pow2_strictly_increases, pow2};
use vstd::prelude::*;

verus! {

/// Quantized numbers.
pub type Code = i128;

// ---- The envelope lookup ----

/// The lower and upper envelope tables of a function.
pub open spec fn envelope_tables(pre: SigmaTables, kind: ActivationKind) -> Option<
    (Seq<int>, Seq<int>),
> {
    match kind {
        ActivationKind::Sigmoid => Some((vals(pre.sigmoid_lower_fr@), vals(pre.sigmoid_upper_fr@))),
        ActivationKind::Tanh => Some((vals(pre.tanh_lower_fr@), vals(pre.tanh_upper_fr@))),
        ActivationKind::ReLU => None,
    }
}

/// The envelope at `-x` of a function with the envelope `(lo, up)` at `x`:
/// `sigma(-x) = 1 - sigma(x)` for the sigmoid, `tanh(-x) = -tanh(x)`.
pub open spec fn reflected(kind: ActivationKind, s_v: int, envelope: (int, int)) -> (int, int) {
    if kind is Sigmoid {
        (s_v - envelope.1, s_v - envelope.0)
    } else {
        (-envelope.1, -envelope.0)
    }
}

/// The envelope of a function at the input code `x`, which must lie strictly
/// between `-bound` and `bound` and inside the tables.
pub open spec fn envelope(pre: SigmaTables, kind: ActivationKind, x: int, bound: int) -> Option<
    (int, int),
> {
    match envelope_tables(pre, kind) {
        None => None,
        Some((lower, upper)) => {
            let k = if x >= 0 {
                x
            } else {
                -x
            };
            if k >= bound || k >= lower.len() {
                None
            } else {
                match (signed_of(lower[k]), signed_of(upper[k])) {
                    (Some(lo), Some(up)) => if x >= 0 {
                        Some((lo as int, up as int))
                    } else {
                        Some(
                            reflected(
                                kind,
                                pow2(pre.s_v_log2 as nat) as int,
                                (lo as int, up as int),
                            ),
                        )
                    },
                    _ => None,
                }
            }
        },
    }
}

/// The envelope at `-x` is the reflection of the envelope at `x`.
pub proof fn law_envelope_symmetry(pre: SigmaTables, kind: ActivationKind, x: int, bound: int)
    requires
        x != 0,
    ensures
        match envelope(pre, kind, x, bound) {
            None => envelope(pre, kind, -x, bound) is None,
            Some(e) => envelope(pre, kind, -x, bound) == Some(
                reflected(kind, pow2(pre.s_v_log2 as nat) as int, e),
            ),
        },
{
}

/// Look up the `(lower, upper)` envelope codes of a function at an input code.
/// Inputs at or beyond `bound_real` have none.
pub fn lookup_sigma_envelope(
    pre: &SigmaTables,
    kind: ActivationKind,
    x_int: i128,
    s_x_log2: i32,
    bound_real: i64,
) -> (r: Option<(i128, i128)>)
    requires
        pre.wf(),
        0 <= s_x_log2,
        bound_real * pow2(s_x_log2 as nat) <= i128::MAX,
    ensures
        match envelope(*pre, kind, x_int as int, bound_real * pow2(s_x_log2 as nat)) {
            None => r is None,
            Some((lo, up)) => r matches Some((l, u)) && l == lo && u == up,
        },
{
    if bound_real <= 0 {
        proof {
            lemma_pow2_pos(s_x_log2 as nat);
            assert(bound_real * pow2(s_x_log2 as nat) <= 0) by (nonlinear_arith)
                requires
                    bound_real <= 0,
                    pow2(s_x_log2 as nat) > 0,
            ;
        }
        return None;
    }
    proof {
        lemma_bound_exponent(bound_real as int, s_x_log2 as nat);
    }
    let s_x: i128 = pow2_i128(s_x_log2 as usize);
    let bound_int: i128 = (bound_real as i128) * s_x;
    if x_int >= bound_int || x_int <= -bound_int {
        return None;
    }
    let (lower_table, upper_table): (&Vec<Fr>, &Vec<Fr>) = match kind {
        ActivationKind::Sigmoid => (&pre.sigmoid_lower_fr, &pre.sigmoid_upper_fr),
        ActivationKind::Tanh => (&pre.tanh_lower_fr, &pre.tanh_upper_fr),
        ActivationKind::ReLU => {
            return None;
        },
    };
    let ghost (lv, uv) = envelope_tables(*pre, kind)->Some_0;
    assert(lv.len() == lower_table@.len() && uv.len() == upper_table@.len());
    let abs_x: i128 = if x_int >= 0 {
        x_int
    } else {
        -x_int
    };
    if abs_x >= lower_table.len() as i128 {
        return None;
    }
    let idx: usize = abs_x as usize;
    assert(lv[idx as int] == lower_table@[idx as int]@);
    assert(uv[idx as int] == upper_table@[idx as int]@);
    let lo: i128 = match fr_to_signed_i128(lower_table[idx]) {
        Some(v) => v,
        None => {
            return None;
        },
    };
    let up: i128 = match fr_to_signed_i128(upper_table[idx]) {
        Some(v) => v,
        None => {
            return None;
        },
    };
    if x_int >= 0 {
        return Some((lo, up));
    }
    match kind {
        ActivationKind::Sigmoid => {
            let s_v: i128 = pow2_i128(pre.s_v_log2 as usize);
            proof {
                lemma_pow2_within_126(pre.s_v_log2 as nat);
            }
            Some((s_v - up, s_v - lo))
        },
        ActivationKind::Tanh => Some((-up, -lo)),
        ActivationKind::ReLU => None,
    }
}

/// A positive multiple of a power of two that fits an `i128` has a small
/// exponent.
proof fn lemma_bound_exponent(bound: int, n: nat)
    requires
        bound > 0,
        bound * pow2(n) <= i128::MAX,
    ensures
        n < 127,
        0 < bound * pow2(n),
{
    lemma_pow2_pos(n);
    assert(pow2(n) <= bound * pow2(n)) by (nonlinear_arith)
        requires
            bound > 0,
            pow2(n) > 0,
    ;
    if n >= 127 {
        lemma_pow2_adds(63, 64);
        vstd::arithmetic::power2::lemma2_to64_rest();
        assert(0x8000_0000_0000_0000 * 0x1_0000_0000_0000_0000 > i128::MAX) by (nonlinear_arith);
        if n > 127 {
            lemma_pow2_strictly_increases(127, n);
        }
    }
}

/// The powers of two up to `2^126` stand in order.
pub proof fn lemma_pow2_within_126(n: nat)
    requires
        n <= 126,
    ensures
        1 <= pow2(n) <= 0x4000_0000_0000_0000_0000_0000_0000_0000,
{
    lemma_pow2_126();
    lemma_pow2_pos(n);
    if n < 126 {
        lemma_pow2_strictly_increases(n, 126);
    }
}

/// Small powers of two are far from an `i128`'s end.
pub proof fn lemma_pow2_60(n: nat)
    requires
        n <= 60,
    ensures
        1 <= pow2(n) <= 0x1000_0000_0000_0000,
{
    vstd::arithmetic::power2::lemma2_to64();
    vstd::arithmetic::power2::lemma2_to64_rest();
    lemma_pow2_pos(n);
    if n < 60 {
        lemma_pow2_strictly_increases(n, 60);
    }
}

// ---- The critical-point search ----

/// How far from its seed the critical point is searched for.
pub const NEARBY_Z_SEARCH_RADIUS: i128 = 16;

/// The slacks of the two finite-difference inequalities.
#[derive(Clone, Copy, Debug, PartialEq, Eq, Structural)]
pub struct FdSlopeMatchSlacks {
    pub slack_fd1: i128,
    pub slack_fd2: i128,
}

/// The margin of both inequalities, `4 s_d s_x`, which absorbs the envelope's
/// rounding.
pub fn fd_epsilon_crit(s_d: i128, s_x: i128) -> (r: Option<i128>)
    ensures
        r is Some <==> fits(s_d * s_x * 4),
        r matches Some(e) ==> e == s_d * s_x * 4,
{
    match s_d.checked_mul(s_x) {
        Some(p) => p.checked_mul(4),
        None => None,
    }
}

/// `(sigma_lower(z) - sigma_upper(z-1)) s_d s_x - d s_v + 4 s_d s_x`.
pub open spec fn fd1(lo_z: int, up_minus: int, d: int, s_d: int, s_x: int, s_v: int) -> int {
    (lo_z - up_minus) * (s_d * s_x) - d * s_v + s_d * s_x * 4
}

/// `d s_v - (sigma_upper(z+1) - sigma_lower(z)) s_d s_x + 4 s_d s_x`.
pub open spec fn fd2(lo_z: int, up_plus: int, d: int, s_d: int, s_x: int, s_v: int) -> int {
    d * s_v - (up_plus - lo_z) * (s_d * s_x) + s_d * s_x * 4
}

/// Whether both inequalities can be computed in `i128`.
pub open spec fn fd_fits(
    lo_z: int,
    up_minus: int,
    up_plus: int,
    d: int,
    s_d: int,
    s_x: int,
    s_v: int,
) -> bool {
    &&& fits(s_d * s_x * 4)
    &&& fits(lo_z - up_minus)
    &&& fits((lo_z - up_minus) * (s_d * s_x))
    &&& fits(up_plus - lo_z)
    &&& fits((up_plus - lo_z) * (s_d * s_x))
    &&& fits(d * s_v)
    &&& fits((lo_z - up_minus) * (s_d * s_x) - d * s_v)
    &&& fits(fd1(lo_z, up_minus, d, s_d, s_x, s_v))
    &&& fits(d * s_v - (up_plus - lo_z) * (s_d * s_x))
    &&& fits(fd2(lo_z, up_plus, d, s_d, s_x, s_v))
}

/// Whether the two inequalities hold at a table index: its lower envelope,
/// and the upper envelopes at its neighbours.
pub open spec fn slope_matches(
    lo_z: int,
    up_minus: int,
    up_plus: int,
    d: int,
    s_d: int,
    s_x: int,
    s_v: int,
) -> bool {
    &&& fd_fits(lo_z, up_minus, up_plus, d, s_d, s_x, s_v)
    &&& fd1(lo_z, up_minus, d, s_d, s_x, s_v) >= 0
    &&& fd2(lo_z, up_plus, d, s_d, s_x, s_v) >= 0
}

/// Compute the slacks of the two inequalities; none where one of them is
/// negative or out of range.
pub fn fd_slope_match_slacks(
    sigma_lo_z: i128,
    sigma_up_z_minus_delta: i128,
    sigma_up_z_plus_delta: i128,
    d_int: i128,
    s_d: i128,
    s_x: i128,
    s_v: i128,
) -> (r: Option<FdSlopeMatchSlacks>)
    ensures
        r is Some <==> slope_matches(
            sigma_lo_z as int,
            sigma_up_z_minus_delta as int,
            sigma_up_z_plus_delta as int,
            d_int as int,
            s_d as int,
            s_x as int,
            s_v as int,
        ),
        r matches Some(s) ==> {
            &&& s.slack_fd1 == fd1(
                sigma_lo_z as int,
                sigma_up_z_minus_delta as int,
                d_int as int,
                s_d as int,
                s_x as int,
                s_v as int,
            )
            &&& s.slack_fd2 == fd2(
                sigma_lo_z as int,
                sigma_up_z_plus_delta as int,
                d_int as int,
                s_d as int,
                s_x as int,
                s_v as int,
            )
        },
{
    let epsilon_crit: i128 = match fd_epsilon_crit(s_d, s_x) {
        Some(e) => e,
        None => {
            return None;
        },
    };
    let s_d_s_x: i128 = match s_d.checked_mul(s_x) {
        Some(p) => p,
        None => {
            return None;
        },
    };
    let lhs_fd1: i128 = match sigma_lo_z.checked_sub(sigma_up_z_minus_delta) {
        Some(v) => match v.checked_mul(s_d_s_x) {
            Some(w) => w,
            None => {
                return None;
            },
        },
        None => {
            return None;
        },
    };
    let lhs_fd2: i128 = match sigma_up_z_plus_delta.checked_sub(sigma_lo_z) {
        Some(v) => match v.checked_mul(s_d_s_x) {
            Some(w) => w,
            None => {
                return None;
            },
        },
        None => {
            return None;
        },
    };
    let rhs_fd: i128 = match d_int.checked_mul(s_v) {
        Some(v) => v,
        None => {
            return None;
        },
    };
    let slack_fd1: i128 = match lhs_fd1.checked_sub(rhs_fd) {
        Some(v) => match v.checked_add(epsilon_crit) {
            Some(w) => w,
            None => {
                return None;
            },
        },
        None => {
            return None;
        },
    };
    let slack_fd2: i128 = match rhs_fd.checked_sub(lhs_fd2) {
        Some(v) => match v.checked_add(epsilon_crit) {
            Some(w) => w,
            None => {
                return None;
            },
        },
        None => {
            return None;
        },
    };
    if slack_fd1 < 0 || slack_fd2 < 0 {
        return None;
    }
    Some(FdSlopeMatchSlacks { slack_fd1, slack_fd2 })
}

/// Whether the slope matches at the index `z`, which has both neighbours in
/// the table.
pub open spec fn slope_matches_at(
    lower: Seq<i128>,
    upper: Seq<i128>,
    d: int,
    s_d: int,
    s_x: int,
    s_v: int,
    z: int,
) -> bool {
    &&& 1 <= z <= lower.len() - 2
    &&& slope_matches(lower[z] as int, upper[z - 1] as int, upper[z + 1] as int, d, s_d, s_x, s_v)
}

/// The distance of two integers.
pub open spec fn distance(a: int, b: int) -> int {
    if a >= b {
        a - b
    } else {
        b - a
    }
}

/// The index closest to the seed, at a distance from `r` to the radius, at
/// which the slope matches; of two that are equally close, the smaller.
pub open spec fn nearest_match(
    lower: Seq<i128>,
    upper: Seq<i128>,
    d: int,
    s_d: int,
    s_x: int,
    s_v: int,
    seed: int,
    radius: int,
    r: int,
) -> Option<int>
    decreases radius - r + 1,
{
    if r > radius {
        None
    } else if slope_matches_at(lower, upper, d, s_d, s_x, s_v, seed - r) {
        Some(seed - r)
    } else if slope_matches_at(lower, upper, d, s_d, s_x, s_v, seed + r) {
        Some(seed + r)
    } else {
        nearest_match(lower, upper, d, s_d, s_x, s_v, seed, radius, r + 1)
    }
}

/// Search for the index closest to the seed, within the radius, at which the
/// slope matches; of two that are equally close, the smaller.
pub fn find_strict_z_code(
    sigma_lower: &[i128],
    sigma_upper: &[i128],
    d_int: i128,
    s_d: i128,
    s_x: i128,
    s_v: i128,
    z_initial_code: i128,
    radius: i128,
) -> (r: Option<i128>)
    requires
        sigma_upper@.len() >= sigma_lower@.len(),
        radius >= 0 ==> fits(z_initial_code + radius) && fits(z_initial_code - radius),
    ensures
        match nearest_match(
            sigma_lower@,
            sigma_upper@,
            d_int as int,
            s_d as int,
            s_x as int,
            s_v as int,
            z_initial_code as int,
            radius as int,
            0,
        ) {
            None => r is None,
            Some(c) => r matches Some(x) && x == c,
        },
        match r {
            None => forall|z: int|
                distance(z, z_initial_code as int) <= radius ==> !(#[trigger] slope_matches_at(
                    sigma_lower@,
                    sigma_upper@,
                    d_int as int,
                    s_d as int,
                    s_x as int,
                    s_v as int,
                    z,
                )),
            Some(c) => {
                &&& slope_matches_at(
                    sigma_lower@,
                    sigma_upper@,
                    d_int as int,
                    s_d as int,
                    s_x as int,
                    s_v as int,
                    c as int,
                )
                &&& distance(c as int, z_initial_code as int) <= radius
                &&& forall|z: int| #[trigger]
                    slope_matches_at(
                        sigma_lower@,
                        sigma_upper@,
                        d_int as int,
                        s_d as int,
                        s_x as int,
                        s_v as int,
                        z,
                    ) ==> {
                        let dc = distance(c as int, z_initial_code as int);
                        let dz = distance(z, z_initial_code as int);
                        dc < dz || (dc == dz && c <= z)
                    }
            },
        },
{
    let table_len: i128 = sigma_lower.len() as i128;
    if radius < 0 {
        return None;
    }
    if table_len < 3 {
        proof {
            lemma_no_match(
                sigma_lower@,
                sigma_upper@,
                d_int as int,
                s_d as int,
                s_x as int,
                s_v as int,
                z_initial_code as int,
                radius as int,
                0,
            );
        }
        return None;
    }
    let hi_bound: i128 = table_len - 2;
    let mut r: i128 = 0;
    loop
        invariant
            table_len == sigma_lower@.len(),
            sigma_upper@.len() >= sigma_lower@.len(),
            hi_bound == table_len - 2,
            table_len >= 3,
            0 <= r <= radius,
            fits(z_initial_code + radius),
            fits(z_initial_code - radius),
            nearest_match(
                sigma_lower@,
                sigma_upper@,
                d_int as int,
                s_d as int,
                s_x as int,
                s_v as int,
                z_initial_code as int,
                radius as int,
                0,
            ) == nearest_match(
                sigma_lower@,
                sigma_upper@,
                d_int as int,
                s_d as int,
                s_x as int,
                s_v as int,
                z_initial_code as int,
                radius as int,
                r as int,
            ),
            forall|z: int|
                distance(z, z_initial_code as int) < r ==> !(#[trigger] slope_matches_at(
                    sigma_lower@,
                    sigma_upper@,
                    d_int as int,
                    s_d as int,
                    s_x as int,
                    s_v as int,
                    z,
                )),
        ensures
            nearest_match(
                sigma_lower@,
                sigma_upper@,
                d_int as int,
                s_d as int,
                s_x as int,
                s_v as int,
                z_initial_code as int,
                radius as int,
                0,
            ) is None,
            forall|z: int|
                distance(z, z_initial_code as int) <= radius ==> !(#[trigger] slope_matches_at(
                    sigma_lower@,
                    sigma_upper@,
                    d_int as int,
                    s_d as int,
                    s_x as int,
                    s_v as int,
                    z,
                )),
        decreases radius - r,
    {
        let below: i128 = z_initial_code - r;
        if r > 0 && below >= 1 && below <= hi_bound {
            let zi: usize = below as usize;
            if fd_slope_match_slacks(
                sigma_lower[zi],
                sigma_upper[zi - 1],
                sigma_upper[zi + 1],
                d_int,
                s_d,
                s_x,
                s_v,
            ).is_some() {
                return Some(below);
            }
        }
        let above: i128 = z_initial_code + r;
        if above >= 1 && above <= hi_bound {
            let zi: usize = above as usize;
            if fd_slope_match_slacks(
                sigma_lower[zi],
                sigma_upper[zi - 1],
                sigma_upper[zi + 1],
                d_int,
                s_d,
                s_x,
                s_v,
            ).is_some() {
                return Some(above);
            }
        }
        if r == radius {
            assert(nearest_match(
                sigma_lower@,
                sigma_upper@,
                d_int as int,
                s_d as int,
                s_x as int,
                s_v as int,
                z_initial_code as int,
                radius as int,
                r + 1,
            ) is None);
            break;
        }
        r += 1;
    }
    None
}

/// A table without inner indices has no match.
proof fn lemma_no_match(
    lower: Seq<i128>,
    upper: Seq<i128>,
    d: int,
    s_d: int,
    s_x: int,
    s_v: int,
    seed: int,
    radius: int,
    r: int,
)
    requires
        lower.len() < 3,
    ensures
        nearest_match(lower, upper, d, s_d, s_x, s_v, seed, radius, r) is None,
    decreases radius - r + 1,
{
    if r <= radius {
        lemma_no_match(lower, upper, d, s_d, s_x, s_v, seed, radius, r + 1);
    }
}

/// A match that was found is one.
pub proof fn lemma_nearest_matches(
    lower: Seq<i128>,
    upper: Seq<i128>,
    d: int,
    s_d: int,
    s_x: int,
    s_v: int,
    seed: int,
    radius: int,
    r: int,
)
    ensures
        nearest_match(lower, upper, d, s_d, s_x, s_v, seed, radius, r) matches Some(z)
            ==> slope_matches_at(lower, upper, d, s_d, s_x, s_v, z),
    decreases radius - r + 1,
{
    if r <= radius {
        lemma_nearest_matches(lower, upper, d, s_d, s_x, s_v, seed, radius, r + 1);
    }
}

// ---- The split arithmetic ----

/// The quotient rounded up.
pub open spec fn ceil_quot(n: int, d: int) -> int {
    -((-n) / d)
}

/// Division rounded down; none where the denominator is not positive.
pub fn floor_div(numerator: Code, denominator: Code) -> (r: Option<Code>)
    ensures
        r is Some <==> denominator > 0,
        r matches Some(q) ==> {
            &&& q == numerator as int / denominator as int
            &&& 0 <= numerator - q * denominator < denominator
        },
{
    if denominator <= 0 {
        return None;
    }
    let q: Option<Code> = numerator.checked_div_euclid(denominator);
    proof {
        lemma_floor(numerator as int, denominator as int);
    }
    q
}

/// Division rounded up; none where the denominator is not positive.
pub fn ceil_div(numerator: Code, denominator: Code) -> (r: Option<Code>)
    ensures
        r is Some <==> denominator > 0,
        r matches Some(q) ==> {
            &&& q == ceil_quot(numerator as int, denominator as int)
            &&& 0 <= q * denominator - numerator < denominator
        },
{
    if denominator <= 0 {
        return None;
    }
    proof {
        lemma_floor(numerator as int, denominator as int);
        lemma_ceil(numerator as int, denominator as int);
    }
    let q: Code = match numerator.checked_div_euclid(denominator) {
        Some(q) => q,
        None => {
            return None;
        },
    };
    let rem: Option<Code> = numerator.checked_rem_euclid(denominator);
    match rem {
        Some(rem) => if rem > 0 {
            Some(q + 1)
        } else {
            Some(q)
        },
        None => None,
    }
}

/// What division by a positive denominator gives.
pub proof fn lemma_floor(n: int, d: int)
    requires
        d > 0,
    ensures
        0 <= n - (n / d) * d < d,
        n % d == n - (n / d) * d,
        n >= 0 ==> 0 <= n / d <= n,
        n < 0 ==> n <= n / d < 0,
{
    lemma_fundamental_div_mod(n, d);
    lemma_mod_bound(n, d);
    let q = n / d;
    assert(d * q == q * d) by (nonlinear_arith);
    if n >= 0 {
        assert(q >= 0) by (nonlinear_arith)
            requires
                d > 0,
                n >= 0,
                n - q * d < d,
        ;
        assert(q <= n) by (nonlinear_arith)
            requires
                d > 0,
                q >= 0,
                n - q * d >= 0,
        ;
    } else {
        assert(q < 0) by (nonlinear_arith)
            requires
                d > 0,
                n < 0,
                n - q * d >= 0,
        ;
        assert(n <= q) by (nonlinear_arith)
            requires
                d > 0,
                n < 0,
                q < 0,
                n - q * d < d,
        ;
    }
}

/// Rounding up is rounding down, plus one where there is a remainder.
pub proof fn lemma_ceil(n: int, d: int)
    requires
        d > 0,
    ensures
        0 <= ceil_quot(n, d) * d - n < d,
        ceil_quot(n, d) == if n % d > 0 {
            n / d + 1
        } else {
            n / d
        },
        n % d > 0 && n > 0 ==> n / d < n,
{
    lemma_floor(n, d);
    lemma_floor(-n, d);
    let q = n / d;
    let p = (-n) / d;
    let k = -p;
    assert(k * d == -(p * d)) by (nonlinear_arith)
        requires
            k == -p,
    ;
    assert(k == q || k == q + 1) by (nonlinear_arith)
        requires
            d > 0,
            0 <= n - q * d < d,
            0 <= k * d - n < d,
    ;
    if n % d > 0 {
        assert(k != q);
        assert(q * d < n);
        if n > 0 {
            assert(d > 1) by {
                if d == 1 {
                    assert(q * d == q);
                }
            }
            assert(q < n) by (nonlinear_arith)
                requires
                    d > 1,
                    q >= 0,
                    n > 0,
                    q * d < n,
            ;
        }
    } else {
        assert(q * d == n);
        assert((q + 1) * d == q * d + d) by (nonlinear_arith);
    }
}

/// The line's value at the envelope's scale, in a chain of floored divisions:
/// never above the true value.
#[derive(Clone, Copy, Debug, PartialEq, Eq, Structural)]
pub struct UpperLineSplitWitness {
    pub dx_step_1: Code,
    pub dx_step_1_rem: Code,
    pub dx_sigma_code: Code,
    pub dx_sigma_rem: Code,
    pub b_sigma_code: Code,
    pub b_sigma_rem: Code,
    pub line_sigma_code: Code,
    /// By how much the line is above the upper envelope.
    pub diff: Code,
}

/// The line's value at the envelope's scale, in a chain of divisions that
/// round up: never below the true value.
#[derive(Clone, Copy, Debug, PartialEq, Eq, Structural)]
pub struct LowerLineSplitWitness {
    pub dx_step_1: Code,
    pub dx_step_1_rem: Code,
    pub dx_sigma_code: Code,
    pub dx_sigma_rem: Code,
    pub b_sigma_code: Code,
    pub b_sigma_rem: Code,
    pub line_sigma_code: Code,
    /// By how much the line is below the lower envelope.
    pub diff: Code,
}

/// The quotient, rounded up or down.
pub open spec fn quot(up: bool, n: int, d: int) -> int {
    if up {
        ceil_quot(n, d)
    } else {
        n / d
    }
}

/// What the rounding of a quotient adds or drops; never negative.
pub open spec fn quot_rem(up: bool, n: int, d: int) -> int {
    if up {
        ceil_quot(n, d) * d - n
    } else {
        n - (n / d) * d
    }
}

/// The product `d x` at scale `s_w`.
pub open spec fn split_step(up: bool, d: int, x: int, s_d: int) -> int {
    quot(up, d * x, s_d)
}

/// The product `d x` at the envelope's scale.
pub open spec fn split_dx(up: bool, d: int, x: int, s_d: int, s_w: int, s_v: int) -> int {
    quot(up, split_step(up, d, x, s_d) * s_v, s_w)
}

/// The offset `b` at the envelope's scale.
pub open spec fn split_b(up: bool, b: int, s_b: int, s_v: int) -> int {
    quot(up, b * s_v, s_b)
}

/// The line at the envelope's scale.
pub open spec fn split_line(
    up: bool,
    d: int,
    x: int,
    b: int,
    s_d: int,
    s_b: int,
    s_w: int,
    s_v: int,
) -> int {
    split_dx(up, d, x, s_d, s_w, s_v) + split_b(up, b, s_b, s_v)
}

/// By how much the line is on the safe side of an envelope code.
pub open spec fn split_diff(
    up: bool,
    d: int,
    x: int,
    b: int,
    sigma: int,
    s_d: int,
    s_b: int,
    s_w: int,
    s_v: int,
) -> int {
    if up {
        sigma - split_line(up, d, x, b, s_d, s_b, s_w, s_v)
    } else {
        split_line(up, d, x, b, s_d, s_b, s_w, s_v) - sigma
    }
}

/// Whether the scales are positive and every step can be computed in `i128`.
pub open spec fn split_fits(
    up: bool,
    d: int,
    x: int,
    b: int,
    sigma: int,
    s_d: int,
    s_b: int,
    s_w: int,
    s_v: int,
) -> bool {
    let step = split_step(up, d, x, s_d);
    let dx = split_dx(up, d, x, s_d, s_w, s_v);
    let bs = split_b(up, b, s_b, s_v);
    &&& s_d > 0
    &&& s_w > 0
    &&& s_b > 0
    &&& fits(d * x)
    &&& fits(step * s_d)
    &&& fits(step * s_v)
    &&& fits(dx * s_w)
    &&& fits(b * s_v)
    &&& fits(bs * s_b)
    &&& fits(dx + bs)
    &&& fits(split_diff(up, d, x, b, sigma, s_d, s_b, s_w, s_v))
}

/// A quotient and what its rounding adds or drops, where both can be computed.
fn divide(up: bool, n: Code, d: Code) -> (r: Option<(Code, Code)>)
    ensures
        r is Some <==> d > 0 && fits(quot(up, n as int, d as int) * d),
        r matches Some((q, rem)) ==> {
            &&& q == quot(up, n as int, d as int)
            &&& rem == quot_rem(up, n as int, d as int)
            &&& 0 <= rem < d
        },
{
    let q: Code = match if up {
        ceil_div(n, d)
    } else {
        floor_div(n, d)
    } {
        Some(q) => q,
        None => {
            return None;
        },
    };
    let p: Code = match q.checked_mul(d) {
        Some(p) => p,
        None => {
            return None;
        },
    };
    if up {
        Some((q, p - n))
    } else {
        Some((q, n - p))
    }
}

/// Compute the split of an upper line at an input.
pub fn split_line_witnesses_upper(
    d_code: Code,
    x_code: Code,
    b_code: Code,
    sigma_upper_code: Code,
    s_d: Code,
    s_b: Code,
    s_w: Code,
    s_v: Code,
) -> (r: Option<UpperLineSplitWitness>)
    ensures
        r is Some <==> split_fits(
            false,
            d_code as int,
            x_code as int,
            b_code as int,
            sigma_upper_code as int,
            s_d as int,
            s_b as int,
            s_w as int,
            s_v as int,
        ),
        r matches Some(w) ==> {
            let step = split_step(false, d_code as int, x_code as int, s_d as int);
            &&& w.dx_step_1 == step
            &&& w.dx_step_1_rem == quot_rem(false, d_code * x_code, s_d as int)
            &&& 0 <= w.dx_step_1_rem < s_d
            &&& w.dx_sigma_code == quot(false, step * s_v, s_w as int)
            &&& w.dx_sigma_rem == quot_rem(false, step * s_v, s_w as int)
            &&& 0 <= w.dx_sigma_rem < s_w
            &&& w.b_sigma_code == split_b(false, b_code as int, s_b as int, s_v as int)
            &&& w.b_sigma_rem == quot_rem(false, b_code * s_v, s_b as int)
            &&& 0 <= w.b_sigma_rem < s_b
            &&& w.line_sigma_code == w.dx_sigma_code + w.b_sigma_code
            &&& w.diff == w.line_sigma_code - sigma_upper_code
        },
{
    let dx: Code = match d_code.checked_mul(x_code) {
        Some(v) => v,
        None => {
            return None;
        },
    };
    let (dx_step_1, dx_step_1_rem): (Code, Code) = match divide(false, dx, s_d) {
        Some(v) => v,
        None => {
            return None;
        },
    };
    let dx_step_1_sv: Code = match dx_step_1.checked_mul(s_v) {
        Some(v) => v,
        None => {
            return None;
        },
    };
    let (dx_sigma_code, dx_sigma_rem): (Code, Code) = match divide(false, dx_step_1_sv, s_w) {
        Some(v) => v,
        None => {
            return None;
        },
    };
    let b_sv: Code = match b_code.checked_mul(s_v) {
        Some(v) => v,
        None => {
            return None;
        },
    };
    let (b_sigma_code, b_sigma_rem): (Code, Code) = match divide(false, b_sv, s_b) {
        Some(v) => v,
        None => {
            return None;
        },
    };
    let line_sigma_code: Code = match dx_sigma_code.checked_add(b_sigma_code) {
        Some(v) => v,
        None => {
            return None;
        },
    };
    let diff: Code = match line_sigma_code.checked_sub(sigma_upper_code) {
        Some(v) => v,
        None => {
            return None;
        },
    };
    Some(
        UpperLineSplitWitness {
            dx_step_1,
            dx_step_1_rem,
            dx_sigma_code,
            dx_sigma_rem,
            b_sigma_code,
            b_sigma_rem,
            line_sigma_code,
            diff,
        },
    )
}

/// Compute the split of a lower line at an input.
pub fn split_line_witnesses_lower(
    d_code: Code,
    x_code: Code,
    b_code: Code,
    sigma_lower_code: Code,
    s_d: Code,
    s_b: Code,
    s_w: Code,
    s_v: Code,
) -> (r: Option<LowerLineSplitWitness>)
    ensures
        r is Some <==> split_fits(
            true,
            d_code as int,
            x_code as int,
            b_code as int,
            sigma_lower_code as int,
            s_d as int,
            s_b as int,
            s_w as int,
            s_v as int,
        ),
        r matches Some(w) ==> {
            let step = split_step(true, d_code as int, x_code as int, s_d as int);
            &&& w.dx_step_1 == step
            &&& w.dx_step_1_rem == quot_rem(true, d_code * x_code, s_d as int)
            &&& 0 <= w.dx_step_1_rem < s_d
            &&& w.dx_sigma_code == quot(true, step * s_v, s_w as int)
            &&& w.dx_sigma_rem == quot_rem(true, step * s_v, s_w as int)
            &&& 0 <= w.dx_sigma_rem < s_w
            &&& w.b_sigma_code == split_b(true, b_code as int, s_b as int, s_v as int)
            &&& w.b_sigma_rem == quot_rem(true, b_code * s_v, s_b as int)
            &&& 0 <= w.b_sigma_rem < s_b
            &&& w.line_sigma_code == w.dx_sigma_code + w.b_sigma_code
            &&& w.diff == sigma_lower_code - w.line_sigma_code
        },
{
    let dx: Code = match d_code.checked_mul(x_code) {
        Some(v) => v,
        None => {
            return None;
        },
    };
    let (dx_step_1, dx_step_1_rem): (Code, Code) = match divide(true, dx, s_d) {
        Some(v) => v,
        None => {
            return None;
        },
    };
    let dx_step_1_sv: Code = match dx_step_1.checked_mul(s_v) {
        Some(v) => v,
        None => {
            return None;
        },
    };
    let (dx_sigma_code, dx_sigma_rem): (Code, Code) = match divide(true, dx_step_1_sv, s_w) {
        Some(v) => v,
        None => {
            return None;
        },
    };
    let b_sv: Code = match b_code.checked_mul(s_v) {
        Some(v) => v,
        None => {
            return None;
        },
    };
    let (b_sigma_code, b_sigma_rem): (Code, Code) = match divide(true, b_sv, s_b) {
        Some(v) => v,
        None => {
            return None;
        },
    };
    let line_sigma_code: Code = match dx_sigma_code.checked_add(b_sigma_code) {
        Some(v) => v,
        None => {
            return None;
        },
    };
    let diff: Code = match sigma_lower_code.checked_sub(line_sigma_code) {
        Some(v) => v,
        None => {
            return None;
        },
    };
    Some(
        LowerLineSplitWitness {
            dx_step_1,
            dx_step_1_rem,
            dx_sigma_code,
            dx_sigma_rem,
            b_sigma_code,
            b_sigma_rem,
            line_sigma_code,
            diff,
        },
    )
}

/// The line's true value at the envelope's scale, times `s_d s_w s_b`.
pub open spec fn line_scaled(
    d: int,
    x: int,
    b: int,
    s_d: int,
    s_b: int,
    s_w: int,
    s_v: int,
) -> int {
    (d * x * s_v) * s_b + (b * s_v) * (s_d * s_w)
}

/// A line whose three roundings all go one way is off the line that way: its
/// code, and a bound that it keeps, are not below the line where they go up,
/// and not above it where they go down.
pub proof fn lemma_rounded_line(
    up: bool,
    d: int,
    x: int,
    b: int,
    step: int,
    dx: int,
    bs: int,
    sigma: int,
    s_d: int,
    s_b: int,
    s_w: int,
    s_v: int,
)
    requires
        s_d > 0,
        s_b > 0,
        s_w > 0,
        s_v >= 0,
        up ==> step * s_d >= d * x && dx * s_w >= step * s_v && bs * s_b >= b * s_v,
        !up ==> step * s_d <= d * x && dx * s_w <= step * s_v && bs * s_b <= b * s_v,
    ensures
        up ==> (dx + bs) * (s_d * s_w * s_b) >= line_scaled(d, x, b, s_d, s_b, s_w, s_v),
        !up ==> (dx + bs) * (s_d * s_w * s_b) <= line_scaled(d, x, b, s_d, s_b, s_w, s_v),
        up && sigma >= dx + bs ==> sigma * (s_d * s_w * s_b) >= line_scaled(
            d,
            x,
            b,
            s_d,
            s_b,
            s_w,
            s_v,
        ),
        !up && sigma <= dx + bs ==> sigma * (s_d * s_w * s_b) <= line_scaled(
            d,
            x,
            b,
            s_d,
            s_b,
            s_w,
            s_v,
        ),
{
    let line = dx + bs;
    let k = s_d * s_w * s_b;
    assert(k > 0) by (nonlinear_arith)
        requires
            k == s_d * s_w * s_b,
            s_d > 0,
            s_w > 0,
            s_b > 0,
    ;
    // Each rounding, scaled to the common denominator.
    let e1 = step * s_d - d * x;
    let e2 = dx * s_w - step * s_v;
    let e3 = bs * s_b - b * s_v;
    assert(line * k - line_scaled(d, x, b, s_d, s_b, s_w, s_v) == e2 * (s_d * s_b) + e1 * (s_v
        * s_b) + e3 * (s_d * s_w)) by {
        assert(line * k == (dx * s_w) * (s_d * s_b) + (bs * s_b) * (s_d * s_w)) by (nonlinear_arith)
            requires
                line == dx + bs,
                k == s_d * s_w * s_b,
        ;
        assert(e2 * (s_d * s_b) == (dx * s_w) * (s_d * s_b) - (step * s_v) * (s_d * s_b))
            by (nonlinear_arith)
            requires
                e2 == dx * s_w - step * s_v,
        ;
        assert(e1 * (s_v * s_b) == (step * s_d) * (s_v * s_b) - (d * x) * (s_v * s_b))
            by (nonlinear_arith)
            requires
                e1 == step * s_d - d * x,
        ;
        assert(e3 * (s_d * s_w) == (bs * s_b) * (s_d * s_w) - (b * s_v) * (s_d * s_w))
            by (nonlinear_arith)
            requires
                e3 == bs * s_b - b * s_v,
        ;
        assert((step * s_v) * (s_d * s_b) == (step * s_d) * (s_v * s_b)) by (nonlinear_arith);
        assert((d * x) * (s_v * s_b) == (d * x * s_v) * s_b) by (nonlinear_arith);
    }
    let (w1, w2, w3) = (s_v * s_b, s_d * s_b, s_d * s_w);
    assert(w1 >= 0 && w2 >= 0 && w3 >= 0) by (nonlinear_arith)
        requires
            w1 == s_v * s_b,
            w2 == s_d * s_b,
            w3 == s_d * s_w,
            s_v >= 0,
            s_b > 0,
            s_d > 0,
            s_w > 0,
    ;
    if up {
        assert(e1 * w1 >= 0) by (nonlinear_arith)
            requires
                e1 >= 0,
                w1 >= 0,
        ;
        assert(e2 * w2 >= 0) by (nonlinear_arith)
            requires
                e2 >= 0,
                w2 >= 0,
        ;
        assert(e3 * w3 >= 0) by (nonlinear_arith)
            requires
                e3 >= 0,
                w3 >= 0,
        ;
        if sigma >= line {
            assert(sigma * k >= line * k) by (nonlinear_arith)
                requires
                    sigma >= line,
                    k > 0,
            ;
        }
    } else {
        assert(e1 * w1 <= 0) by (nonlinear_arith)
            requires
                e1 <= 0,
                w1 >= 0,
        ;
        assert(e2 * w2 <= 0) by (nonlinear_arith)
            requires
                e2 <= 0,
                w2 >= 0,
        ;
        assert(e3 * w3 <= 0) by (nonlinear_arith)
            requires
                e3 <= 0,
                w3 >= 0,
        ;
        if sigma <= line {
            assert(sigma * k <= line * k) by (nonlinear_arith)
                requires
                    sigma <= line,
                    k > 0,
            ;
        }
    }
}

/// A line's split never exceeds the line where it rounds down, and never falls
/// below it where it rounds up. So an upper line whose split is not below an
/// upper envelope code is not below it, and a lower line whose split is not
/// above a lower envelope code is not above it.
pub proof fn law_split_is_conservative(
    up: bool,
    d: int,
    x: int,
    b: int,
    sigma: int,
    s_d: int,
    s_b: int,
    s_w: int,
    s_v: int,
)
    requires
        s_d > 0,
        s_b > 0,
        s_w > 0,
        s_v >= 0,
    ensures
        up ==> split_line(up, d, x, b, s_d, s_b, s_w, s_v) * (s_d * s_w * s_b) >= line_scaled(
            d,
            x,
            b,
            s_d,
            s_b,
            s_w,
            s_v,
        ),
        !up ==> split_line(up, d, x, b, s_d, s_b, s_w, s_v) * (s_d * s_w * s_b) <= line_scaled(
            d,
            x,
            b,
            s_d,
            s_b,
            s_w,
            s_v,
        ),
        split_diff(up, d, x, b, sigma, s_d, s_b, s_w, s_v) >= 0 ==> {
            if up {
                sigma * (s_d * s_w * s_b) >= line_scaled(d, x, b, s_d, s_b, s_w, s_v)
            } else {
                sigma * (s_d * s_w * s_b) <= line_scaled(d, x, b, s_d, s_b, s_w, s_v)
            }
        },
{
    let step = split_step(up, d, x, s_d);
    let dx = split_dx(up, d, x, s_d, s_w, s_v);
    let bs = split_b(up, b, s_b, s_v);
    lemma_floor(d * x, s_d);
    lemma_ceil(d * x, s_d);
    lemma_floor(step * s_v, s_w);
    lemma_ceil(step * s_v, s_w);
    lemma_floor(b * s_v, s_b);
    lemma_ceil(b * s_v, s_b);
    lemma_rounded_line(up, d, x, b, step, dx, bs, sigma, s_d, s_b, s_w, s_v);
}

} // verus!
