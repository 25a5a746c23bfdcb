//! Integer witnesses of the S-shape critical-point gadget.

use crate::column_set::codes_of;
use crate::columns::{decoded, even_vars, fits, lemma_pow2_126, pow2_i128};
use crate::envelope::sigma_tables;
use crate::errors::SnarkError;
use crate::expr::max_nat;
use crate::field::{Fr, fr_to_signed_i128, signed_of, vals};
use crate::logup::{lower, upper};
use crate::network::ActivationKind;
use crate::params::SigmaTables;
use crate::scale::Scale;
use crate::sshape_helpers::{
    NEARBY_Z_SEARCH_RADIUS, ceil_div, envelope_tables, fd1, fd2, fd_slope_match_slacks,
    find_strict_z_code, floor_div, lemma_floor, nearest_match, quot, quot_rem, slope_matches_at,
};
use crate::sshape_witness::{SshapeLineKind, activation_label, activation_name, scale_in};
use vstd::arithmetic::power2::{lemma_pow2_pos, lemma_pow2_strictly_increases, lemma_pow2_unfold, pow2};
use vstd::prelude::*;

verus! {

/// The integers of one neuron.
#[derive(Clone, Copy, Debug, PartialEq, Eq, Structural)]
pub struct NeuronWitness {
    /// The critical-point index.
    pub z: i128,
    pub sigma_lo_z: i128,
    pub sigma_up_z: i128,
    pub sigma_lo_zmd: i128,
    pub sigma_up_zmd: i128,
    pub sigma_lo_zpd: i128,
    pub sigma_up_zpd: i128,
    pub slack_fd1: i128,
    pub slack_fd2: i128,
    pub slack_fd1_high: i128,
    pub slack_fd1_low: i128,
    pub slack_fd2_high: i128,
    pub slack_fd2_low: i128,
    /// `u - z` for an upper line, `-z - l` for a lower one.
    pub factor_a: i128,
    /// The gap between the line and the function at the critical point.
    pub factor_b: i128,
    pub dz_step_1: i128,
    pub dz_step_1_rem: i128,
    pub dz_sigma_code: i128,
    pub dz_sigma_rem: i128,
    pub b_sigma_code: i128,
    pub b_sigma_rem: i128,
    /// `1` where the slope is not zero.
    pub is_active: i128,
    /// `1` where the critical point is inside the interval.
    pub inside_bit: i128,
    /// `factor_a` where it is not negative, and `-factor_a - 1` where it is.
    pub slack_pos: i128,
    pub slack_pos_high: i128,
    pub slack_pos_low: i128,
    /// `factor_b` where the critical point is inside the interval, else `0`.
    pub gated_gap: i128,
    pub gated_gap_high: i128,
    pub gated_gap_low: i128,
}

/// Whether the slope's scale is a power of two that fits the range table.
pub fn fd_scale_precondition_holds(s_d: Scale, s_w: Scale, range_bits: usize) -> (r: bool)
    requires
        range_bits <= i32::MAX,
    ensures
        r == scale_in(s_d, range_bits as int),
{
    let s_d_e: i32 = match s_d.pow2_exponent() {
        Ok(e) => e,
        Err(_) => {
            return false;
        },
    };
    if s_d_e < 0 {
        return false;
    }
    let bits: i32 = range_bits as i32;
    s_d_e <= bits
}

/// The scale codes of the gadget.
pub ghost struct CriticalScales {
    pub s_d: int,
    pub s_b: int,
    pub s_w: int,
    pub s_x: int,
    pub s_v: int,
}

/// How often two divides a positive number.
pub open spec fn twos(x: int) -> nat
    decreases x,
{
    if x <= 0 || x % 2 != 0 {
        0
    } else {
        1 + twos(x / 2)
    }
}

/// Count how often two divides a positive number.
fn count_twos(x: i128) -> (r: usize)
    requires
        x > 0,
    ensures
        r == twos(x as int),
        r < 127,
{
    let mut y: i128 = x;
    let mut k: usize = 0;
    proof {
        lemma_pow2_126();
        vstd::arithmetic::power2::lemma2_to64();
    }
    while y % 2 == 0
        invariant
            0 < y,
            y * pow2(k as nat) <= x,
            k <= 126,
            pow2(126) == 0x4000_0000_0000_0000_0000_0000_0000_0000int,
            twos(x as int) == k + twos(y as int),
        decreases y,
    {
        proof {
            lemma_pow2_unfold((k + 1) as nat);
            let (h, p) = (y as int / 2, pow2(k as nat) as int);
            assert(h * (2 * p) == (2 * h) * p) by (nonlinear_arith);
            if k == 126 {
                assert(y * p >= 2 * p) by (nonlinear_arith)
                    requires
                        y >= 2,
                        p > 0,
                ;
            }
        }
        y = y / 2;
        k += 1;
    }
    k
}

/// The critical-point index for a slope: the match nearest to a seed. There is
/// none for a negative slope, or without a seed.
pub open spec fn critical_index(
    lower: Seq<i128>,
    upper: Seq<i128>,
    d: int,
    s_d: int,
    s_x: int,
    s_v: int,
    seed: Option<i128>,
) -> Option<int> {
    if lower.len() < 3 || d < 0 {
        None
    } else {
        match seed {
            None => None,
            Some(z) => nearest_match(lower, upper, d, s_d, s_x, s_v, z as int, 16, 0),
        }
    }
}

/// Whether a seed is far enough from the ends of `i128` to search around it.
pub open spec fn seed_ok(seed: Option<i128>) -> bool {
    seed matches Some(z) ==> fits(z + 16) && fits(z - 16)
}

/// Find the critical-point index for a slope near a seed. The seed is where
/// the function's derivative equals the slope, rounded to the table's scale;
/// there is none where the slope is out of the derivative's range.
pub fn find_z_witness(
    sigma_lower: &[i128],
    sigma_upper: &[i128],
    d_int: i128,
    s_d: i128,
    s_x: i128,
    s_v: i128,
    z_seed: Option<i128>,
) -> (r: Option<i128>)
    requires
        sigma_upper@.len() >= sigma_lower@.len(),
        seed_ok(z_seed),
    ensures
        match critical_index(
            sigma_lower@,
            sigma_upper@,
            d_int as int,
            s_d as int,
            s_x as int,
            s_v as int,
            z_seed,
        ) {
            None => r is None,
            Some(z) => {
                &&& r matches Some(x)
                &&& x == z
                &&& slope_matches_at(
                    sigma_lower@,
                    sigma_upper@,
                    d_int as int,
                    s_d as int,
                    s_x as int,
                    s_v as int,
                    z,
                )
            },
        },
{
    if sigma_lower.len() < 3 {
        return None;
    }
    if d_int < 0 {
        return None;
    }
    match z_seed {
        None => None,
        Some(z) => find_strict_z_code(
            sigma_lower,
            sigma_upper,
            d_int,
            s_d,
            s_x,
            s_v,
            z,
            NEARBY_Z_SEARCH_RADIUS,
        ),
    }
}

/// The line's split at the critical point.
#[derive(Clone, Copy, Debug, PartialEq, Eq, Structural)]
pub struct CriticalSplit {
    pub dz_step_1: i128,
    pub dz_step_1_rem: i128,
    pub dz_sigma_code: i128,
    pub dz_sigma_rem: i128,
    pub b_sigma_code: i128,
    pub b_sigma_rem: i128,
}

/// The split of `d z` and `b` at the envelope's scale, or the reason why there
/// is none. The product is rounded down, and the offset to the line's safe
/// side.
pub open spec fn critical_split(
    line: SshapeLineKind,
    d: int,
    zw: int,
    b: int,
    s: CriticalScales,
) -> Result<CriticalSplit, SnarkError> {
    let up = line is Lower;
    let q1 = (d * zw) / s.s_d;
    let q2 = (q1 * s.s_v) / s.s_w;
    let q3 = quot(up, b * s.s_v, s.s_b);
    if !fits(d * zw) {
        Err(SnarkError::ShapeMismatch { what: "sshape3c: d·z overflow" })
    } else if s.s_d <= 0 {
        Err(SnarkError::ShapeMismatch { what: "sshape3c: floor_div d·z / s_d" })
    } else if !fits(q1 * s.s_d) {
        Err(SnarkError::ShapeMismatch { what: "sshape3c: dz_step_1·s_d overflow" })
    } else if !fits(q1 * s.s_v) {
        Err(SnarkError::ShapeMismatch { what: "sshape3c: dz_step_1·s_v overflow" })
    } else if s.s_w <= 0 {
        Err(SnarkError::ShapeMismatch { what: "sshape3c: floor_div dz·s_v / s_w" })
    } else if !fits(q2 * s.s_w) {
        Err(SnarkError::ShapeMismatch { what: "sshape3c: dz_sigma·s_w overflow" })
    } else if !fits(b * s.s_v) {
        Err(SnarkError::ShapeMismatch { what: "sshape3c: b·s_v overflow" })
    } else if s.s_b <= 0 {
        Err(
            SnarkError::ShapeMismatch {
                what: if up {
                    "sshape3c: ceil_div b·s_v / s_b"
                } else {
                    "sshape3c: floor_div b·s_v / s_b"
                },
            },
        )
    } else if !fits(q3 * s.s_b) {
        Err(
            SnarkError::ShapeMismatch {
                what: if up {
                    "sshape3c: b_sigma_rem subtraction (lower)"
                } else {
                    "sshape3c: b_sigma·s_b overflow"
                },
            },
        )
    } else {
        Ok(
            CriticalSplit {
                dz_step_1: q1 as i128,
                dz_step_1_rem: (d * zw - q1 * s.s_d) as i128,
                dz_sigma_code: q2 as i128,
                dz_sigma_rem: (q1 * s.s_v - q2 * s.s_w) as i128,
                b_sigma_code: q3 as i128,
                b_sigma_rem: quot_rem(up, b * s.s_v, s.s_b) as i128,
            },
        )
    }
}

/// A product, or an error where it is out of range.
fn product(a: i128, b: i128, what: &'static str) -> (r: Result<i128, SnarkError>)
    ensures
        fits(a * b) ==> r == Ok::<i128, SnarkError>((a * b) as i128),
        !fits(a * b) ==> r == Err::<i128, SnarkError>(SnarkError::ShapeMismatch { what }),
{
    match a.checked_mul(b) {
        Some(v) => Ok(v),
        None => Err(SnarkError::ShapeMismatch { what }),
    }
}

/// Compute the split at the critical point.
fn compute_critical_split(
    line: SshapeLineKind,
    d: i128,
    zw: i128,
    b: i128,
    s_d: i128,
    s_b: i128,
    s_w: i128,
    s_v: i128,
    Ghost(s): Ghost<CriticalScales>,
) -> (r: Result<CriticalSplit, SnarkError>)
    requires
        s.s_d == s_d,
        s.s_b == s_b,
        s.s_w == s_w,
        s.s_v == s_v,
    ensures
        r == critical_split(line, d as int, zw as int, b as int, s),
{
    let dz: i128 = match product(d, zw, "sshape3c: d·z overflow") {
        Ok(v) => v,
        Err(e) => {
            return Err(e);
        },
    };
    let dz_step_1: i128 = match floor_div(dz, s_d) {
        Some(v) => v,
        None => {
            return Err(SnarkError::ShapeMismatch { what: "sshape3c: floor_div d·z / s_d" });
        },
    };
    let back_1: i128 = match product(dz_step_1, s_d, "sshape3c: dz_step_1·s_d overflow") {
        Ok(v) => v,
        Err(e) => {
            return Err(e);
        },
    };
    let dz_step_1_rem: i128 = dz - back_1;
    let dz_step_1_sv: i128 = match product(dz_step_1, s_v, "sshape3c: dz_step_1·s_v overflow") {
        Ok(v) => v,
        Err(e) => {
            return Err(e);
        },
    };
    let dz_sigma_code: i128 = match floor_div(dz_step_1_sv, s_w) {
        Some(v) => v,
        None => {
            return Err(SnarkError::ShapeMismatch { what: "sshape3c: floor_div dz·s_v / s_w" });
        },
    };
    let back_2: i128 = match product(dz_sigma_code, s_w, "sshape3c: dz_sigma·s_w overflow") {
        Ok(v) => v,
        Err(e) => {
            return Err(e);
        },
    };
    let dz_sigma_rem: i128 = dz_step_1_sv - back_2;
    let b_sv: i128 = match product(b, s_v, "sshape3c: b·s_v overflow") {
        Ok(v) => v,
        Err(e) => {
            return Err(e);
        },
    };
    let (b_sigma_code, b_sigma_rem): (i128, i128) = match line {
        SshapeLineKind::Upper => {
            let q: i128 = match floor_div(b_sv, s_b) {
                Some(v) => v,
                None => {
                    return Err(SnarkError::ShapeMismatch { what: "sshape3c: floor_div b·s_v / s_b" });
                },
            };
            let back: i128 = match product(q, s_b, "sshape3c: b_sigma·s_b overflow") {
                Ok(v) => v,
                Err(e) => {
                    return Err(e);
                },
            };
            (q, b_sv - back)
        },
        SshapeLineKind::Lower => {
            let q: i128 = match ceil_div(b_sv, s_b) {
                Some(v) => v,
                None => {
                    return Err(SnarkError::ShapeMismatch { what: "sshape3c: ceil_div b·s_v / s_b" });
                },
            };
            let back: i128 = match product(q, s_b, "sshape3c: b_sigma_rem subtraction (lower)") {
                Ok(v) => v,
                Err(e) => {
                    return Err(e);
                },
            };
            (q, back - b_sv)
        },
    };
    Ok(
        CriticalSplit {
            dz_step_1,
            dz_step_1_rem,
            dz_sigma_code,
            dz_sigma_rem,
            b_sigma_code,
            b_sigma_rem,
        },
    )
}

/// The lower envelope at `-z`, from the upper one at `z`.
pub open spec fn lower_at_minus(kind: ActivationKind, up_z: int, s_v: int) -> int {
    if kind is Sigmoid {
        s_v - up_z
    } else {
        -up_z
    }
}

/// By how much the critical point is inside the interval, and the gap between
/// the line and the function there; or the reason why there are none.
pub open spec fn critical_factors(
    kind: ActivationKind,
    line: SshapeLineKind,
    zw: int,
    l: int,
    u: int,
    up_z: int,
    q2: int,
    q3: int,
    s_v: int,
) -> Result<(i128, i128), SnarkError> {
    match line {
        SshapeLineKind::Upper => if !fits(u - zw) {
            Err(SnarkError::ShapeMismatch { what: "sshape3c: factor_a overflow" })
        } else if !fits(q2 + q3) {
            Err(SnarkError::ShapeMismatch { what: "sshape3c: line_at_sv overflow (upper)" })
        } else if !fits(q2 + q3 - up_z) {
            Err(SnarkError::ShapeMismatch { what: "sshape3c: factor_b overflow (upper)" })
        } else {
            Ok(((u - zw) as i128, (q2 + q3 - up_z) as i128))
        },
        SshapeLineKind::Lower => {
            let lo = lower_at_minus(kind, up_z, s_v);
            if !fits(-zw - l) {
                Err(SnarkError::ShapeMismatch { what: "sshape3c: factor_a overflow" })
            } else if !fits(lo) {
                Err(SnarkError::ShapeMismatch { what: "sshape3c: σ_lo(−z) overflow" })
            } else if !fits(lo + q2) || !fits(lo + q2 - q3) {
                Err(SnarkError::ShapeMismatch { what: "sshape3c: factor_b overflow (lower)" })
            } else {
                Ok(((-zw - l) as i128, (lo + q2 - q3) as i128))
            }
        },
    }
}

/// Compute the two factors.
fn compute_critical_factors(
    kind: ActivationKind,
    line: SshapeLineKind,
    zw: i128,
    l: i128,
    u: i128,
    up_z: i128,
    q2: i128,
    q3: i128,
    s_v: i128,
) -> (r: Result<(i128, i128), SnarkError>)
    requires
        zw >= 0,
        kind != ActivationKind::ReLU,
    ensures
        r == critical_factors(
            kind,
            line,
            zw as int,
            l as int,
            u as int,
            up_z as int,
            q2 as int,
            q3 as int,
            s_v as int,
        ),
{
    match line {
        SshapeLineKind::Upper => {
            let fa: i128 = match u.checked_sub(zw) {
                Some(v) => v,
                None => {
                    return Err(SnarkError::ShapeMismatch { what: "sshape3c: factor_a overflow" });
                },
            };
            let line_at_sv: i128 = match q2.checked_add(q3) {
                Some(v) => v,
                None => {
                    return Err(SnarkError::ShapeMismatch { what: "sshape3c: line_at_sv overflow (upper)" });
                },
            };
            match line_at_sv.checked_sub(up_z) {
                Some(fb) => Ok((fa, fb)),
                None => Err(SnarkError::ShapeMismatch { what: "sshape3c: factor_b overflow (upper)" }),
            }
        },
        SshapeLineKind::Lower => {
            let neg_z: i128 = -zw;
            let fa: i128 = match neg_z.checked_sub(l) {
                Some(v) => v,
                None => {
                    return Err(SnarkError::ShapeMismatch { what: "sshape3c: factor_a overflow" });
                },
            };
            let base: i128 = match kind {
                ActivationKind::Sigmoid => s_v,
                _ => 0,
            };
            let lo: i128 = match base.checked_sub(up_z) {
                Some(v) => v,
                None => {
                    return Err(SnarkError::ShapeMismatch { what: "sshape3c: σ_lo(−z) overflow" });
                },
            };
            let sum: i128 = match lo.checked_add(q2) {
                Some(v) => v,
                None => {
                    return Err(SnarkError::ShapeMismatch { what: "sshape3c: factor_b overflow (lower)" });
                },
            };
            match sum.checked_sub(q3) {
                Some(fb) => Ok((fa, fb)),
                None => Err(SnarkError::ShapeMismatch { what: "sshape3c: factor_b overflow (lower)" }),
            }
        },
    }
}

/// The reason why a neuron is refused.
pub open spec fn critical_invalid(layer_idx: usize, detail: &'static str) -> SnarkError {
    SnarkError::RelaxationSoundnessSshapeInvalid {
        layer_idx,
        activation: "sshape3c",
        side: "critical-point",
        detail,
    }
}

/// The integers of a neuron with the interval `[l, u]` and the line `(d, b)`,
/// or the reason why there are none. `bound` is the size of the range table.
pub open spec fn critical_cell(
    lower: Seq<i128>,
    upper: Seq<i128>,
    kind: ActivationKind,
    line: SshapeLineKind,
    layer_idx: usize,
    l: int,
    u: int,
    d: int,
    b: int,
    seed: Option<i128>,
    s: CriticalScales,
    bound: int,
) -> Result<NeuronWitness, SnarkError> {
    let active = d != 0;
    let found = if active {
        critical_index(lower, upper, d, s.s_d, s.s_x, s.s_v, seed)
    } else {
        Some(1int)
    };
    match found {
        None => Err(
            SnarkError::RelaxationSoundnessSshapeInvalid {
                layer_idx,
                activation: activation_name(kind),
                side: "critical-point",
                detail: "sshape3c: no critical-point witness z found in table for slope m — slope outside activation range or scale mismatch",
            },
        ),
        Some(z) => {
            let (lo_z, up_m, up_p) = (lower[z] as int, upper[z - 1] as int, upper[z + 1] as int);
            let k1 = if active {
                fd1(lo_z, up_m, d, s.s_d, s.s_x, s.s_v)
            } else {
                0
            };
            let k2 = if active {
                fd2(lo_z, up_p, d, s.s_d, s.s_x, s.s_v)
            } else {
                0
            };
            let zw = z / (pow2((twos(s.s_x) - twos(s.s_w)) as nat) as int);
            if !fits(bound * bound) {
                Err(SnarkError::ShapeMismatch { what: "sshape3c: chunk_max overflow" })
            } else if k1 >= bound * bound || k2 >= bound * bound {
                Err(
                    critical_invalid(
                        layer_idx,
                        "sshape3c: FD slack out of two-chunk range (≥ 2^(2·GADGET_RANGE_BITS))",
                    ),
                )
            } else if twos(s.s_x) < twos(s.s_w) {
                Err(SnarkError::Reserved { what: "sshape3c: s_w > s_x not yet supported" })
            } else {
                match critical_split(line, d, zw, b, s) {
                    Err(e) => Err(e),
                    Ok(sp) => match critical_factors(
                        kind,
                        line,
                        zw,
                        l,
                        u,
                        upper[z] as int,
                        sp.dz_sigma_code as int,
                        sp.b_sigma_code as int,
                        s.s_v,
                    ) {
                        Err(e) => Err(e),
                        Ok((fa, fb)) => {
                            let inside = fa >= 0;
                            let pos = if inside {
                                fa as int
                            } else {
                                -fa - 1
                            };
                            let gap = if inside {
                                fb as int
                            } else {
                                0
                            };
                            if fa == i128::MIN {
                                Err(SnarkError::ShapeMismatch { what: "sshape3c: -factor_a - 1 overflow" })
                            } else if gap < 0 {
                                Err(
                                    critical_invalid(
                                        layer_idx,
                                        "sshape3c: gated_gap < 0 — line below σ at interior critical point (invalid relaxation)",
                                    ),
                                )
                            } else if pos / bound >= bound {
                                Err(
                                    SnarkError::Reserved {
                                        what: "sshape3c: slack_pos_high out of range — slack_pos exceeds 2^(2·GADGET_RANGE_BITS)",
                                    },
                                )
                            } else if gap / bound >= bound {
                                Err(
                                    SnarkError::Reserved {
                                        what: "sshape3c: gated_gap_high out of range — gated_gap exceeds 2^(2·GADGET_RANGE_BITS)",
                                    },
                                )
                            } else {
                                Ok(
                                    NeuronWitness {
                                        z: z as i128,
                                        sigma_lo_z: lower[z],
                                        sigma_up_z: upper[z],
                                        sigma_lo_zmd: lower[z - 1],
                                        sigma_up_zmd: upper[z - 1],
                                        sigma_lo_zpd: lower[z + 1],
                                        sigma_up_zpd: upper[z + 1],
                                        slack_fd1: k1 as i128,
                                        slack_fd2: k2 as i128,
                                        slack_fd1_high: (k1 / bound) as i128,
                                        slack_fd1_low: (k1 - (k1 / bound) * bound) as i128,
                                        slack_fd2_high: (k2 / bound) as i128,
                                        slack_fd2_low: (k2 - (k2 / bound) * bound) as i128,
                                        factor_a: fa,
                                        factor_b: fb,
                                        dz_step_1: sp.dz_step_1,
                                        dz_step_1_rem: sp.dz_step_1_rem,
                                        dz_sigma_code: sp.dz_sigma_code,
                                        dz_sigma_rem: sp.dz_sigma_rem,
                                        b_sigma_code: sp.b_sigma_code,
                                        b_sigma_rem: sp.b_sigma_rem,
                                        is_active: if active {
                                            1i128
                                        } else {
                                            0i128
                                        },
                                        inside_bit: if inside {
                                            1i128
                                        } else {
                                            0i128
                                        },
                                        slack_pos: pos as i128,
                                        slack_pos_high: (pos / bound) as i128,
                                        slack_pos_low: (pos - (pos / bound) * bound) as i128,
                                        gated_gap: gap as i128,
                                        gated_gap_high: (gap / bound) as i128,
                                        gated_gap_low: (gap - (gap / bound) * bound) as i128,
                                    },
                                )
                            }
                        },
                    },
                }
            }
        },
    }
}

/// A number that is not negative, split into two chunks.
fn chunks(x: i128, bound: i128) -> (r: (i128, i128))
    requires
        x >= 0,
        bound > 0,
    ensures
        r.0 == x as int / bound as int,
        r.1 == x - (x as int / bound as int) * bound,
        0 <= r.0 <= x,
        0 <= r.1 < bound,
{
    proof {
        lemma_floor(x as int, bound as int);
    }
    let high: i128 = x / bound;
    (high, x - high * bound)
}

/// Compute the integers of a neuron.
fn compute_critical_cell(
    lower: &Vec<i128>,
    upper: &Vec<i128>,
    kind: ActivationKind,
    line: SshapeLineKind,
    layer_idx: usize,
    l: i128,
    u: i128,
    d: i128,
    b: i128,
    seed: Option<i128>,
    s_d: i128,
    s_b: i128,
    s_w: i128,
    s_x: i128,
    s_v: i128,
    bound: i128,
    Ghost(s): Ghost<CriticalScales>,
) -> (r: Result<NeuronWitness, SnarkError>)
    requires
        kind != ActivationKind::ReLU,
        lower@.len() >= 3,
        upper@.len() == lower@.len(),
        seed_ok(seed),
        s_w > 0,
        s_x > 0,
        bound > 0,
        s.s_d == s_d,
        s.s_b == s_b,
        s.s_w == s_w,
        s.s_x == s_x,
        s.s_v == s_v,
    ensures
        r == critical_cell(
            lower@,
            upper@,
            kind,
            line,
            layer_idx,
            l as int,
            u as int,
            d as int,
            b as int,
            seed,
            s,
            bound as int,
        ),
{
    let is_active: i128 = if d != 0 {
        1
    } else {
        0
    };
    let z: i128 = if is_active == 1 {
        match find_z_witness(lower.as_slice(), upper.as_slice(), d, s_d, s_x, s_v, seed) {
            Some(z) => {
                assert(slope_matches_at(
                    lower@,
                    upper@,
                    d as int,
                    s_d as int,
                    s_x as int,
                    s_v as int,
                    z as int,
                ));
                z
            },
            None => {
                return Err(
                    SnarkError::RelaxationSoundnessSshapeInvalid {
                        layer_idx,
                        activation: activation_label(kind),
                        side: "critical-point",
                        detail: "sshape3c: no critical-point witness z found in table for slope m — slope outside activation range or scale mismatch",
                    },
                );
            },
        }
    } else {
        1
    };
    assert(lower.len() == lower@.len() && 1 <= z <= lower@.len() - 2);
    let zi: usize = z as usize;
    let (slack_fd1, slack_fd2): (i128, i128) = if is_active == 1 {
        match fd_slope_match_slacks(lower[zi], upper[zi - 1], upper[zi + 1], d, s_d, s_x, s_v) {
            Some(k) => (k.slack_fd1, k.slack_fd2),
            None => (0, 0),
        }
    } else {
        (0, 0)
    };
    let chunk_max: i128 = match bound.checked_mul(bound) {
        Some(v) => v,
        None => {
            return Err(SnarkError::ShapeMismatch { what: "sshape3c: chunk_max overflow" });
        },
    };
    if slack_fd1 >= chunk_max || slack_fd2 >= chunk_max {
        return Err(
            SnarkError::RelaxationSoundnessSshapeInvalid {
                layer_idx,
                activation: "sshape3c",
                side: "critical-point",
                detail: "sshape3c: FD slack out of two-chunk range (≥ 2^(2·GADGET_RANGE_BITS))",
            },
        );
    }
    let (slack_fd1_high, slack_fd1_low): (i128, i128) = chunks(slack_fd1, bound);
    let (slack_fd2_high, slack_fd2_low): (i128, i128) = chunks(slack_fd2, bound);
    let s_x_log2: usize = count_twos(s_x);
    let s_w_log2: usize = count_twos(s_w);
    if s_x_log2 < s_w_log2 {
        return Err(SnarkError::Reserved { what: "sshape3c: s_w > s_x not yet supported" });
    }
    let shift: i128 = pow2_i128(s_x_log2 - s_w_log2);
    proof {
        lemma_pow2_pos((s_x_log2 - s_w_log2) as nat);
        lemma_floor(z as int, shift as int);
    }
    let z_at_sw: i128 = z / shift;
    let sp: CriticalSplit = match compute_critical_split(
        line,
        d,
        z_at_sw,
        b,
        s_d,
        s_b,
        s_w,
        s_v,
        Ghost(s),
    ) {
        Ok(sp) => sp,
        Err(e) => {
            return Err(e);
        },
    };
    let (factor_a, factor_b): (i128, i128) = match compute_critical_factors(
        kind,
        line,
        z_at_sw,
        l,
        u,
        upper[zi],
        sp.dz_sigma_code,
        sp.b_sigma_code,
        s_v,
    ) {
        Ok(f) => f,
        Err(e) => {
            return Err(e);
        },
    };
    let inside_bit: i128 = if factor_a >= 0 {
        1
    } else {
        0
    };
    if factor_a == i128::MIN {
        return Err(SnarkError::ShapeMismatch { what: "sshape3c: -factor_a - 1 overflow" });
    }
    let slack_pos: i128 = if inside_bit == 1 {
        factor_a
    } else {
        -factor_a - 1
    };
    let gated_gap: i128 = if inside_bit == 1 {
        factor_b
    } else {
        0
    };
    if gated_gap < 0 {
        return Err(
            SnarkError::RelaxationSoundnessSshapeInvalid {
                layer_idx,
                activation: "sshape3c",
                side: "critical-point",
                detail: "sshape3c: gated_gap < 0 — line below σ at interior critical point (invalid relaxation)",
            },
        );
    }
    let (slack_pos_high, slack_pos_low): (i128, i128) = chunks(slack_pos, bound);
    if slack_pos_high >= bound {
        return Err(
            SnarkError::Reserved {
                what: "sshape3c: slack_pos_high out of range — slack_pos exceeds 2^(2·GADGET_RANGE_BITS)",
            },
        );
    }
    let (gated_gap_high, gated_gap_low): (i128, i128) = chunks(gated_gap, bound);
    if gated_gap_high >= bound {
        return Err(
            SnarkError::Reserved {
                what: "sshape3c: gated_gap_high out of range — gated_gap exceeds 2^(2·GADGET_RANGE_BITS)",
            },
        );
    }
    Ok(
        NeuronWitness {
            z,
            sigma_lo_z: lower[zi],
            sigma_up_z: upper[zi],
            sigma_lo_zmd: lower[zi - 1],
            sigma_up_zmd: upper[zi - 1],
            sigma_lo_zpd: lower[zi + 1],
            sigma_up_zpd: upper[zi + 1],
            slack_fd1,
            slack_fd2,
            slack_fd1_high,
            slack_fd1_low,
            slack_fd2_high,
            slack_fd2_low,
            factor_a,
            factor_b,
            dz_step_1: sp.dz_step_1,
            dz_step_1_rem: sp.dz_step_1_rem,
            dz_sigma_code: sp.dz_sigma_code,
            dz_sigma_rem: sp.dz_sigma_rem,
            b_sigma_code: sp.b_sigma_code,
            b_sigma_rem: sp.b_sigma_rem,
            is_active,
            inside_bit,
            slack_pos,
            slack_pos_high,
            slack_pos_low,
            gated_gap,
            gated_gap_high,
            gated_gap_low,
        },
    )
}

/// The integers of a padding row.
pub open spec fn critical_padding(lower: Seq<i128>, upper: Seq<i128>) -> NeuronWitness {
    NeuronWitness {
        z: 1,
        sigma_lo_z: lower[1],
        sigma_up_z: upper[1],
        sigma_lo_zmd: lower[0],
        sigma_up_zmd: upper[0],
        sigma_lo_zpd: lower[2],
        sigma_up_zpd: upper[2],
        slack_fd1: 0,
        slack_fd2: 0,
        slack_fd1_high: 0,
        slack_fd1_low: 0,
        slack_fd2_high: 0,
        slack_fd2_low: 0,
        factor_a: 0,
        factor_b: 0,
        dz_step_1: 0,
        dz_step_1_rem: 0,
        dz_sigma_code: 0,
        dz_sigma_rem: 0,
        b_sigma_code: 0,
        b_sigma_rem: 0,
        is_active: 0,
        inside_bit: 1,
        slack_pos: 0,
        slack_pos_high: 0,
        slack_pos_low: 0,
        gated_gap: 0,
        gated_gap_high: 0,
        gated_gap_low: 0,
    }
}

/// The first entry of the tables, from `i` on, that cannot be read, as an
/// error.
pub open spec fn table_decode_error(lower: Seq<int>, upper: Seq<int>, i: nat) -> Option<SnarkError>
    decreases lower.len() - i,
{
    if i >= lower.len() {
        None
    } else if signed_of(lower[i as int]) is None {
        Some(SnarkError::FieldDecodeOutOfRange { which: "sshape3c: σ_lower decode" })
    } else if signed_of(upper[i as int]) is None {
        Some(SnarkError::FieldDecodeOutOfRange { which: "sshape3c: σ_upper decode" })
    } else {
        table_decode_error(lower, upper, i + 1)
    }
}

/// Tables without an error can be read everywhere.
pub proof fn lemma_tables_decode(lower: Seq<int>, upper: Seq<int>, i: nat)
    requires
        table_decode_error(lower, upper, i) is None,
    ensures
        forall|k: int| i <= k < lower.len() ==> signed_of(#[trigger] lower[k]) is Some,
        forall|k: int| i <= k < lower.len() ==> signed_of(#[trigger] upper[k]) is Some,
    decreases lower.len() - i,
{
    if i < lower.len() {
        lemma_tables_decode(lower, upper, i + 1);
    }
}

/// Read the envelope tables as integers.
fn decode_tables(lower: &Vec<Fr>, upper: &Vec<Fr>) -> (r: Result<(Vec<i128>, Vec<i128>), SnarkError>)
    requires
        upper@.len() == lower@.len(),
    ensures
        match table_decode_error(vals(lower@), vals(upper@), 0) {
            Some(e) => r == Err::<(Vec<i128>, Vec<i128>), SnarkError>(e),
            None => {
                &&& r matches Ok((lo, up))
                &&& lo@ == decoded(vals(lower@))
                &&& up@ == decoded(vals(upper@))
            },
        },
{
    let ghost (lv, uv) = (vals(lower@), vals(upper@));
    let mut lo: Vec<i128> = Vec::with_capacity(lower.len());
    let mut up: Vec<i128> = Vec::with_capacity(lower.len());
    let mut i: usize = 0;
    while i < lower.len()
        invariant
            i <= lower@.len(),
            upper@.len() == lower@.len(),
            lv == vals(lower@),
            uv == vals(upper@),
            lo@.len() == i,
            up@.len() == i,
            forall|k: int| 0 <= k < i ==> #[trigger] lo@[k] == decoded(lv)[k],
            forall|k: int| 0 <= k < i ==> #[trigger] up@[k] == decoded(uv)[k],
            table_decode_error(lv, uv, 0) == table_decode_error(lv, uv, i as nat),
        decreases lower@.len() - i,
    {
        assert(lv[i as int] == lower@[i as int]@ && uv[i as int] == upper@[i as int]@);
        match fr_to_signed_i128(lower[i]) {
            Some(v) => {
                lo.push(v);
            },
            None => {
                return Err(
                    SnarkError::FieldDecodeOutOfRange { which: "sshape3c: σ_lower decode" },
                );
            },
        }
        match fr_to_signed_i128(upper[i]) {
            Some(v) => {
                up.push(v);
            },
            None => {
                return Err(
                    SnarkError::FieldDecodeOutOfRange { which: "sshape3c: σ_upper decode" },
                );
            },
        }
        i += 1;
    }
    assert(lo@ =~= decoded(lv));
    assert(up@ =~= decoded(uv));
    Ok((lo, up))
}

/// The public and private inputs of a layer.
pub ghost struct CriticalInputs {
    pub lower: Seq<i128>,
    pub upper: Seq<i128>,
    pub kind: ActivationKind,
    pub line: SshapeLineKind,
    pub layer_idx: usize,
    pub l: Seq<i128>,
    pub u: Seq<i128>,
    pub d: Seq<i128>,
    pub b: Seq<i128>,
    pub seeds: Seq<Option<i128>>,
    pub s: CriticalScales,
    pub bound: int,
}

/// The integers of neuron `j`, or the reason why there are none.
pub open spec fn critical_neuron(x: CriticalInputs, j: int) -> Result<NeuronWitness, SnarkError> {
    critical_cell(
        x.lower,
        x.upper,
        x.kind,
        x.line,
        x.layer_idx,
        x.l[j] as int,
        x.u[j] as int,
        x.d[j] as int,
        x.b[j] as int,
        x.seeds[j],
        x.s,
        x.bound,
    )
}

/// The first error among the neurons from `j` to `n`.
pub open spec fn critical_scan(x: CriticalInputs, n: nat, j: nat) -> Option<SnarkError>
    decreases n - j,
{
    if j >= n {
        None
    } else {
        match critical_neuron(x, j as int) {
            Err(e) => Some(e),
            Ok(_) => critical_scan(x, n, j + 1),
        }
    }
}

/// The rows of a layer: the neurons, and padding.
pub open spec fn critical_cells(x: CriticalInputs, n: nat, n_padded: nat) -> Seq<NeuronWitness> {
    Seq::new(
        max_nat(n, n_padded),
        |j: int|
            if j < n {
                critical_neuron(x, j)->Ok_0
            } else {
                critical_padding(x.lower, x.upper)
            },
    )
}

/// No error among the neurons means that each has its integers.
pub proof fn lemma_critical_scan_none(x: CriticalInputs, n: nat, j: nat)
    requires
        critical_scan(x, n, j) is None,
    ensures
        forall|k: int| j <= k < n ==> #[trigger] critical_neuron(x, k) is Ok,
    decreases n - j,
{
    if j < n {
        lemma_critical_scan_none(x, n, j + 1);
        assert forall|k: int| j <= k < n implies #[trigger] critical_neuron(x, k) is Ok by {
            if k > j {
                assert(j + 1 <= k);
            }
        }
    }
}

/// The inputs of a layer, from its arguments.
pub open spec fn critical_inputs(
    pre: SigmaTables,
    kind: ActivationKind,
    line: SshapeLineKind,
    layer_idx: usize,
    l: Seq<i128>,
    u: Seq<i128>,
    d: Seq<i128>,
    b: Seq<i128>,
    seeds: Seq<Option<i128>>,
    s: CriticalScales,
    range_bits: nat,
) -> CriticalInputs {
    let (lower, upper) = envelope_tables(pre, kind)->Some_0;
    CriticalInputs {
        lower: decoded(lower),
        upper: decoded(upper),
        kind,
        line,
        layer_idx,
        l,
        u,
        d,
        b,
        seeds,
        s,
        bound: pow2(range_bits) as int,
    }
}

/// Compute the rows of a layer for one line. `z_seeds` are the seeds of the
/// critical-point search, one for each neuron.
pub fn compute_witnesses(
    pre: &SigmaTables,
    kind: ActivationKind,
    line: SshapeLineKind,
    layer_idx: usize,
    preact_lower_codes: &[i128],
    preact_upper_codes: &[i128],
    d_padded: &[i128],
    b_padded: &[i128],
    z_seeds: &[Option<i128>],
    s_d_code: i128,
    s_b_code: i128,
    s_w_code: i128,
    s_x_code: i128,
    s_v_code: i128,
    n: usize,
    n_padded: usize,
    range_bits: usize,
) -> (r: Result<Vec<NeuronWitness>, SnarkError>)
    requires
        pre.wf(),
        kind != ActivationKind::ReLU,
        preact_lower_codes@.len() >= n,
        preact_upper_codes@.len() >= n,
        d_padded@.len() >= n,
        b_padded@.len() >= n,
        z_seeds@.len() >= n,
        forall|j: int| 0 <= j < n ==> seed_ok(#[trigger] z_seeds@[j]),
        s_w_code > 0,
        s_x_code > 0,
        range_bits < 127,
    ensures
        ({
            let (lower, upper) = envelope_tables(*pre, kind)->Some_0;
            let x = critical_inputs(
                *pre,
                kind,
                line,
                layer_idx,
                preact_lower_codes@,
                preact_upper_codes@,
                d_padded@,
                b_padded@,
                z_seeds@,
                CriticalScales {
                    s_d: s_d_code as int,
                    s_b: s_b_code as int,
                    s_w: s_w_code as int,
                    s_x: s_x_code as int,
                    s_v: s_v_code as int,
                },
                range_bits as nat,
            );
            match table_decode_error(lower, upper, 0) {
                Some(e) => r == Err::<Vec<NeuronWitness>, SnarkError>(e),
                None => match critical_scan(x, n as nat, 0) {
                    Some(e) => r == Err::<Vec<NeuronWitness>, SnarkError>(e),
                    None => r matches Ok(cells) && cells@ == critical_cells(
                        x,
                        n as nat,
                        n_padded as nat,
                    ),
                },
            }
        }),
{
    let (upper_fr, lower_fr): (&Vec<Fr>, &Vec<Fr>) = match sigma_tables(pre, kind) {
        Some(t) => t,
        None => {
            return Err(SnarkError::ShapeMismatch { what: "sshape3c called for ReLU layer" });
        },
    };
    let (lower, upper): (Vec<i128>, Vec<i128>) = match decode_tables(lower_fr, upper_fr) {
        Ok(t) => t,
        Err(e) => {
            return Err(e);
        },
    };
    let bound: i128 = pow2_i128(range_bits);
    let ghost s = CriticalScales {
        s_d: s_d_code as int,
        s_b: s_b_code as int,
        s_w: s_w_code as int,
        s_x: s_x_code as int,
        s_v: s_v_code as int,
    };
    let ghost x = critical_inputs(
        *pre,
        kind,
        line,
        layer_idx,
        preact_lower_codes@,
        preact_upper_codes@,
        d_padded@,
        b_padded@,
        z_seeds@,
        s,
        range_bits as nat,
    );
    let ghost cells = critical_cells(x, n as nat, n_padded as nat);
    proof {
        lemma_pow2_pos(range_bits as nat);
        lemma_table_four(*pre, kind);
        assert(vals(lower_fr@).len() == lower_fr@.len());
        assert(lower@.len() == lower_fr@.len() && upper@.len() == lower@.len());
        assert(x.lower == lower@ && x.upper == upper@);
    }
    let mut out: Vec<NeuronWitness> = Vec::new();
    let mut j: usize = 0;
    while j < n
        invariant
            j <= n,
            kind != ActivationKind::ReLU,
            preact_lower_codes@.len() >= n,
            preact_upper_codes@.len() >= n,
            d_padded@.len() >= n,
            b_padded@.len() >= n,
            z_seeds@.len() >= n,
            forall|k: int| 0 <= k < n ==> seed_ok(#[trigger] z_seeds@[k]),
            s_w_code > 0,
            s_x_code > 0,
            bound > 0,
            s.s_d == s_d_code,
            s.s_b == s_b_code,
            s.s_w == s_w_code,
            s.s_x == s_x_code,
            s.s_v == s_v_code,
            lower@.len() >= 4,
            upper@.len() == lower@.len(),
            x.lower == lower@,
            x.upper == upper@,
            x.kind == kind,
            x.line == line,
            x.layer_idx == layer_idx,
            x.l == preact_lower_codes@,
            x.u == preact_upper_codes@,
            x.d == d_padded@,
            x.b == b_padded@,
            x.seeds == z_seeds@,
            x.s == s,
            x.bound == bound,
            x == critical_inputs(
                *pre,
                kind,
                line,
                layer_idx,
                preact_lower_codes@,
                preact_upper_codes@,
                d_padded@,
                b_padded@,
                z_seeds@,
                s,
                range_bits as nat,
            ),
            table_decode_error(
                envelope_tables(*pre, kind)->Some_0.0,
                envelope_tables(*pre, kind)->Some_0.1,
                0,
            ) is None,
            cells == critical_cells(x, n as nat, n_padded as nat),
            out@.len() == j,
            forall|k: int| 0 <= k < j ==> #[trigger] out@[k] == cells[k],
            critical_scan(x, n as nat, 0) == critical_scan(x, n as nat, j as nat),
        decreases n - j,
    {
        match compute_critical_cell(
            &lower,
            &upper,
            kind,
            line,
            layer_idx,
            preact_lower_codes[j],
            preact_upper_codes[j],
            d_padded[j],
            b_padded[j],
            z_seeds[j],
            s_d_code,
            s_b_code,
            s_w_code,
            s_x_code,
            s_v_code,
            bound,
            Ghost(s),
        ) {
            Ok(w) => {
                assert(critical_neuron(x, j as int) == Ok::<NeuronWitness, SnarkError>(w));
                out.push(w);
            },
            Err(e) => {
                assert(critical_neuron(x, j as int) == Err::<NeuronWitness, SnarkError>(e));
                return Err(e);
            },
        }
        j += 1;
    }
    while out.len() < n_padded
        invariant
            n <= out@.len() <= max_nat(n as nat, n_padded as nat),
            lower@.len() >= 4,
            upper@.len() == lower@.len(),
            x.lower == lower@,
            x.upper == upper@,
            cells == critical_cells(x, n as nat, n_padded as nat),
            forall|k: int| 0 <= k < out@.len() ==> #[trigger] out@[k] == cells[k],
        decreases n_padded - out@.len(),
    {
        out.push(
            NeuronWitness {
                z: 1,
                sigma_lo_z: lower[1],
                sigma_up_z: upper[1],
                sigma_lo_zmd: lower[0],
                sigma_up_zmd: upper[0],
                sigma_lo_zpd: lower[2],
                sigma_up_zpd: upper[2],
                slack_fd1: 0,
                slack_fd2: 0,
                slack_fd1_high: 0,
                slack_fd1_low: 0,
                slack_fd2_high: 0,
                slack_fd2_low: 0,
                factor_a: 0,
                factor_b: 0,
                dz_step_1: 0,
                dz_step_1_rem: 0,
                dz_sigma_code: 0,
                dz_sigma_rem: 0,
                b_sigma_code: 0,
                b_sigma_rem: 0,
                is_active: 0,
                inside_bit: 1,
                slack_pos: 0,
                slack_pos_high: 0,
                slack_pos_low: 0,
                gated_gap: 0,
                gated_gap_high: 0,
                gated_gap_low: 0,
            },
        );
    }
    assert(out@ =~= cells);
    Ok(out)
}

/// Envelope tables have at least four entries.
pub proof fn lemma_table_four(pre: SigmaTables, kind: ActivationKind)
    requires
        pre.wf(),
        kind != ActivationKind::ReLU,
    ensures
        ({
            let (lower, upper) = envelope_tables(pre, kind)->Some_0;
            &&& lower.len() == upper.len()
            &&& 4 <= upper.len() <= usize::MAX
        }),
{
    vstd::arithmetic::power2::lemma2_to64();
    let (lower, upper) = envelope_tables(pre, kind)->Some_0;
    let k = choose|k: nat|
        2 <= k < 60 && #[trigger] pow2(k) == lower.len() && pow2(even_vars(k)) <= usize::MAX;
    if k > 2 {
        lemma_pow2_strictly_increases(2, k);
    }
    if k < even_vars(k) {
        lemma_pow2_strictly_increases(k, even_vars(k));
    }
}

/// The integer of a row that stands in a column, in the order in which the
/// columns are committed.
pub open spec fn critical_field(w: NeuronWitness, j: int) -> i128 {
    if j == 0 {
        w.z
    } else if j == 1 {
        w.sigma_lo_z
    } else if j == 2 {
        w.sigma_up_z
    } else if j == 3 {
        w.sigma_lo_zmd
    } else if j == 4 {
        w.sigma_up_zmd
    } else if j == 5 {
        w.sigma_lo_zpd
    } else if j == 6 {
        w.sigma_up_zpd
    } else if j == 7 {
        w.slack_fd1
    } else if j == 8 {
        w.slack_fd2
    } else if j == 9 {
        w.slack_fd1_high
    } else if j == 10 {
        w.slack_fd1_low
    } else if j == 11 {
        w.slack_fd2_high
    } else if j == 12 {
        w.slack_fd2_low
    } else if j == 13 {
        w.factor_a
    } else if j == 14 {
        w.factor_b
    } else if j == 15 {
        w.dz_step_1
    } else if j == 16 {
        w.dz_step_1_rem
    } else if j == 17 {
        w.dz_sigma_code
    } else if j == 18 {
        w.dz_sigma_rem
    } else if j == 19 {
        w.b_sigma_code
    } else if j == 20 {
        w.b_sigma_rem
    } else if j == 21 {
        w.is_active
    } else if j == 22 {
        w.inside_bit
    } else if j == 23 {
        w.slack_pos
    } else if j == 24 {
        w.slack_pos_high
    } else if j == 25 {
        w.slack_pos_low
    } else if j == 26 {
        w.gated_gap
    } else if j == 27 {
        w.gated_gap_high
    } else {
        w.gated_gap_low
    }
}

/// One column of rows.
pub open spec fn critical_column(cells: Seq<NeuronWitness>, j: int) -> Seq<i128> {
    Seq::new(cells.len(), |i: int| critical_field(cells[i], j))
}

/// The columns of rows.
pub open spec fn critical_columns(cells: Seq<NeuronWitness>) -> Seq<Seq<i128>> {
    Seq::new(29, |j: int| critical_column(cells, j))
}

/// One column of rows.
fn build_column(cells: &Vec<NeuronWitness>, j: usize) -> (r: Vec<i128>)
    ensures
        r@ == critical_column(cells@, j as int),
{
    let mut out: Vec<i128> = Vec::with_capacity(cells.len());
    let mut i: usize = 0;
    while i < cells.len()
        invariant
            i <= cells@.len(),
            out@.len() == i,
            forall|k: int| 0 <= k < i ==> #[trigger] out@[k] == critical_field(cells@[k], j as int),
        decreases cells@.len() - i,
    {
        let w: &NeuronWitness = &cells[i];
        let v: i128 = if j == 0 {
            w.z
        } else if j == 1 {
            w.sigma_lo_z
        } else if j == 2 {
            w.sigma_up_z
        } else if j == 3 {
            w.sigma_lo_zmd
        } else if j == 4 {
            w.sigma_up_zmd
        } else if j == 5 {
            w.sigma_lo_zpd
        } else if j == 6 {
            w.sigma_up_zpd
        } else if j == 7 {
            w.slack_fd1
        } else if j == 8 {
            w.slack_fd2
        } else if j == 9 {
            w.slack_fd1_high
        } else if j == 10 {
            w.slack_fd1_low
        } else if j == 11 {
            w.slack_fd2_high
        } else if j == 12 {
            w.slack_fd2_low
        } else if j == 13 {
            w.factor_a
        } else if j == 14 {
            w.factor_b
        } else if j == 15 {
            w.dz_step_1
        } else if j == 16 {
            w.dz_step_1_rem
        } else if j == 17 {
            w.dz_sigma_code
        } else if j == 18 {
            w.dz_sigma_rem
        } else if j == 19 {
            w.b_sigma_code
        } else if j == 20 {
            w.b_sigma_rem
        } else if j == 21 {
            w.is_active
        } else if j == 22 {
            w.inside_bit
        } else if j == 23 {
            w.slack_pos
        } else if j == 24 {
            w.slack_pos_high
        } else if j == 25 {
            w.slack_pos_low
        } else if j == 26 {
            w.gated_gap
        } else if j == 27 {
            w.gated_gap_high
        } else {
            w.gated_gap_low
        };
        out.push(v);
        i += 1;
    }
    assert(out@ =~= critical_column(cells@, j as int));
    out
}

/// The columns of rows.
pub fn build_columns(cells: &Vec<NeuronWitness>) -> (r: Vec<Vec<i128>>)
    ensures
        codes_of(r@) == critical_columns(cells@),
        r@.len() == 29,
        forall|j: int| 0 <= j < 29 ==> (#[trigger] r@[j])@.len() == cells@.len(),
{
    let mut out: Vec<Vec<i128>> = Vec::with_capacity(29);
    let mut j: usize = 0;
    while j < 29
        invariant
            j <= 29,
            out@.len() == j,
            forall|k: int| 0 <= k < j ==> (#[trigger] out@[k])@ == critical_column(cells@, k),
        decreases 29 - j,
    {
        out.push(build_column(cells, j));
        j += 1;
    }
    assert(codes_of(out@) =~= critical_columns(cells@));
    out
}

} // verus!
