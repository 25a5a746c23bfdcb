//! Envelope lookups, slope matches and split divisions.

use crown_snark::field::{signed_lift_to_fr, Fr};
use crown_snark::network::ActivationKind;
use crown_snark::params::SigmaTables;
use crown_snark::sshape_helpers::{
    ceil_div, fd_epsilon_crit, fd_slope_match_slacks, find_strict_z_code, floor_div,
    lookup_sigma_envelope, split_line_witnesses_lower, split_line_witnesses_upper,
};

const TS_X: i32 = 11;
const TS_V: i32 = 16;

/// Envelope tables of the sigmoid and tanh up to 128, at the given scales.
fn sigma_tables(s_x_log2: i32, s_v_log2: i32) -> SigmaTables {
    let len = 128usize << s_x_log2;
    let s_x = (1i64 << s_x_log2) as f64;
    let s_v = (1i64 << s_v_log2) as f64;
    let column = |f: &dyn Fn(f64) -> f64, up: bool| -> Vec<Fr> {
        (0..len)
            .map(|i| {
                let y = f(i as f64 / s_x) * s_v;
                let code = if up { y.ceil().min(s_v) } else { (y.ceil() - 1.0).max(0.0) };
                signed_lift_to_fr(code as i128)
            })
            .collect()
    };
    let sigmoid = |x: f64| 1.0 / (1.0 + (-x).exp());
    let tanh = |x: f64| x.tanh();
    SigmaTables {
        sigmoid_lower_fr: column(&sigmoid, false),
        sigmoid_upper_fr: column(&sigmoid, true),
        tanh_lower_fr: column(&tanh, false),
        tanh_upper_fr: column(&tanh, true),
        s_x_log2,
        s_v_log2,
    }
}

/// At the inner natural region, the looked-up envelope for sigmoid
/// at non-negative x_int matches the table directly.
#[test]
fn lookup_sigma_envelope_sigmoid_positive_natural() {
    let pre = sigma_tables(TS_X, TS_V);
    let s_x_log2 = TS_X;
    let bound_real = 128;
    let s_x = 1i128 << s_x_log2;
    // σ(0.5) ≈ 0.6225
    let x_int = s_x / 2;
    let (lo, up) =
        lookup_sigma_envelope(&pre, ActivationKind::Sigmoid, x_int, s_x_log2, bound_real)
            .unwrap();
    assert!(lo <= up);
    assert!(lo >= 0);
    // dequantize
    let s_v = (1u64 << TS_V) as f64;
    let xr = (x_int as f64) / (s_x as f64);
    let true_sigma = 1.0 / (1.0 + (-xr).exp());
    assert!((lo as f64) <= true_sigma * s_v + 1e-9);
    assert!((up as f64) >= true_sigma * s_v - 1e-9);
}

/// Sigmoid at negative x_int recovers via symmetry σ(-x) = 1 - σ(x).
#[test]
fn lookup_sigma_envelope_sigmoid_negative_via_symmetry() {
    let pre = sigma_tables(TS_X, TS_V);
    let s_x_log2 = TS_X;
    let bound_real = 128;
    let s_x = 1i128 << s_x_log2;
    let x_int = -s_x / 2; // σ(-0.5) ≈ 0.378
    let (lo, up) =
        lookup_sigma_envelope(&pre, ActivationKind::Sigmoid, x_int, s_x_log2, bound_real)
            .unwrap();
    let s_v = (1u64 << TS_V) as f64;
    let xr = (x_int as f64) / (s_x as f64);
    let true_sigma = 1.0 / (1.0 + (-xr).exp());
    assert!(
        (lo as f64) <= true_sigma * s_v + 1e-9,
        "lo={lo}, σ·s_v={}",
        true_sigma * s_v
    );
    assert!(
        (up as f64) >= true_sigma * s_v - 1e-9,
        "up={up}, σ·s_v={}",
        true_sigma * s_v
    );
}

/// Tanh negative via odd symmetry: tanh(-x) = -tanh(x).
#[test]
fn lookup_sigma_envelope_tanh_negative_via_symmetry() {
    let pre = sigma_tables(TS_X, TS_V);
    let s_x_log2 = TS_X;
    let bound_real = 128;
    let s_x = 1i128 << s_x_log2;
    let x_int = -s_x; // tanh(-1) ≈ -0.7616
    let (lo, up) =
        lookup_sigma_envelope(&pre, ActivationKind::Tanh, x_int, s_x_log2, bound_real).unwrap();
    let s_v = (1u64 << TS_V) as f64;
    let xr = (x_int as f64) / (s_x as f64);
    let true_t = xr.tanh();
    assert!(
        (lo as f64) <= true_t * s_v + 1e-9,
        "lo={lo}, tanh·s_v={}",
        true_t * s_v
    );
    assert!(
        (up as f64) >= true_t * s_v - 1e-9,
        "up={up}, tanh·s_v={}",
        true_t * s_v
    );
}

/// At the table's bound and beyond there is no envelope.
#[test]
fn lookup_sigma_envelope_at_exact_boundaries_returns_none() {
    let pre = sigma_tables(TS_X, TS_V);
    let s_x_log2 = TS_X;

    let sig_bound_real = 128;
    let sig_bound_int = (sig_bound_real as i128) * (1i128 << s_x_log2);
    for x in [
        sig_bound_int,
        -sig_bound_int,
        sig_bound_int + 1,
        -sig_bound_int - 1,
        sig_bound_int + 12345,
        -(sig_bound_int + 999),
    ] {
        assert_eq!(
            lookup_sigma_envelope(&pre, ActivationKind::Sigmoid, x, s_x_log2, sig_bound_real),
            None,
            "sigmoid out-of-domain x={x} must return None"
        );
    }
    let tanh_bound_real = 128;
    let tanh_bound_int = (tanh_bound_real as i128) * (1i128 << s_x_log2);
    for x in [
        tanh_bound_int,
        -tanh_bound_int,
        tanh_bound_int + 1,
        -tanh_bound_int - 1,
    ] {
        assert_eq!(
            lookup_sigma_envelope(&pre, ActivationKind::Tanh, x, s_x_log2, tanh_bound_real),
            None,
            "tanh out-of-domain x={x} must return None"
        );
    }
}

/// In-domain saturation regions (`[32·s_x, 128·s_x)` for sigmoid,
/// `[16·s_x, 128·s_x)` for tanh) still return saturation envelope
/// values from the PUBLIC TABLE (which has saturation constants
/// embedded in those entries by `SigmaTables::build`).
#[test]
fn lookup_sigma_envelope_in_domain_saturation_via_table() {
        let pre = sigma_tables(TS_X, TS_V);
    let s_x_log2 = TS_X;
    let bound_real = 128;
    let bound_int = (bound_real as i128) * (1i128 << s_x_log2);
    // 64·s_x is at real x = 64 — well into sigmoid right-saturation.
    let (lo, up) = lookup_sigma_envelope(
        &pre,
        ActivationKind::Sigmoid,
        bound_int / 2,
        s_x_log2,
        bound_real,
    )
    .unwrap();
    assert_eq!(lo, (1i128 << TS_V) - 1);
    assert_eq!(up, 1i128 << TS_V);
    // -64·s_x is at real x = -64 — sigmoid left saturation via
    // symmetry: σ(-64) ≈ 0, so via σ(-x) = 1 - σ(x), the upper-table
    // entry at idx=64·s_x is the right-sat constant, and the gadget
    // recovers σ_lower(-64)/σ_upper(-64) = (s_v - σ_upper(64),
    // s_v - σ_lower(64)) = (s_v - s_v, s_v - (s_v - 1)) = (0, 1).
    let (lo, up) = lookup_sigma_envelope(
        &pre,
        ActivationKind::Sigmoid,
        -bound_int / 2,
        s_x_log2,
        bound_real,
    )
    .unwrap();
    assert_eq!(lo, 0);
    assert_eq!(up, 1);
}

/// FD slope-match: a `z` near the true critical point produces
/// non-negative slacks; a `z` far from it fails.
#[test]
fn fd_slope_match_at_inflection() {
    // Sigmoid at z = 0 has σ' = 1/4 (max). For z just above 0 with
    // m = 1/4 - tiny, both FD slacks should be ≥ 0.
    // Use synthetic σ values: σ(z) ≈ 0.5 + ε (just past inflection).
    // At z + δ: σ ≈ 0.5 + 2ε (rising). At z - δ: σ ≈ 0.5.
    // Difference per δ ≈ ε, so we expect m·δ ≈ ε.
    let s_v = 1i128 << 16;
    let s_x = 1i128 << 11;
    let s_d = 1i128 << 11;
    // Slope m = 1/4 → d_int = s_d/4 = 512.
    let d_int = s_d / 4;
    // Real diff per δ at z = 0: σ'(0) · δ = 0.25 · 2⁻¹¹ = 2⁻¹³.
    // At scale s_v: 2⁻¹³ · 2¹⁶ = 8 codes.
    // So σ_lo(z) - σ_up(z-δ) ≈ 8 codes (with ±2 envelope wobble).
    // Similarly σ_up(z+δ) - σ_lo(z) ≈ 8 codes.
    let sigma_lo_z = s_v / 2;
    let sigma_up_z_minus_delta = s_v / 2 - 8;
    let sigma_up_z_plus_delta = s_v / 2 + 8;
    let r = fd_slope_match_slacks(
        sigma_lo_z,
        sigma_up_z_minus_delta,
        sigma_up_z_plus_delta,
        d_int,
        s_d,
        s_x,
        s_v,
    )
    .expect("honest witness yields non-negative slacks");
    // Check magnitudes: slack_fd1 = LHS - RHS = 8·s_d·s_x - d·s_v
    //   = 8·2¹¹·2¹¹ - 512·2¹⁶ = 8·2²² - 2²⁵ = 2²⁵ - 2²⁵ = 0.
    // With the ε_crit margin (4·s_d·s_x), each slack equals the
    // canonical (LHS − RHS = 0) plus ε_crit.
    let epsilon = fd_epsilon_crit(s_d, s_x).unwrap();
    assert_eq!(r.slack_fd1, epsilon);
    assert_eq!(r.slack_fd2, epsilon);
}

/// FD slope-match: a wildly mismatched `z` (slope-z disagree)
/// produces a negative slack ⇒ returns `None`.
#[test]
fn fd_slope_match_rejects_inconsistent_witness() {
    let s_v = 1i128 << 16;
    let s_x = 1i128 << 11;
    let s_d = 1i128 << 11;
    // Claim m = 0.5 (d_int = 1024) but provide σ values consistent
    // with σ' = 0.25 at z. FD1 should fail (or FD2).
    let d_int = 1024;
    let sigma_lo_z = s_v / 2;
    let sigma_up_z_minus_delta = s_v / 2 - 8;
    let sigma_up_z_plus_delta = s_v / 2 + 8;
    let r = fd_slope_match_slacks(
        sigma_lo_z,
        sigma_up_z_minus_delta,
        sigma_up_z_plus_delta,
        d_int,
        s_d,
        s_x,
        s_v,
    );
    assert!(r.is_none(), "claimed m=0.5 with σ'(z)≈0.25 must reject");
}

/// `find_strict_z_code` returns the seed when it already passes.
#[test]
fn find_strict_z_code_returns_seed_when_valid() {
    let s_v = 1i128 << 16;
    let s_x = 1i128 << 11;
    let s_d = 1i128 << 11;
    let table_len = 16usize;
    // Constant σ ⇒ σ' = 0. FD slacks at any z are 0 when d = 0.
    let sigma_lower = vec![32768i128; table_len];
    let sigma_upper = vec![32768i128; table_len]; // zero-width envelope
    let d_int = 0;
    let z = find_strict_z_code(
        &sigma_lower,
        &sigma_upper,
        d_int,
        s_d,
        s_x,
        s_v,
        /*seed*/ 4,
        /*radius*/ 8,
    );
    assert!(z.is_some(), "FD slacks at d=0, flat σ should be ≥ 0");
}

/// `find_strict_z_code` returns None when no nearby candidate
/// passes (e.g., `m` outside σ's derivative range for any z).
#[test]
fn find_strict_z_code_returns_none_when_no_match() {
    // Synthetic: very flat table ⇒ σ'(z) ≈ 0 everywhere; large
    // d_int gives no z with non-negative FD1 slack.
    let s_v = 1i128 << 16;
    let s_x = 1i128 << 11;
    let s_d = 1i128 << 11;
    let table_len = 8usize;
    let sigma_lower = vec![32768i128; table_len];
    let sigma_upper = vec![32768i128 + 1; table_len];
    let d_int = 1024; // demands m ≈ 0.5 — impossible for flat σ
    let z = find_strict_z_code(&sigma_lower, &sigma_upper, d_int, s_d, s_x, s_v, 4, 8);
    assert!(z.is_none());
}

#[test]
fn floor_div_positive_numerator() {
    assert_eq!(floor_div(7, 4), Some(1));
    assert_eq!(floor_div(8, 4), Some(2));
    assert_eq!(floor_div(0, 4), Some(0));
}

#[test]
fn floor_div_negative_numerator() {
    assert_eq!(floor_div(-7, 4), Some(-2));
    assert_eq!(floor_div(-8, 4), Some(-2));
    assert_eq!(floor_div(-1, 4), Some(-1));
    assert_eq!(floor_div(-4, 4), Some(-1));
}

#[test]
fn floor_div_remainder_invariant() {
    for n in -50i128..=50 {
        for d in 1i128..=8 {
            let q = floor_div(n, d).unwrap();
            let r = n - q * d;
            assert!(r >= 0 && r < d, "floor_div({n}, {d}) = {q}, r = {r}");
        }
    }
}

#[test]
fn ceil_div_positive_numerator() {
    assert_eq!(ceil_div(7, 4), Some(2));
    assert_eq!(ceil_div(8, 4), Some(2));
    assert_eq!(ceil_div(0, 4), Some(0));
}

#[test]
fn ceil_div_negative_numerator() {
    assert_eq!(ceil_div(-7, 4), Some(-1));
    assert_eq!(ceil_div(-8, 4), Some(-2));
    assert_eq!(ceil_div(-1, 4), Some(0));
}

#[test]
fn ceil_div_remainder_invariant() {
    for n in -50i128..=50 {
        for d in 1i128..=8 {
            let q = ceil_div(n, d).unwrap();
            let r = q * d - n;
            assert!(r >= 0 && r < d, "ceil_div({n}, {d}) = {q}, r = {r}");
        }
    }
}

#[test]
fn floor_div_rejects_zero_denominator() {
    assert_eq!(floor_div(7, 0), None);
}

#[test]
fn ceil_div_rejects_nonpositive_denominator() {
    assert_eq!(ceil_div(7, 0), None);
    assert_eq!(ceil_div(7, -2), None);
}

/// Upper-line split: with d=4 (real 0.5), x=4 (real 0.5),
/// b=0, scale s_d=s_w=8, s_b=8, s_v=2^8=256.
/// line(x) = 0.5 · 0.5 + 0 = 0.25. line·s_v = 64.
/// dx = 16. dx_step_1 = 16/8 = 2. dx_step_1·s_v = 512.
/// dx_sigma_code = 512/8 = 64. b_sigma_code = 0.
/// line_sigma_code = 64. ✓
#[test]
fn upper_line_split_simple() {
    let w = split_line_witnesses_upper(
        /*d*/ 4, /*x*/ 4, /*b*/ 0,
        /*sigma_upper*/ 50, // any value ≤ 64 → diff ≥ 0
        /*s_d*/ 8, /*s_b*/ 8, /*s_w*/ 8, /*s_v*/ 256,
    )
    .unwrap();
    assert_eq!(w.dx_step_1, 2);
    assert_eq!(w.dx_step_1_rem, 0);
    assert_eq!(w.dx_sigma_code, 64);
    assert_eq!(w.dx_sigma_rem, 0);
    assert_eq!(w.b_sigma_code, 0);
    assert_eq!(w.b_sigma_rem, 0);
    assert_eq!(w.line_sigma_code, 64);
    assert_eq!(w.diff, 14);
}

/// Upper-line split with negative x ⇒ negative dx ⇒ floor toward
/// −∞ matters. d=4, x=−4, b=0. dx = −16. floor(-16/8) = -2.
/// dx_step_1 = -2. dx_step_1·s_v = -512. floor(-512/8) = -64.
/// dx_sigma_code = -64. line_sigma_code = -64. With sigma_upper
/// at 0 (small), diff = -64 (negative ⇒ honest checks would
/// reject this line as not above σ at x=-4, which is correct
/// because line(-4) = -0.25 < σ_upper(-4) ≈ 0.5 for sigmoid).
#[test]
fn upper_line_split_negative_x_uses_floor_div() {
    let w = split_line_witnesses_upper(
        /*d*/ 4, /*x*/ -4, /*b*/ 0, /*sigma_upper*/ 0, /*s_d*/ 8,
        /*s_b*/ 8, /*s_w*/ 8, /*s_v*/ 256,
    )
    .unwrap();
    assert_eq!(w.dx_step_1, -2);
    assert_eq!(w.dx_step_1_rem, 0); // -16 - (-2)·8 = 0
    assert_eq!(w.dx_sigma_code, -64);
    assert_eq!(w.dx_sigma_rem, 0);
    assert_eq!(w.line_sigma_code, -64);
    assert_eq!(w.diff, -64);
}

/// Upper-line split with non-multiple d·x: d=5, x=3 ⇒ dx=15.
/// floor(15/8) = 1. dx_step_1 = 1, rem = 7. dx_step_1·s_v = 256.
/// floor(256/8) = 32. dx_sigma_code = 32, rem = 0.
#[test]
fn upper_line_split_nonzero_remainder() {
    let w = split_line_witnesses_upper(5, 3, 0, 0, 8, 8, 8, 256).unwrap();
    assert_eq!(w.dx_step_1, 1);
    assert_eq!(w.dx_step_1_rem, 7);
    assert!(w.dx_step_1_rem < 8); // ∈ [0, s_d)
    assert_eq!(w.dx_sigma_code, 32);
}

/// Lower-line split with the same numbers as upper: dx=16, but
/// ceil(16/8) = 2 (same as floor when divisible). Then ceil(512/8)
/// = 64. line_sigma_code = 64. With sigma_lower = 100, diff = 36.
#[test]
fn lower_line_split_simple() {
    let w = split_line_witnesses_lower(4, 4, 0, /*sigma_lower*/ 100, 8, 8, 8, 256).unwrap();
    assert_eq!(w.line_sigma_code, 64);
    assert_eq!(w.diff, 36);
}

/// Lower-line split with non-divisible: d=5, x=3, dx=15.
/// ceil(15/8) = 2. dx_step_1 = 2, rem = 2·8 − 15 = 1.
/// dx_step_1·s_v = 512. ceil(512/8) = 64. rem = 64·8 − 512 = 0.
#[test]
fn lower_line_split_uses_ceil_div() {
    let w = split_line_witnesses_lower(5, 3, 0, 0, 8, 8, 8, 256).unwrap();
    assert_eq!(w.dx_step_1, 2);
    assert_eq!(w.dx_step_1_rem, 1);
}

/// Lower-line split with negative x: d=5, x=-3, dx=-15.
/// ceil(-15/8) = -1. rem = -1·8 − (-15) = 7. ∈ [0, 8) ✓
#[test]
fn lower_line_split_negative_x_uses_ceil_div() {
    let w = split_line_witnesses_lower(5, -3, 0, 0, 8, 8, 8, 256).unwrap();
    assert_eq!(w.dx_step_1, -1);
    assert_eq!(w.dx_step_1_rem, 7);
}

/// The split's line code is on the safe side of the real line.
#[test]
fn split_lines_are_conservative() {
    for d in -9i128..=9 {
        for x in -9i128..=9 {
            for b in [-7i128, 0, 5] {
                let (s_d, s_b, s_w, s_v) = (8i128, 4, 16, 256);
                // The line at x, times s_v s_d s_b s_w / s_b.
                let exact = d * x * s_v * s_b + b * s_v * s_d * s_w;
                let scale = s_d * s_w * s_b;
                let up = split_line_witnesses_upper(d, x, b, 0, s_d, s_b, s_w, s_v).unwrap();
                assert!(up.line_sigma_code * scale <= exact);
                let lo = split_line_witnesses_lower(d, x, b, 0, s_d, s_b, s_w, s_v).unwrap();
                assert!(lo.line_sigma_code * scale >= exact);
            }
        }
    }
}

/// The mirrored envelope is that of the mirrored argument.
#[test]
fn envelopes_are_symmetric() {
    let pre = sigma_tables(2, 8);
    for x in 1i128..512 {
        let (lo, up) =
            lookup_sigma_envelope(&pre, ActivationKind::Sigmoid, x, 2, 128).unwrap();
        assert_eq!(
            lookup_sigma_envelope(&pre, ActivationKind::Sigmoid, -x, 2, 128),
            Some((256 - up, 256 - lo))
        );
        let (lo, up) = lookup_sigma_envelope(&pre, ActivationKind::Tanh, x, 2, 128).unwrap();
        assert_eq!(
            lookup_sigma_envelope(&pre, ActivationKind::Tanh, -x, 2, 128),
            Some((-up, -lo))
        );
    }
    assert_eq!(lookup_sigma_envelope(&pre, ActivationKind::ReLU, 1, 2, 128), None);
}

/// A bound that no table reaches still leaves out what lies beyond it.
#[test]
fn lookup_sigma_envelope_beyond_any_table() {
    let pre = sigma_tables(TS_X, TS_V);
    let bound_int = (i64::MAX as i128) << 60;
    for x in [bound_int, -bound_int, bound_int - 1, 1i128 << 100, i128::MIN, i128::MAX] {
        assert_eq!(lookup_sigma_envelope(&pre, ActivationKind::Tanh, x, 60, i64::MAX), None);
    }
    let at = |x: i128| lookup_sigma_envelope(&pre, ActivationKind::Tanh, x, 60, i64::MAX);
    let (lo, up) = at(5).expect("in the table");
    assert_eq!(at(-5), Some((-up, -lo)));
    assert_eq!(lookup_sigma_envelope(&pre, ActivationKind::Tanh, 0, 60, 0), None);
    assert_eq!(lookup_sigma_envelope(&pre, ActivationKind::Tanh, 0, 60, i64::MIN), None);
    assert_eq!(lookup_sigma_envelope(&pre, ActivationKind::ReLU, 0, 60, 1), None);
}
