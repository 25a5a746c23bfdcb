//! What the checks of a layer's lines add up to.

use crate::errors::SnarkError;
use crate::field::{fmul, fsub, modulus, residue};
use crate::network::ActivationKind;
use crate::params::SnarkParams;
use crate::pcs::MlPcs;
use crate::relu_step::relu_of;
use crate::relu_upper_endpoint::slack_numerator;
use crate::ring::{lemma_residue_id, lemma_residue_mul, lemma_residue_sub};
use crate::scale::Scale;
use crate::sshape_critical_point::{SshapeCriticalPointProof, critical_verdict};
use crate::sshape_witness::SshapeLineKind;
use vstd::arithmetic::div_mod::{lemma_mod_add_multiples_vanish, lemma_small_mod};
use vstd::prelude::*;

verus! {

/// An upper line above the ReLU at both ends of an interval is above it on the
/// whole interval: the ReLU is convex.
pub proof fn law_endpoints_suffice(
    d: int,
    b: int,
    l: int,
    u: int,
    x: int,
    s_d: int,
    s_w: int,
    s_b: int,
)
    requires
        s_d > 0,
        l <= x <= u,
        slack_numerator(d, b, l, relu_of(l), s_d, s_w, s_b) >= 0,
        slack_numerator(d, b, u, relu_of(u), s_d, s_w, s_b) >= 0,
    ensures
        slack_numerator(d, b, x, relu_of(x), s_d, s_w, s_b) >= 0,
{
    let k = b * (s_w / s_b) * s_d;
    let e = d - s_d;
    lemma_side(d, s_d, l);
    lemma_side(d, s_d, u);
    lemma_side(d, s_d, x);
    if x <= 0 {
        if d >= 0 {
            assert(d * x >= d * l) by (nonlinear_arith)
                requires
                    d >= 0,
                    l <= x,
            ;
        } else if u <= 0 {
            assert(d * x >= d * u) by (nonlinear_arith)
                requires
                    d < 0,
                    x <= u,
            ;
        } else {
            assert(d * x >= 0) by (nonlinear_arith)
                requires
                    d < 0,
                    x <= 0,
            ;
            assert(e * u <= 0) by (nonlinear_arith)
                requires
                    e < 0,
                    u > 0,
            ;
        }
    } else {
        if e <= 0 {
            assert(e * x >= e * u) by (nonlinear_arith)
                requires
                    e <= 0,
                    x <= u,
            ;
        } else if l > 0 {
            assert(e * x >= e * l) by (nonlinear_arith)
                requires
                    e > 0,
                    l <= x,
            ;
        } else {
            assert(e * x >= 0) by (nonlinear_arith)
                requires
                    e > 0,
                    x > 0,
            ;
            assert(d * l <= 0) by (nonlinear_arith)
                requires
                    d > 0,
                    l <= 0,
            ;
        }
    }
}

/// The line minus the ReLU, without the offset, on either side of zero.
proof fn lemma_side(d: int, s: int, x: int)
    ensures
        x <= 0 ==> d * x - relu_of(x) * s == d * x,
        x > 0 ==> d * x - relu_of(x) * s == (d - s) * x,
{
    if x <= 0 {
        assert(0 * s == 0);
    } else {
        assert((d - s) * x == d * x - x * s) by (nonlinear_arith);
    }
}

/// A lower line of slope zero or one, without offset, is below the ReLU.
pub proof fn law_lower_line_below_relu(d: int, s_d: int, x: int)
    requires
        s_d > 0,
        d == 0 || d == s_d,
    ensures
        d * x <= relu_of(x) * s_d,
{
    assert(0 * x == 0);
    if x <= 0 {
        assert(s_d * x <= 0) by (nonlinear_arith)
            requires
                s_d > 0,
                x <= 0,
        ;
        assert(0 * s_d == 0);
    } else {
        assert(x * s_d == s_d * x) by (nonlinear_arith);
        assert(s_d * x >= 0) by (nonlinear_arith)
            requires
                s_d > 0,
                x > 0,
        ;
    }
}

/// Among codes of at most `2^100`, the slopes that the check of slopes admits
/// are zero and the code of one.
pub proof fn law_boolean_slopes(d: int, s_d: int)
    requires
        -0x10_0000_0000_0000_0000_0000_0000 <= d <= 0x10_0000_0000_0000_0000_0000_0000,
        0 <= s_d <= 0x10_0000_0000_0000_0000_0000_0000,
    ensures
        fmul(residue(d), fsub(residue(s_d), residue(d))) == 0 <==> d == 0 || d == s_d,
{
    let p = d * (s_d - d);
    let c = 0x10_0000_0000_0000_0000_0000_0000int;
    lemma_residue_sub(s_d, d);
    lemma_residue_mul(d, s_d - d);
    lemma_residue_id(0);
    assert(-(2 * c * c) <= p <= 2 * c * c) by (nonlinear_arith)
        requires
            p == d * (s_d - d),
            -c <= d <= c,
            0 <= s_d <= c,
            c == 0x10_0000_0000_0000_0000_0000_0000int,
    ;
    assert(2 * c * c < modulus());
    assert(residue(p) == 0 <==> p == 0) by {
        reveal(residue);
        if p > 0 {
            lemma_small_mod(p as nat, modulus() as nat);
        } else if p < 0 {
            lemma_mod_add_multiples_vanish(p, modulus());
            lemma_small_mod((p + modulus()) as nat, modulus() as nat);
        }
    }
    assert(p == 0 <==> d == 0 || d == s_d) by (nonlinear_arith)
        requires
            p == d * (s_d - d),
    ;
}

/// A critical-point proof for one line, function or layer is rejected under
/// any other.
pub proof fn law_no_critical_replay<P: MlPcs>(
    params: SnarkParams<P>,
    proof: SshapeCriticalPointProof<P>,
    layer_idx: usize,
    kind: ActivationKind,
    line: SshapeLineKind,
    other_layer_idx: usize,
    other_kind: ActivationKind,
    other_line: SshapeLineKind,
    n: usize,
    preact_l: P::Commitment,
    preact_u: P::Commitment,
    d: P::Commitment,
    b: P::Commitment,
    s_d: Scale,
    s_b: Scale,
    s_w: Scale,
    t0: Seq<u8>,
    t1: Seq<u8>,
)
    requires
        critical_verdict(
            params,
            proof,
            layer_idx,
            kind,
            line,
            n,
            preact_l,
            preact_u,
            d,
            b,
            s_d,
            s_b,
            s_w,
            t0,
        ) == Ok::<(), SnarkError>(()),
        layer_idx != other_layer_idx || kind != other_kind || line != other_line,
    ensures
        critical_verdict(
            params,
            proof,
            other_layer_idx,
            other_kind,
            other_line,
            n,
            preact_l,
            preact_u,
            d,
            b,
            s_d,
            s_b,
            s_w,
            t1,
        ) is Err,
{
}

} // verus!
