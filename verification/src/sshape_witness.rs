//! Integer witnesses of the S-shape endpoint gadget.

use crate::columns::{even_vars, fits, lemma_pow2_126, pow2_i128};
use crate::envelope::sigma_tables;
use crate::errors::SnarkError;
use crate::field::{Fr, fr_to_signed_i128, signed_of};
use crate::logup::{lower, upper};
use crate::network::ActivationKind;
use crate::params::SigmaTables;
use crate::pcs::lemma_pow2_injective;
use crate::scale::Scale;
use crate::sshape_helpers::{
    envelope_tables, lemma_floor, quot, quot_rem, reflected, split_b, split_diff, split_fits,
    split_line_witnesses_lower, split_line_witnesses_upper, split_step,
};
use vstd::arithmetic::power2::{lemma_pow2_pos, lemma_pow2_strictly_increases, lemma_pow2_unfold, pow2};
use vstd::prelude::*;

verus! {

/// Which preactivation endpoint a proof is about.
#[derive(Clone, Copy, Debug, PartialEq, Eq, Structural)]
pub enum SshapeEndpointKind {
    Lower,
    Upper,
}

impl SshapeEndpointKind {
    /// The tag that the transcript is bound to.
    pub fn tag(self) -> (r: u8)
        ensures
            r == endpoint_tag(self),
    {
        match self {
            SshapeEndpointKind::Lower => 0,
            SshapeEndpointKind::Upper => 1,
        }
    }
}

/// Which relaxation line a proof is about: the upper line, which must be above
/// the function, or the lower one, which must be below it.
#[derive(Clone, Copy, Debug, PartialEq, Eq, Structural)]
pub enum SshapeLineKind {
    Upper,
    Lower,
}

impl SshapeLineKind {
    /// The tag that the transcript is bound to.
    pub fn tag(self) -> (r: u8)
        ensures
            r == line_tag(self),
    {
        match self {
            SshapeLineKind::Upper => 0,
            SshapeLineKind::Lower => 1,
        }
    }
}

/// The tag of an endpoint.
pub open spec fn endpoint_tag(kind: SshapeEndpointKind) -> u8 {
    match kind {
        SshapeEndpointKind::Lower => 0,
        SshapeEndpointKind::Upper => 1,
    }
}

/// The tag of a line.
pub open spec fn line_tag(kind: SshapeLineKind) -> u8 {
    match kind {
        SshapeLineKind::Upper => 0,
        SshapeLineKind::Lower => 1,
    }
}

/// The tag of a function.
pub open spec fn kind_tag(kind: ActivationKind) -> u8 {
    match kind {
        ActivationKind::Sigmoid => 0,
        ActivationKind::Tanh => 1,
        ActivationKind::ReLU => 2,
    }
}

/// Different endpoints have different tags, and so have different lines.
pub proof fn law_tags_distinct(
    e1: SshapeEndpointKind,
    e2: SshapeEndpointKind,
    l1: SshapeLineKind,
    l2: SshapeLineKind,
)
    ensures
        endpoint_tag(e1) == endpoint_tag(e2) <==> e1 == e2,
        line_tag(l1) == line_tag(l2) <==> l1 == l2,
{
}

// ---- Scales ----

/// Whether a scale is a power of two with an exponent in `[0, bits]`.
pub open spec fn scale_in(s: Scale, bits: int) -> bool {
    s.spec_is_pow2() && 0 <= s.e <= bits
}

/// Whether every scale is a power of two that fits the range table, so that
/// every remainder of the split arithmetic does.
pub fn scale_precondition_holds(s_d: Scale, s_b: Scale, s_w: Scale, range_bits: usize) -> (r: bool)
    requires
        range_bits <= i32::MAX,
    ensures
        r == (scale_in(s_d, range_bits as int) && scale_in(s_b, range_bits as int) && scale_in(
            s_w,
            range_bits as int,
        )),
{
    if !s_d.is_pow2() || !s_b.is_pow2() || !s_w.is_pow2() {
        return false;
    }
    let s_d_e: i32 = match s_d.pow2_exponent() {
        Ok(e) => e,
        Err(_) => {
            return false;
        },
    };
    let s_b_e: i32 = match s_b.pow2_exponent() {
        Ok(e) => e,
        Err(_) => {
            return false;
        },
    };
    let s_w_e: i32 = match s_w.pow2_exponent() {
        Ok(e) => e,
        Err(_) => {
            return false;
        },
    };
    if s_d_e < 0 || s_b_e < 0 || s_w_e < 0 {
        return false;
    }
    let bits: i32 = range_bits as i32;
    s_d_e <= bits && s_b_e <= bits && s_w_e <= bits
}

/// The size of an integer.
pub open spec fn abs_int(x: int) -> int {
    if x >= 0 {
        x
    } else {
        -x
    }
}

/// The table index of a preactivation code at scale `s_w`: its size, carried
/// over to the table's scale and rounded down.
pub open spec fn abs_index(code: int, s_w: Scale, s_x_log2: int) -> Option<int> {
    let a = abs_int(code);
    let k = s_x_log2 - s_w.e;
    if !s_w.spec_is_pow2() || !fits(a) {
        None
    } else if k < 0 {
        Some(a / (pow2((-k) as nat) as int))
    } else if k < 128 && fits(a * pow2(k as nat)) {
        Some(a * pow2(k as nat))
    } else {
        None
    }
}

/// Convert a preactivation code at scale `s_w` to a table index at scale
/// `2^s_x_log2`. There is none where it cannot be represented, or `s_w` is not
/// a power of two.
pub fn preact_to_abs_table_index(preact_code: i128, s_w: Scale, s_x_log2: i32) -> (r: Option<i128>)
    ensures
        match abs_index(preact_code as int, s_w, s_x_log2 as int) {
            None => r is None,
            Some(v) => r matches Some(w) && w == v,
        },
{
    let s_w_e: i32 = match s_w.pow2_exponent() {
        Ok(e) => e,
        Err(_) => {
            return None;
        },
    };
    if preact_code == i128::MIN {
        return None;
    }
    let abs_code: i128 = if preact_code >= 0 {
        preact_code
    } else {
        -preact_code
    };
    let k: i64 = s_x_log2 as i64 - s_w_e as i64;
    proof {
        lemma_pow2_126();
        vstd::arithmetic::power2::lemma_pow2_unfold(127);
    }
    if k >= 0 {
        if k >= 128 {
            return None;
        }
        if k >= 127 {
            proof {
                if abs_code > 0 {
                    assert(pow2(127) <= pow2(k as nat));
                    assert(abs_code * pow2(k as nat) >= pow2(127)) by (nonlinear_arith)
                        requires
                            abs_code >= 1,
                            pow2(k as nat) >= pow2(127),
                    ;
                } else {
                    assert(0 * pow2(k as nat) == 0);
                }
            }
            return if abs_code == 0 {
                Some(0)
            } else {
                None
            };
        }
        abs_code.checked_mul(pow2_i128(k as usize))
    } else if k <= -127 {
        proof {
            let p = pow2((-k) as nat) as int;
            if -k > 127 {
                lemma_pow2_strictly_increases(127, (-k) as nat);
            }
            vstd::arithmetic::div_mod::lemma_basic_div(abs_code as int, p);
        }
        Some(0)
    } else {
        let p: i128 = pow2_i128((-k) as usize);
        proof {
            lemma_pow2_pos((-k) as nat);
            lemma_floor(abs_code as int, p as int);
        }
        Some(abs_code / p)
    }
}

// ---- The envelope value that a line is held against ----

/// The envelope code at a signed input, from the envelope `(up, lo)` at its
/// size and its sign bit: the bound that a line of this kind must keep.
pub open spec fn sigma_used(
    kind: ActivationKind,
    line: SshapeLineKind,
    up: int,
    lo: int,
    sign: int,
    s_v: int,
) -> int {
    let same = envelope_same(line, up, lo);
    same + sign * (envelope_opposite(kind, line, up, lo, s_v) - same)
}

/// The bound of a line's own side.
pub open spec fn envelope_same(line: SshapeLineKind, up: int, lo: int) -> int {
    match line {
        SshapeLineKind::Upper => up,
        SshapeLineKind::Lower => lo,
    }
}

/// The other side's bound, reflected.
pub open spec fn envelope_opposite(
    kind: ActivationKind,
    line: SshapeLineKind,
    up: int,
    lo: int,
    s_v: int,
) -> int {
    let opp = match line {
        SshapeLineKind::Upper => lo,
        SshapeLineKind::Lower => up,
    };
    match kind {
        ActivationKind::Sigmoid => s_v - opp,
        _ => -opp,
    }
}

/// Whether every sum and product on the way to the envelope code fits.
pub open spec fn sigma_used_fits(
    kind: ActivationKind,
    line: SshapeLineKind,
    up: int,
    lo: int,
    sign: int,
    s_v: int,
) -> bool {
    let same = envelope_same(line, up, lo);
    let neg = envelope_opposite(kind, line, up, lo, s_v);
    &&& fits(neg)
    &&& fits(neg - same)
    &&& fits(sign * (neg - same))
    &&& fits(same + sign * (neg - same))
}

/// For a nonnegative input this is the table's bound, and for a negative one
/// the reflected bound: the envelope at the signed input.
pub proof fn law_sigma_used_is_envelope(
    kind: ActivationKind,
    line: SshapeLineKind,
    up: int,
    lo: int,
    s_v: int,
)
    requires
        kind != ActivationKind::ReLU,
    ensures
        sigma_used(kind, line, up, lo, 0, s_v) == (if line is Upper {
            up
        } else {
            lo
        }),
        sigma_used(kind, line, up, lo, 1, s_v) == (if line is Upper {
            reflected(kind, s_v, (lo, up)).1
        } else {
            reflected(kind, s_v, (lo, up)).0
        }),
{
}

/// Compute the envelope code at a signed input.
pub fn compute_sigma_used(
    kind: ActivationKind,
    line: SshapeLineKind,
    sigma_upper_at_abs: i128,
    sigma_lower_at_abs: i128,
    sign: i128,
    s_v: i128,
) -> (r: i128)
    requires
        kind != ActivationKind::ReLU,
        sigma_used_fits(
            kind,
            line,
            sigma_upper_at_abs as int,
            sigma_lower_at_abs as int,
            sign as int,
            s_v as int,
        ),
    ensures
        r == sigma_used(
            kind,
            line,
            sigma_upper_at_abs as int,
            sigma_lower_at_abs as int,
            sign as int,
            s_v as int,
        ),
{
    let (same, opp): (i128, i128) = match line {
        SshapeLineKind::Upper => (sigma_upper_at_abs, sigma_lower_at_abs),
        SshapeLineKind::Lower => (sigma_lower_at_abs, sigma_upper_at_abs),
    };
    let neg_correction: i128 = match kind {
        ActivationKind::Sigmoid => s_v - opp,
        _ => -opp,
    };
    let step: i128 = neg_correction - same;
    same + sign * step
}

// ---- The cells ----

/// The integers of one cell: its table index and sign bit, the envelope there,
/// and the split of the line.
#[derive(Clone, Copy, Debug, PartialEq, Eq, Structural)]
pub struct SplitArithCellWitness {
    pub abs_l: i128,
    pub sign: i128,
    pub sigma_upper_at_abs: i128,
    pub sigma_lower_at_abs: i128,
    pub dx_step_1: i128,
    pub dx_step_1_rem: i128,
    pub dx_sigma_code: i128,
    pub dx_sigma_rem: i128,
    pub b_sigma_code: i128,
    pub b_sigma_rem: i128,
    pub diff: i128,
}

/// The scale codes of a gadget.
pub ghost struct ScaleCodes {
    pub s_d: int,
    pub s_b: int,
    pub s_w: int,
    pub s_v: int,
    pub s_w_log2: int,
}

/// The name of a function in errors.
pub open spec fn activation_name(kind: ActivationKind) -> &'static str {
    match kind {
        ActivationKind::Sigmoid => "sigmoid",
        ActivationKind::Tanh => "tanh",
        ActivationKind::ReLU => "?",
    }
}

/// The name of a function in errors.
pub fn activation_label(kind: ActivationKind) -> (r: &'static str)
    ensures
        r == activation_name(kind),
{
    match kind {
        ActivationKind::Sigmoid => "sigmoid",
        ActivationKind::Tanh => "tanh",
        ActivationKind::ReLU => "?",
    }
}

/// The integers of a cell with preactivation `l` and line `(d, b)`, or the
/// reason why there are none.
pub open spec fn endpoint_cell(
    pre: SigmaTables,
    kind: ActivationKind,
    line: SshapeLineKind,
    l: int,
    d: int,
    b: int,
    s: ScaleCodes,
) -> Result<SplitArithCellWitness, SnarkError> {
    let (lower, upper) = envelope_tables(pre, kind)->Some_0;
    let round_up = line is Lower;
    match abs_index(l, Scale { c: 1, e: s.s_w_log2 as i32 }, pre.s_x_log2 as int) {
        None => Err(
            SnarkError::ShapeMismatch { what: "sshape_endpoint: abs table index conversion" },
        ),
        Some(k) => if k >= upper.len() {
            Err(
                SnarkError::RelaxationSoundnessSshapeInvalid {
                    layer_idx: 0,
                    activation: activation_name(kind),
                    side: "endpoint",
                    detail: "sshape_endpoint: preact |l| out of half-table domain (|l|·s_x/s_w >= table_len). Domain is |l| < 128·s_w; saturation outside that requires a separate extension.",
                },
            )
        } else {
            match signed_of(upper[k]) {
                None => Err(SnarkError::FieldDecodeOutOfRange { which: "sshape: σ_upper decode" }),
                Some(up) => match signed_of(lower[k]) {
                    None => Err(
                        SnarkError::FieldDecodeOutOfRange { which: "sshape: σ_lower decode" },
                    ),
                    Some(lo) => {
                        let sign = if l < 0 {
                            1int
                        } else {
                            0
                        };
                        let used = sigma_used(kind, line, up as int, lo as int, sign, s.s_v);
                        let step = split_step(round_up, d, l, s.s_d);
                        if !split_fits(round_up, d, l, b, used, s.s_d, s.s_b, s.s_w, s.s_v) {
                            Err(
                                SnarkError::ShapeMismatch {
                                    what: if round_up {
                                        "sshape_endpoint: split-arith witness compute (lower)"
                                    } else {
                                        "sshape_endpoint: split-arith witness compute (upper)"
                                    },
                                },
                            )
                        } else if split_diff(round_up, d, l, b, used, s.s_d, s.s_b, s.s_w, s.s_v)
                            < 0 {
                            Err(
                                SnarkError::RelaxationSoundnessSshapeInvalid {
                                    layer_idx: 0,
                                    activation: activation_name(kind),
                                    side: "endpoint",
                                    detail: "sshape_endpoint: line does NOT bound σ_used at this endpoint (split-arith diff < 0). Cert generator should ceil/floor against the table envelope, not raw float σ.",
                                },
                            )
                        } else {
                            Ok(
                                SplitArithCellWitness {
                                    abs_l: k as i128,
                                    sign: sign as i128,
                                    sigma_upper_at_abs: up,
                                    sigma_lower_at_abs: lo,
                                    dx_step_1: step as i128,
                                    dx_step_1_rem: quot_rem(round_up, d * l, s.s_d) as i128,
                                    dx_sigma_code: quot(round_up, step * s.s_v, s.s_w) as i128,
                                    dx_sigma_rem: quot_rem(round_up, step * s.s_v, s.s_w) as i128,
                                    b_sigma_code: split_b(round_up, b, s.s_b, s.s_v) as i128,
                                    b_sigma_rem: quot_rem(round_up, b * s.s_v, s.s_b) as i128,
                                    diff: split_diff(
                                        round_up,
                                        d,
                                        l,
                                        b,
                                        used,
                                        s.s_d,
                                        s.s_b,
                                        s.s_w,
                                        s.s_v,
                                    ) as i128,
                                },
                            )
                        }
                    },
                },
            }
        },
    }
}

/// The integers of a padding cell: the table's first row, and zeros.
pub open spec fn padding_cell(up0: i128, lo0: i128) -> SplitArithCellWitness {
    SplitArithCellWitness {
        abs_l: 0,
        sign: 0,
        sigma_upper_at_abs: up0,
        sigma_lower_at_abs: lo0,
        dx_step_1: 0,
        dx_step_1_rem: 0,
        dx_sigma_code: 0,
        dx_sigma_rem: 0,
        b_sigma_code: 0,
        b_sigma_rem: 0,
        diff: 0,
    }
}

/// The first error among the real cells from `i` on.
pub open spec fn endpoint_scan(
    pre: SigmaTables,
    kind: ActivationKind,
    line: SshapeLineKind,
    preact: Seq<i128>,
    d: Seq<i128>,
    b: Seq<i128>,
    s: ScaleCodes,
    n_padded: nat,
    i: nat,
) -> Option<SnarkError>
    decreases n_padded - i,
{
    if i >= n_padded || i >= preact.len() {
        None
    } else {
        match endpoint_cell(
            pre,
            kind,
            line,
            preact[i as int] as int,
            d[i as int] as int,
            b[i as int] as int,
            s,
        ) {
            Err(e) => Some(e),
            Ok(_) => endpoint_scan(pre, kind, line, preact, d, b, s, n_padded, i + 1),
        }
    }
}

/// The reason why a layer has no witnesses, if it has none.
#[verifier::opaque]
pub open spec fn endpoint_error(
    pre: SigmaTables,
    kind: ActivationKind,
    line: SshapeLineKind,
    preact: Seq<i128>,
    d: Seq<i128>,
    b: Seq<i128>,
    s: ScaleCodes,
    n_padded: nat,
) -> Option<SnarkError> {
    let (lower, upper) = envelope_tables(pre, kind)->Some_0;
    if signed_of(upper[0]) is None {
        Some(SnarkError::FieldDecodeOutOfRange { which: "sshape: σ_upper[0] decode" })
    } else if signed_of(lower[0]) is None {
        Some(SnarkError::FieldDecodeOutOfRange { which: "sshape: σ_lower[0] decode" })
    } else {
        endpoint_scan(pre, kind, line, preact, d, b, s, n_padded, 0)
    }
}

/// The cells of a layer, padded.
pub open spec fn endpoint_cells(
    pre: SigmaTables,
    kind: ActivationKind,
    line: SshapeLineKind,
    preact: Seq<i128>,
    d: Seq<i128>,
    b: Seq<i128>,
    s: ScaleCodes,
    n_padded: nat,
) -> Seq<SplitArithCellWitness> {
    let (lower, upper) = envelope_tables(pre, kind)->Some_0;
    Seq::new(
        n_padded,
        |i: int|
            if i < preact.len() {
                endpoint_cell(
                    pre,
                    kind,
                    line,
                    preact[i] as int,
                    d[i] as int,
                    b[i] as int,
                    s,
                )->Ok_0
            } else {
                padding_cell(signed_of(upper[0])->Some_0, signed_of(lower[0])->Some_0)
            },
    )
}

/// No error among the cells means that each real cell has its integers.
pub proof fn lemma_endpoint_scan_none(
    pre: SigmaTables,
    kind: ActivationKind,
    line: SshapeLineKind,
    preact: Seq<i128>,
    d: Seq<i128>,
    b: Seq<i128>,
    s: ScaleCodes,
    n_padded: nat,
    i: nat,
)
    requires
        endpoint_scan(pre, kind, line, preact, d, b, s, n_padded, i) is None,
    ensures
        forall|k: int|
            i <= k < preact.len() && k < n_padded ==> endpoint_cell(
                pre,
                kind,
                line,
                #[trigger] preact[k] as int,
                d[k] as int,
                b[k] as int,
                s,
            ) is Ok,
    decreases n_padded - i,
{
    if i < n_padded && i < preact.len() {
        lemma_endpoint_scan_none(pre, kind, line, preact, d, b, s, n_padded, i + 1);
        assert forall|k: int| i <= k < preact.len() && k < n_padded implies endpoint_cell(
            pre,
            kind,
            line,
            #[trigger] preact[k] as int,
            d[k] as int,
            b[k] as int,
            s,
        ) is Ok by {
            if k > i {
                assert(i + 1 <= k);
            }
        }
    }
}

/// Whether a code's 128 bits hold one bit alone, at position `k`: the code is
/// `2^k`, and the least code for `k = 127`.
pub open spec fn single_bit(code: int, k: nat) -> bool {
    code == pow2(k) || (k == 127 && code == i128::MIN)
}

/// Only one position can be that of a code's only bit.
proof fn lemma_single_bit_unique(code: int, j: nat, k: nat)
    requires
        fits(code),
        single_bit(code, j),
        single_bit(code, k),
    ensures
        j == k,
{
    lemma_pow2_pos(j);
    lemma_pow2_pos(k);
    lemma_pow2_injective(j, k);
}

/// The position of a code's only bit, if it has one alone.
fn bit_position(x: i128) -> (r: Option<i32>)
    ensures
        match r {
            Some(k) => 0 <= k <= 127 && single_bit(x as int, k as nat),
            None => forall|k: nat| !#[trigger] single_bit(x as int, k),
        },
{
    if x <= 0 {
        proof {
            assert forall|k: nat| #[trigger] single_bit(x as int, k) implies x == i128::MIN by {
                lemma_pow2_pos(k);
            }
        }
        return if x == i128::MIN {
            assert(single_bit(x as int, 127));
            Some(127)
        } else {
            None
        };
    }
    let mut p: i128 = 1;
    let mut k: i32 = 0;
    proof {
        vstd::arithmetic::power2::lemma2_to64();
        lemma_pow2_126();
    }
    while p < x
        invariant
            x > 0,
            0 <= k <= 126,
            p == pow2(k as nat),
            pow2(126) == 0x4000_0000_0000_0000_0000_0000_0000_0000int,
            forall|j: nat| j < k ==> #[trigger] pow2(j) < x,
        decreases 126 - k,
    {
        proof {
            lemma_pow2_unfold((k + 1) as nat);
            lemma_pow2_unfold(127);
        }
        if k == 126 {
            proof {
                assert forall|j: nat| !#[trigger] single_bit(x as int, j) by {
                    if j > 127 {
                        lemma_pow2_strictly_increases(127, j);
                    }
                }
            }
            return None;
        }
        proof {
            if k + 1 < 126 {
                lemma_pow2_strictly_increases((k + 1) as nat, 126);
            }
        }
        p = p * 2;
        k += 1;
    }
    if p == x {
        assert(single_bit(x as int, k as nat));
        Some(k)
    } else {
        proof {
            assert forall|j: nat| !#[trigger] single_bit(x as int, j) by {
                if j > k {
                    lemma_pow2_strictly_increases(k as nat, j);
                }
            }
        }
        None
    }
}

/// Compute the integers of one cell.
fn endpoint_witness(
    pre: &SigmaTables,
    kind: ActivationKind,
    line: SshapeLineKind,
    l: i128,
    d: i128,
    b: i128,
    s_d_code: i128,
    s_b_code: i128,
    s_w_code: i128,
    s_v_code: i128,
    s_w_log2: i32,
) -> (r: Result<SplitArithCellWitness, SnarkError>)
    requires
        pre.wf(),
        kind != ActivationKind::ReLU,
        -0x4000_0000_0000_0000_0000_0000_0000_0000 <= s_v_code
            <= 0x4000_0000_0000_0000_0000_0000_0000_0000,
    ensures
        r == endpoint_cell(
            *pre,
            kind,
            line,
            l as int,
            d as int,
            b as int,
            (ScaleCodes {
                s_d: s_d_code as int,
                s_b: s_b_code as int,
                s_w: s_w_code as int,
                s_v: s_v_code as int,
                s_w_log2: s_w_log2 as int,
            }),
        ),
{
    let (table_upper, table_lower): (&Vec<Fr>, &Vec<Fr>) = match sigma_tables(pre, kind) {
        Some(t) => t,
        None => {
            return Err(
                SnarkError::ShapeMismatch { what: "sshape_endpoint: abs table index conversion" },
            );
        },
    };
    let ghost (lower, upper) = envelope_tables(*pre, kind)->Some_0;
    let idx: i128 = match preact_to_abs_table_index(l, Scale::from_pow2(s_w_log2), pre.s_x_log2) {
        Some(k) => k,
        None => {
            return Err(
                SnarkError::ShapeMismatch { what: "sshape_endpoint: abs table index conversion" },
            );
        },
    };
    proof {
        assert(Scale { c: 1, e: s_w_log2 }.spec_is_pow2());
        let a = abs_int(l as int);
        let k = pre.s_x_log2 - s_w_log2;
        if k >= 0 {
            lemma_pow2_pos(k as nat);
            assert(a * pow2(k as nat) >= 0) by (nonlinear_arith)
                requires
                    a >= 0,
                    pow2(k as nat) > 0,
            ;
        } else {
            lemma_pow2_pos((-k) as nat);
            lemma_floor(a, pow2((-k) as nat) as int);
        }
        assert(idx >= 0);
        assert(upper.len() == table_upper@.len());
        assert(lower.len() == table_lower@.len());
    }
    if idx < 0 || idx >= table_upper.len() as i128 {
        return Err(
            SnarkError::RelaxationSoundnessSshapeInvalid {
                layer_idx: 0,
                activation: activation_label(kind),
                side: "endpoint",
                detail: "sshape_endpoint: preact |l| out of half-table domain (|l|·s_x/s_w >= table_len). Domain is |l| < 128·s_w; saturation outside that requires a separate extension.",
            },
        );
    }
    let i: usize = idx as usize;
    assert(upper[i as int] == table_upper@[i as int]@);
    assert(lower[i as int] == table_lower@[i as int]@);
    let s_up: i128 = match fr_to_signed_i128(table_upper[i]) {
        Some(v) => v,
        None => {
            return Err(SnarkError::FieldDecodeOutOfRange { which: "sshape: σ_upper decode" });
        },
    };
    let s_lo: i128 = match fr_to_signed_i128(table_lower[i]) {
        Some(v) => v,
        None => {
            return Err(SnarkError::FieldDecodeOutOfRange { which: "sshape: σ_lower decode" });
        },
    };
    let sign_bit: i128 = if l < 0 {
        1
    } else {
        0
    };
    proof {
        let (same, neg) = (
            envelope_same(line, s_up as int, s_lo as int),
            envelope_opposite(kind, line, s_up as int, s_lo as int, s_v_code as int),
        );
        assert(0 * (neg - same) == 0 && 1 * (neg - same) == neg - same);
    }
    let s_used: i128 = compute_sigma_used(kind, line, s_up, s_lo, sign_bit, s_v_code);
    let cell: SplitArithCellWitness = match line {
        SshapeLineKind::Upper => {
            match split_line_witnesses_upper(
                d,
                l,
                b,
                s_used,
                s_d_code,
                s_b_code,
                s_w_code,
                s_v_code,
            ) {
                Some(w) => SplitArithCellWitness {
                    abs_l: idx,
                    sign: sign_bit,
                    sigma_upper_at_abs: s_up,
                    sigma_lower_at_abs: s_lo,
                    dx_step_1: w.dx_step_1,
                    dx_step_1_rem: w.dx_step_1_rem,
                    dx_sigma_code: w.dx_sigma_code,
                    dx_sigma_rem: w.dx_sigma_rem,
                    b_sigma_code: w.b_sigma_code,
                    b_sigma_rem: w.b_sigma_rem,
                    diff: w.diff,
                },
                None => {
                    return Err(
                        SnarkError::ShapeMismatch {
                            what: "sshape_endpoint: split-arith witness compute (upper)",
                        },
                    );
                },
            }
        },
        SshapeLineKind::Lower => {
            match split_line_witnesses_lower(
                d,
                l,
                b,
                s_used,
                s_d_code,
                s_b_code,
                s_w_code,
                s_v_code,
            ) {
                Some(w) => SplitArithCellWitness {
                    abs_l: idx,
                    sign: sign_bit,
                    sigma_upper_at_abs: s_up,
                    sigma_lower_at_abs: s_lo,
                    dx_step_1: w.dx_step_1,
                    dx_step_1_rem: w.dx_step_1_rem,
                    dx_sigma_code: w.dx_sigma_code,
                    dx_sigma_rem: w.dx_sigma_rem,
                    b_sigma_code: w.b_sigma_code,
                    b_sigma_rem: w.b_sigma_rem,
                    diff: w.diff,
                },
                None => {
                    return Err(
                        SnarkError::ShapeMismatch {
                            what: "sshape_endpoint: split-arith witness compute (lower)",
                        },
                    );
                },
            }
        },
    };
    if cell.diff < 0 {
        return Err(
            SnarkError::RelaxationSoundnessSshapeInvalid {
                layer_idx: 0,
                activation: activation_label(kind),
                side: "endpoint",
                detail: "sshape_endpoint: line does NOT bound σ_used at this endpoint (split-arith diff < 0). Cert generator should ceil/floor against the table envelope, not raw float σ.",
            },
        );
    }
    Ok(cell)
}

/// Compute the cells of a layer, padded to `n_padded`. Upper lines are rounded
/// down and lower ones up.
pub fn compute_witnesses(
    pre: &SigmaTables,
    kind: ActivationKind,
    line: SshapeLineKind,
    preact_codes: &[i128],
    d_padded: &[i128],
    b_padded: &[i128],
    s_d_code: i128,
    s_b_code: i128,
    s_w_code: i128,
    s_v_code: i128,
    n_padded: usize,
) -> (r: Result<Vec<SplitArithCellWitness>, SnarkError>)
    requires
        pre.wf(),
        kind != ActivationKind::ReLU,
        -0x4000_0000_0000_0000_0000_0000_0000_0000 <= s_v_code
            <= 0x4000_0000_0000_0000_0000_0000_0000_0000,
        d_padded@.len() >= preact_codes@.len(),
        b_padded@.len() >= preact_codes@.len(),
    ensures
        (forall|k: nat| !#[trigger] single_bit(s_w_code as int, k)) ==> r == Err::<
            Vec<SplitArithCellWitness>,
            SnarkError,
        >(SnarkError::ShapeMismatch { what: "sshape_endpoint: s_w not power of two" }),
        forall|k: nat| #[trigger]
            single_bit(s_w_code as int, k) ==> {
                let s = ScaleCodes {
                    s_d: s_d_code as int,
                    s_b: s_b_code as int,
                    s_w: s_w_code as int,
                    s_v: s_v_code as int,
                    s_w_log2: k as int,
                };
                match endpoint_error(
                    *pre,
                    kind,
                    line,
                    preact_codes@,
                    d_padded@,
                    b_padded@,
                    s,
                    n_padded as nat,
                ) {
                    Some(e) => r == Err::<Vec<SplitArithCellWitness>, SnarkError>(e),
                    None => r matches Ok(cells) && cells@ == endpoint_cells(
                        *pre,
                        kind,
                        line,
                        preact_codes@,
                        d_padded@,
                        b_padded@,
                        s,
                        n_padded as nat,
                    ),
                }
            },
{
    proof {
        reveal(endpoint_error);
    }
    let n: usize = preact_codes.len();
    let s_w_log2: i32 = match bit_position(s_w_code) {
        Some(k) => k,
        None => {
            return Err(
                SnarkError::ShapeMismatch { what: "sshape_endpoint: s_w not power of two" },
            );
        },
    };
    proof {
        assert forall|k: nat| #[trigger] single_bit(s_w_code as int, k) implies k == s_w_log2 by {
            lemma_single_bit_unique(s_w_code as int, k, s_w_log2 as nat);
        }
        assert(single_bit(s_w_code as int, s_w_log2 as nat));
    }
    let (table_upper, table_lower): (&Vec<Fr>, &Vec<Fr>) = match sigma_tables(pre, kind) {
        Some(t) => t,
        None => {
            return Err(
                SnarkError::ShapeMismatch { what: "sshape_endpoint: s_w not power of two" },
            );
        },
    };
    let ghost (lower, upper) = envelope_tables(*pre, kind)->Some_0;
    proof {
        let k = choose|k: nat|
            2 <= k < 60 && #[trigger] pow2(k) == table_upper@.len() && pow2(even_vars(k))
                <= usize::MAX;
        lemma_pow2_pos(k);
        assert(upper[0] == table_upper@[0]@ && lower[0] == table_lower@[0]@);
    }
    let s_up_at_0: i128 = match fr_to_signed_i128(table_upper[0]) {
        Some(v) => v,
        None => {
            return Err(SnarkError::FieldDecodeOutOfRange { which: "sshape: σ_upper[0] decode" });
        },
    };
    let s_lo_at_0: i128 = match fr_to_signed_i128(table_lower[0]) {
        Some(v) => v,
        None => {
            return Err(SnarkError::FieldDecodeOutOfRange { which: "sshape: σ_lower[0] decode" });
        },
    };
    let ghost s = ScaleCodes {
        s_d: s_d_code as int,
        s_b: s_b_code as int,
        s_w: s_w_code as int,
        s_v: s_v_code as int,
        s_w_log2: s_w_log2 as int,
    };
    let ghost np = n_padded as nat;
    let ghost cells = endpoint_cells(
        *pre,
        kind,
        line,
        preact_codes@,
        d_padded@,
        b_padded@,
        s,
        np,
    );
    let mut out: Vec<SplitArithCellWitness> = Vec::with_capacity(n_padded);
    let mut i: usize = 0;
    while i < n_padded
        invariant
            i <= n_padded,
            n == preact_codes@.len(),
            pre.wf(),
            kind != ActivationKind::ReLU,
            -0x4000_0000_0000_0000_0000_0000_0000_0000 <= s_v_code
            <= 0x4000_0000_0000_0000_0000_0000_0000_0000,
            d_padded@.len() >= n,
            b_padded@.len() >= n,
            s == (ScaleCodes {
                s_d: s_d_code as int,
                s_b: s_b_code as int,
                s_w: s_w_code as int,
                s_v: s_v_code as int,
                s_w_log2: s_w_log2 as int,
            }),
            np == n_padded,
            0 <= s_w_log2,
            single_bit(s_w_code as int, s_w_log2 as nat),
            forall|k: nat| #[trigger] single_bit(s_w_code as int, k) ==> k == s_w_log2,
            (lower, upper) == envelope_tables(*pre, kind)->Some_0,
            signed_of(upper[0]) == Some(s_up_at_0),
            signed_of(lower[0]) == Some(s_lo_at_0),
            cells == endpoint_cells(*pre, kind, line, preact_codes@, d_padded@, b_padded@, s, np),
            out@.len() == i,
            forall|k: int| 0 <= k < i ==> #[trigger] out@[k] == cells[k],
            endpoint_scan(*pre, kind, line, preact_codes@, d_padded@, b_padded@, s, np, 0)
                == endpoint_scan(
                *pre,
                kind,
                line,
                preact_codes@,
                d_padded@,
                b_padded@,
                s,
                np,
                i as nat,
            ),
        decreases n_padded - i,
    {
        proof {
            reveal(endpoint_error);
        }
        if i >= n {
            out.push(
                SplitArithCellWitness {
                    abs_l: 0,
                    sign: 0,
                    sigma_upper_at_abs: s_up_at_0,
                    sigma_lower_at_abs: s_lo_at_0,
                    dx_step_1: 0,
                    dx_step_1_rem: 0,
                    dx_sigma_code: 0,
                    dx_sigma_rem: 0,
                    b_sigma_code: 0,
                    b_sigma_rem: 0,
                    diff: 0,
                },
            );
        } else {
            match endpoint_witness(
                pre,
                kind,
                line,
                preact_codes[i],
                d_padded[i],
                b_padded[i],
                s_d_code,
                s_b_code,
                s_w_code,
                s_v_code,
                s_w_log2,
            ) {
                Ok(cell) => {
                    out.push(cell);
                },
                Err(e) => {
                    return Err(e);
                },
            }
        }
        i += 1;
    }
    assert(out@ =~= cells);
    Ok(out)
}

} // verus!
