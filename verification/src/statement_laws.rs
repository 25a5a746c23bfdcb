//! What accepted proofs and checks say of the public statement.

use crate::binding::opens_to;
use crate::cert::QuantCert;
use crate::column_set::picked;
use crate::columns::even_vars;
use crate::commit::TensorCommitments;
use crate::field::{signed_of, vals};
use crate::logup::{lower, upper};
use crate::mle::{ceil_log2, mle};
use crate::network::{ActivationKind, LayerShape, Property};
use crate::params::SigmaTables;
use crate::pcs::{MlPcs, mle_padded};
use crate::public_binding::{
    BindingSizes, PublicBindingProof, PublicTables, has_sshape, is_sshape, pb_claims, pb_t4,
    pb_t5, public_binding_verdict, statement_sizes, working_scale,
};
use crate::qarray::vector_codes;
use crate::scale::Scale;
use crate::sshape_endpoint_api::{
    cells_verdict, cert_layer_verdict, cert_verdict, table_scale_codes,
};
use crate::sshape_helpers::{envelope_tables, law_split_is_conservative};
use crate::sshape_witness::{
    SshapeLineKind, abs_index, endpoint_cell, endpoint_error, law_sigma_used_is_envelope,
    lemma_endpoint_scan_none, sigma_used,
};
use crate::step_laws::{lemma_opened_claim, lemma_opened_pair};
use crate::transcript::{abs_u64, after_squeeze, squeezed};
use vstd::arithmetic::power2::{lemma_pow2_pos, pow2};
use vstd::prelude::*;

verus! {

// ---- The scales ----

/// An architecture has an s-shaped layer exactly where one of its layers is a
/// sigmoid or a tanh, and has none exactly where every layer is linear or a
/// ReLU.
pub proof fn law_sshape_layers(layers: Seq<LayerShape>)
    ensures
        has_sshape(layers) <==> exists|i: int|
            0 <= i < layers.len() && (#[trigger] layers[i] == (LayerShape::Activation {
                kind: ActivationKind::Sigmoid,
            }) || layers[i] == (LayerShape::Activation { kind: ActivationKind::Tanh })),
        !has_sshape(layers) <==> forall|i: int|
            0 <= i < layers.len() ==> (#[trigger] layers[i]) is Linear || layers[i] == (
            LayerShape::Activation { kind: ActivationKind::ReLU }),
{
    if has_sshape(layers) {
        let i = choose|i: int| 0 <= i < layers.len() && is_sshape(#[trigger] layers[i]);
        assert(layers[i] == (LayerShape::Activation { kind: ActivationKind::Sigmoid }) || layers[i]
            == (LayerShape::Activation { kind: ActivationKind::Tanh }));
    } else {
        assert forall|i: int| 0 <= i < layers.len() implies (#[trigger] layers[i]) is Linear
            || layers[i] == (LayerShape::Activation { kind: ActivationKind::ReLU }) by {
            assert(!is_sshape(layers[i]));
        }
    }
    if exists|i: int|
        0 <= i < layers.len() && (#[trigger] layers[i] == (LayerShape::Activation {
            kind: ActivationKind::Sigmoid,
        }) || layers[i] == (LayerShape::Activation { kind: ActivationKind::Tanh })) {
        let i = choose|i: int|
            0 <= i < layers.len() && (#[trigger] layers[i] == (LayerShape::Activation {
                kind: ActivationKind::Sigmoid,
            }) || layers[i] == (LayerShape::Activation { kind: ActivationKind::Tanh }));
        assert(is_sshape(layers[i]));
    }
}

/// An architecture with a sigmoid or a tanh works at the exponent of the
/// envelope tables, with the code 1 unless the picked scale has that exponent
/// already; one whose layers are all linear or ReLU works at the picked scale.
pub proof fn law_working_scale(layers: Seq<LayerShape>, picked: Scale, sigma_x_scale_log2: i32)
    ensures
        forall|i: int|
            0 <= i < layers.len() && (#[trigger] layers[i] == (LayerShape::Activation {
                kind: ActivationKind::Sigmoid,
            }) || layers[i] == (LayerShape::Activation { kind: ActivationKind::Tanh })) ==> {
                let w = working_scale(layers, picked, sigma_x_scale_log2);
                &&& w.e == sigma_x_scale_log2
                &&& picked.e != sigma_x_scale_log2 ==> w.c == 1
                &&& picked.e == sigma_x_scale_log2 ==> w == picked
            },
        (forall|i: int|
            0 <= i < layers.len() ==> (#[trigger] layers[i]) is Linear || layers[i] == (
            LayerShape::Activation { kind: ActivationKind::ReLU })) ==> working_scale(
            layers,
            picked,
            sigma_x_scale_log2,
        ) == picked,
{
    law_sshape_layers(layers);
}

// ---- The lines at the ends of the preactivations ----

/// The upper bound that the envelope tables give a sigmoid or a tanh at an
/// input of either sign, counted in the tables' steps. Behind zero the sigmoid
/// is one minus its reflection, and the tanh minus its reflection.
pub open spec fn upper_envelope_at(pre: SigmaTables, kind: ActivationKind, x: int) -> int {
    let one = pow2(pre.s_v_log2 as nat) as int;
    match kind {
        ActivationKind::Sigmoid => if x >= 0 {
            signed_of(pre.sigmoid_upper_fr@[x]@)->Some_0 as int
        } else {
            one - signed_of(pre.sigmoid_lower_fr@[-x]@)->Some_0
        },
        _ => if x >= 0 {
            signed_of(pre.tanh_upper_fr@[x]@)->Some_0 as int
        } else {
            -(signed_of(pre.tanh_lower_fr@[-x]@)->Some_0)
        },
    }
}

/// The lower bound that the envelope tables give a sigmoid or a tanh at an
/// input of either sign, counted in the tables' steps.
pub open spec fn lower_envelope_at(pre: SigmaTables, kind: ActivationKind, x: int) -> int {
    let one = pow2(pre.s_v_log2 as nat) as int;
    match kind {
        ActivationKind::Sigmoid => if x >= 0 {
            signed_of(pre.sigmoid_lower_fr@[x]@)->Some_0 as int
        } else {
            one - signed_of(pre.sigmoid_upper_fr@[-x]@)->Some_0
        },
        _ => if x >= 0 {
            signed_of(pre.tanh_lower_fr@[x]@)->Some_0 as int
        } else {
            -(signed_of(pre.tanh_upper_fr@[-x]@)->Some_0)
        },
    }
}

/// Whether the line with slope code `d` and offset code `b` is at least the
/// upper envelope at the preactivation code `x`: `d x / (s_d s_w) + b / s_b`
/// against the envelope over `s_v`, cleared of denominators.
pub open spec fn line_above_envelope(
    pre: SigmaTables,
    kind: ActivationKind,
    x: int,
    d: int,
    b: int,
    s_d: Scale,
    s_b: Scale,
    s_w: Scale,
) -> bool {
    let (sd, sb, sw) = (pow2(s_d.e as nat) as int, pow2(s_b.e as nat) as int, pow2(s_w.e as nat) as int);
    let sv = pow2(pre.s_v_log2 as nat) as int;
    let at = x * (pow2((pre.s_x_log2 - s_w.e) as nat) as int);
    (d * x * sb + b * (sd * sw)) * sv >= upper_envelope_at(pre, kind, at) * (sd * sw * sb)
}

/// Whether the line with slope code `d` and offset code `b` is at most the
/// lower envelope at the preactivation code `x`.
pub open spec fn line_below_envelope(
    pre: SigmaTables,
    kind: ActivationKind,
    x: int,
    d: int,
    b: int,
    s_d: Scale,
    s_b: Scale,
    s_w: Scale,
) -> bool {
    let (sd, sb, sw) = (pow2(s_d.e as nat) as int, pow2(s_b.e as nat) as int, pow2(s_w.e as nat) as int);
    let sv = pow2(pre.s_v_log2 as nat) as int;
    let at = x * (pow2((pre.s_x_log2 - s_w.e) as nat) as int);
    (d * x * sb + b * (sd * sw)) * sv <= lower_envelope_at(pre, kind, at) * (sd * sw * sb)
}

/// Whether a scale is a power of two between 1 and `2^bits`.
pub open spec fn small_power(s: Scale, bits: nat) -> bool {
    s.c == 1 && 0 <= s.e <= bits
}

/// Accepted cells of a line and an endpoint keep their side of the envelope.
proof fn lemma_accepted_cells(
    pre: SigmaTables,
    kind: ActivationKind,
    line: SshapeLineKind,
    preact: Seq<i128>,
    d: Seq<i128>,
    b: Seq<i128>,
    s_d: Scale,
    s_b: Scale,
    s_w: Scale,
    range_bits: nat,
    j: int,
)
    requires
        pre.wf(),
        kind is Sigmoid || kind is Tanh,
        cells_verdict(pre, kind, line, preact, d, b, s_d, s_b, s_w, range_bits) is Ok,
        0 <= j < preact.len(),
    ensures
        small_power(s_d, range_bits) && small_power(s_b, range_bits) && small_power(
            s_w,
            range_bits,
        ),
        s_w.e <= pre.s_x_log2,
        line is Upper ==> line_above_envelope(
            pre,
            kind,
            preact[j] as int,
            d[j] as int,
            b[j] as int,
            s_d,
            s_b,
            s_w,
        ),
        line is Lower ==> line_below_envelope(
            pre,
            kind,
            preact[j] as int,
            d[j] as int,
            b[j] as int,
            s_d,
            s_b,
            s_w,
        ),
{
    reveal(endpoint_error);
    let s = table_scale_codes(pre, s_d, s_b, s_w);
    lemma_endpoint_scan_none(pre, kind, line, preact, d, b, s, preact.len(), 0);
    let (x, dj, bj) = (preact[j] as int, d[j] as int, b[j] as int);
    assert(endpoint_cell(pre, kind, line, preact[j] as int, d[j] as int, b[j] as int, s) is Ok);
    let (lower, upper) = envelope_tables(pre, kind)->Some_0;
    let k = abs_index(x, Scale { c: 1, e: s.s_w_log2 as i32 }, pre.s_x_log2 as int)->Some_0;
    let ratio = pow2((pre.s_x_log2 - s_w.e) as nat) as int;
    let (up, lo) = (signed_of(upper[k])->Some_0 as int, signed_of(lower[k])->Some_0 as int);
    lemma_pow2_pos((pre.s_x_log2 - s_w.e) as nat);
    let at = x * ratio;
    assert(k == if x >= 0 {
        at
    } else {
        -at
    }) by (nonlinear_arith)
        requires
            k == (if x >= 0 {
                x
            } else {
                -x
            }) * ratio,
            at == x * ratio,
    ;
    assert(x >= 0 <==> at >= 0) by (nonlinear_arith)
        requires
            at == x * ratio,
            ratio > 0,
    ;
    law_sigma_used_is_envelope(kind, line, up, lo, s.s_v);
    let sign = if x < 0 {
        1int
    } else {
        0
    };
    let used = sigma_used(kind, line, up, lo, sign, s.s_v);
    assert(used == if line is Upper {
        upper_envelope_at(pre, kind, at)
    } else {
        lower_envelope_at(pre, kind, at)
    });
    lemma_pow2_pos(s_d.e as nat);
    lemma_pow2_pos(s_b.e as nat);
    lemma_pow2_pos(s_w.e as nat);
    lemma_pow2_pos(pre.s_v_log2 as nat);
    law_split_is_conservative(line is Lower, dj, x, bj, used, s.s_d, s.s_b, s.s_w, s.s_v);
    assert((dj * x * s.s_b + bj * (s.s_d * s.s_w)) * s.s_v == (dj * x * s.s_v) * s.s_b + (bj
        * s.s_v) * (s.s_d * s.s_w)) by (nonlinear_arith);
}

/// A certificate whose layers from `i` on are accepted is accepted at each.
proof fn lemma_cert_each(
    layers: Seq<LayerShape>,
    cert: QuantCert,
    pre: SigmaTables,
    range_bits: nat,
    i: nat,
    j: int,
)
    requires
        cert_verdict(layers, cert, pre, range_bits, i) is Ok,
        i <= j < layers.len(),
    ensures
        cert_layer_verdict(layers, cert, pre, range_bits, j) is Ok,
    decreases layers.len() - i,
{
    if i < j {
        lemma_cert_each(layers, cert, pre, range_bits, i + 1, j);
    }
}

/// Where the endpoint check accepts a certificate, then for every sigmoid and
/// tanh layer and every neuron the upper line is at least the upper envelope,
/// and the lower line at most the lower envelope, at the lower and at the upper
/// end of the preactivation. The layer has its relaxation, and the layer before
/// it the bounds of its preactivations.
pub proof fn law_accepted_certificate_bounds_the_endpoints(
    layers: Seq<LayerShape>,
    cert: QuantCert,
    pre: SigmaTables,
    range_bits: nat,
    i: int,
)
    requires
        pre.wf(),
        cert_verdict(layers, cert, pre, range_bits, 0) is Ok,
        0 <= i < layers.len(),
        layers[i] == (LayerShape::Activation { kind: ActivationKind::Sigmoid }) || layers[i] == (
        LayerShape::Activation { kind: ActivationKind::Tanh }),
    ensures
        i >= 1,
        i < cert.relaxations@.len() && cert.relaxations@[i] is Some,
        i - 1 < cert.preact_lower@.len() && cert.preact_lower@[i - 1] is Some,
        i - 1 < cert.preact_upper@.len() && cert.preact_upper@[i - 1] is Some,
        ({
            let kind = layers[i]->kind;
            let rel = cert.relaxations@[i]->Some_0;
            let l = vector_codes(cert.preact_lower@[i - 1]->Some_0.codes);
            let u = vector_codes(cert.preact_upper@[i - 1]->Some_0.codes);
            let (du, bu) = (vector_codes(rel.d_upper.codes), vector_codes(rel.b_upper.codes));
            let (dl, bl) = (vector_codes(rel.d_lower.codes), vector_codes(rel.b_lower.codes));
            let (sdu, sbu) = (rel.d_upper.scale, rel.b_upper.scale);
            let (sdl, sbl) = (rel.d_lower.scale, rel.b_lower.scale);
            let w = cert.scales.working;
            &&& forall|j: int|
                0 <= j < l.len() ==> line_above_envelope(
                    pre,
                    kind,
                    #[trigger] l[j] as int,
                    du[j] as int,
                    bu[j] as int,
                    sdu,
                    sbu,
                    w,
                )
            &&& forall|j: int|
                0 <= j < u.len() ==> line_above_envelope(
                    pre,
                    kind,
                    #[trigger] u[j] as int,
                    du[j] as int,
                    bu[j] as int,
                    sdu,
                    sbu,
                    w,
                )
            &&& forall|j: int|
                0 <= j < l.len() ==> line_below_envelope(
                    pre,
                    kind,
                    #[trigger] l[j] as int,
                    dl[j] as int,
                    bl[j] as int,
                    sdl,
                    sbl,
                    w,
                )
            &&& forall|j: int|
                0 <= j < u.len() ==> line_below_envelope(
                    pre,
                    kind,
                    #[trigger] u[j] as int,
                    dl[j] as int,
                    bl[j] as int,
                    sdl,
                    sbl,
                    w,
                )
            &&& small_power(sdu, range_bits) && small_power(sbu, range_bits)
            &&& small_power(sdl, range_bits) && small_power(sbl, range_bits)
            &&& small_power(w, range_bits) && w.e <= pre.s_x_log2
        }),
{
    lemma_cert_each(layers, cert, pre, range_bits, 0, i);
    let kind = layers[i]->kind;
    let rel = cert.relaxations@[i]->Some_0;
    let l = vector_codes(cert.preact_lower@[i - 1]->Some_0.codes);
    let u = vector_codes(cert.preact_upper@[i - 1]->Some_0.codes);
    let (du, bu) = (vector_codes(rel.d_upper.codes), vector_codes(rel.b_upper.codes));
    let (dl, bl) = (vector_codes(rel.d_lower.codes), vector_codes(rel.b_lower.codes));
    let (sdu, sbu) = (rel.d_upper.scale, rel.b_upper.scale);
    let (sdl, sbl) = (rel.d_lower.scale, rel.b_lower.scale);
    let w = cert.scales.working;
    let (up, lo) = (SshapeLineKind::Upper, SshapeLineKind::Lower);
    assert forall|j: int| 0 <= j < l.len() implies line_above_envelope(
        pre,
        kind,
        #[trigger] l[j] as int,
        du[j] as int,
        bu[j] as int,
        sdu,
        sbu,
        w,
    ) by {
        lemma_accepted_cells(pre, kind, up, l, du, bu, sdu, sbu, w, range_bits, j);
    }
    assert forall|j: int| 0 <= j < u.len() implies line_above_envelope(
        pre,
        kind,
        #[trigger] u[j] as int,
        du[j] as int,
        bu[j] as int,
        sdu,
        sbu,
        w,
    ) by {
        lemma_accepted_cells(pre, kind, up, u, du, bu, sdu, sbu, w, range_bits, j);
    }
    assert forall|j: int| 0 <= j < l.len() implies line_below_envelope(
        pre,
        kind,
        #[trigger] l[j] as int,
        dl[j] as int,
        bl[j] as int,
        sdl,
        sbl,
        w,
    ) by {
        lemma_accepted_cells(pre, kind, lo, l, dl, bl, sdl, sbl, w, range_bits, j);
    }
    assert forall|j: int| 0 <= j < u.len() implies line_below_envelope(
        pre,
        kind,
        #[trigger] u[j] as int,
        dl[j] as int,
        bl[j] as int,
        sdl,
        sbl,
        w,
    ) by {
        lemma_accepted_cells(pre, kind, lo, u, dl, bl, sdl, sbl, w, range_bits, j);
    }
}

// ---- The binding of the statement ----

/// A statement whose binding is accepted: the proof names the statement's sizes
/// and scales, the working scale is the target's, the challenges were drawn
/// after the precision and the sizes, and the claimed values are those of the
/// statement's own tables: of the property's matrix, of its offsets, and of
/// both corners of the box.
pub proof fn law_accepted_binding<P: MlPcs>(
    vk: P::VerifierKey,
    proof: PublicBindingProof<P>,
    working: Scale,
    input: Scale,
    target: Scale,
    z: BindingSizes,
    coms: TensorCommitments<P>,
    t: PublicTables,
    t0: Seq<u8>,
)
    requires
        public_binding_verdict(vk, proof, working, input, target, z, coms, t, t0) is Ok,
    ensures
        proof.spec_c_n_vars == z.spec_c,
        proof.spec_d_n_vars == z.spec_d,
        proof.x_n_vars == z.x,
        proof.working_c == working.c && proof.working_e == working.e,
        proof.input_c == input.c && proof.input_e == input.e,
        working.c == target.c && working.e == target.e,
        proof.spec_c_eval@ == mle(t.spec_c, vals(proof.r_spec_c@)),
        proof.spec_d_eval@ == mle(t.spec_d, vals(proof.r_spec_d@)),
        proof.x_lower_eval@ == mle(t.x_lower, vals(proof.r_x@)),
        proof.x_upper_eval@ == mle(t.x_upper, vals(proof.r_x@)),
        ({
            let bits = if z.precision_bits >= 0 {
                z.precision_bits as u64
            } else {
                (0x1_0000_0000_0000_0000 + z.precision_bits) as u64
            };
            let t1 = abs_u64(
                abs_u64(abs_u64(abs_u64(t0, bits), z.spec_c as u64), z.spec_d as u64),
                z.x as u64,
            );
            let t2 = after_squeeze(t1, z.spec_c as int);
            let t3 = after_squeeze(t2, z.spec_d as int);
            &&& vals(proof.r_spec_c@) == squeezed(t1, z.spec_c as int)
            &&& vals(proof.r_spec_d@) == squeezed(t2, z.spec_d as int)
            &&& vals(proof.r_x@) == squeezed(t3, z.x as int)
        }),
{
    reveal(public_binding_verdict);
}

/// A statement whose binding is accepted is the committed one, as far as the
/// commitments hold known tables: each of the four committed tables agrees with
/// the statement's own at its challenge.
pub proof fn law_accepted_binding_tables<P: MlPcs>(
    vk: P::VerifierKey,
    proof: PublicBindingProof<P>,
    working: Scale,
    input: Scale,
    target: Scale,
    z: BindingSizes,
    coms: TensorCommitments<P>,
    t: PublicTables,
    t0: Seq<u8>,
    spec_c: Seq<int>,
    spec_d: Seq<int>,
    x_lower: Seq<int>,
    x_upper: Seq<int>,
)
    requires
        public_binding_verdict(vk, proof, working, input, target, z, coms, t, t0) is Ok,
        opens_to::<P>(vk, coms.spec_c, spec_c),
        opens_to::<P>(vk, coms.spec_d, spec_d),
        opens_to::<P>(vk, coms.x_lower, x_lower),
        opens_to::<P>(vk, coms.x_upper, x_upper),
    ensures
        mle_padded(spec_c, vals(proof.r_spec_c@), z.spec_c as nat) == mle(
            t.spec_c,
            vals(proof.r_spec_c@),
        ),
        mle_padded(spec_d, vals(proof.r_spec_d@), z.spec_d as nat) == mle(
            t.spec_d,
            vals(proof.r_spec_d@),
        ),
        mle_padded(x_lower, vals(proof.r_x@), z.x as nat) == mle(t.x_lower, vals(proof.r_x@)),
        mle_padded(x_upper, vals(proof.r_x@), z.x as nat) == mle(t.x_upper, vals(proof.r_x@)),
{
    reveal(public_binding_verdict);
    let claims = pb_claims(proof, coms, z);
    lemma_opened_claim(vk, claims, 2, pb_t4(z, t0), 0, spec_c);
    lemma_opened_claim(vk, claims, 2, pb_t4(z, t0), 1, spec_d);
    lemma_opened_pair::<P>(
        vk,
        coms.x_lower,
        coms.x_upper,
        proof.x_lower_eval@,
        proof.x_upper_eval@,
        vals(proof.r_x@),
        proof.r_x_open,
        z.x as nat,
        "public_x_box_batch",
        pb_t5(vk, proof, coms, z, t0),
        x_lower,
        x_upper,
    );
}

/// The sizes of a statement are those of its property's matrix, of its offsets
/// and of its box.
pub proof fn law_statement_sizes(precision_bits: i32, property: Property, x_len: usize)
    ensures
        ({
            let z = statement_sizes(precision_bits, property, x_len);
            let (rows, cols) = (ceil_log2(property.rows as nat), ceil_log2(property.cols as nat));
            &&& z.precision_bits == precision_bits
            &&& z.spec_c == even_vars(rows + cols) as usize
            &&& z.spec_d == even_vars(rows) as usize
            &&& z.x == even_vars(ceil_log2(x_len as nat)) as usize
        }),
{
}

} // verus!
