//! The commitments to a whole certificate.

use crate::cert::{QuantCert, QuantRelaxation};
use crate::commit::{
    PassCommitments, PassProverStates, ProverPolyStates, RelaxationCommitments, RelaxationStates,
    TensorCommitments, can_matrix, can_vector, commit_matrix, commit_vector, matrix_committed,
    vector_committed,
};
use crate::commit_pass::{can_trace, commit_pass, pass_committed, trace_fits};
use crate::errors::SnarkError;
use crate::field::vals;
use crate::logup::{lower, upper};
use crate::network::NetworkArchitecture;
use crate::pcs::{CommittedAux, MlPcs};
use crate::qarray::{QArray1, matrix_fits, vector_codes, vector_fits, vector_table};
use crate::trace::BackwardTrace;
use vstd::prelude::*;

verus! {

/// Whether a layer of a certificate is a linear one: it has weights and a
/// bias.
pub open spec fn has_weights(cert: QuantCert, i: int) -> bool {
    cert.weights@[i] is Some && cert.biases@[i] is Some
}

/// Whether a relaxation's vectors have tables.
pub open spec fn relaxation_fits(r: QuantRelaxation) -> bool {
    &&& vector_fits(vector_codes(r.d_lower.codes))
    &&& vector_fits(vector_codes(r.d_upper.codes))
    &&& vector_fits(vector_codes(r.b_lower.codes))
    &&& vector_fits(vector_codes(r.b_upper.codes))
}

/// Whether a layer's tensors are there and have tables.
pub open spec fn layer_fits(cert: QuantCert, i: int) -> bool {
    if has_weights(cert, i) {
        &&& matrix_fits(cert.weights@[i]->0.codes)
        &&& vector_fits(vector_codes(cert.biases@[i]->0.codes))
    } else {
        &&& cert.relaxations@[i] matches Some(r)
        &&& relaxation_fits(r)
    }
}

/// Whether a vector that may be absent has a table.
pub open spec fn target_fits(t: Option<QArray1>) -> bool {
    t matches Some(v) ==> vector_fits(vector_codes(v.codes))
}

/// Whether a certificate of `n` layers can be laid out.
pub open spec fn cert_fits(cert: QuantCert, n: nat) -> bool {
    &&& cert.weights@.len() >= n
    &&& cert.biases@.len() >= n
    &&& cert.relaxations@.len() >= n
    &&& forall|i: int| 0 <= i < n ==> #[trigger] layer_fits(cert, i)
    &&& vector_fits(vector_codes(cert.x_lower.codes))
    &&& vector_fits(vector_codes(cert.x_upper.codes))
    &&& matrix_fits(cert.spec_c.codes)
    &&& vector_fits(vector_codes(cert.spec_d.codes))
    &&& target_fits(cert.target_lower)
    &&& target_fits(cert.target_upper)
}

/// Whether a relaxation's vectors can be committed.
pub open spec fn can_relaxation<P: MlPcs>(ck: P::CommitterKey, r: QuantRelaxation) -> bool {
    &&& can_vector::<P>(ck, vector_codes(r.d_lower.codes))
    &&& can_vector::<P>(ck, vector_codes(r.d_upper.codes))
    &&& can_vector::<P>(ck, vector_codes(r.b_lower.codes))
    &&& can_vector::<P>(ck, vector_codes(r.b_upper.codes))
}

/// Whether a layer's tensors can be committed.
pub open spec fn can_layer<P: MlPcs>(ck: P::CommitterKey, cert: QuantCert, i: int) -> bool {
    if has_weights(cert, i) {
        &&& can_matrix::<P>(ck, cert.weights@[i]->0.codes)
        &&& can_vector::<P>(ck, vector_codes(cert.biases@[i]->0.codes))
    } else {
        can_relaxation::<P>(ck, cert.relaxations@[i]->0)
    }
}

/// Whether a vector that may be absent can be committed.
pub open spec fn can_target<P: MlPcs>(ck: P::CommitterKey, t: Option<QArray1>) -> bool {
    t matches Some(v) ==> can_vector::<P>(ck, vector_codes(v.codes))
}

/// Whether every tensor of a certificate of `n` layers can be committed.
pub open spec fn can_cert<P: MlPcs>(ck: P::CommitterKey, cert: QuantCert, n: nat) -> bool {
    &&& forall|i: int| 0 <= i < n ==> #[trigger] can_layer::<P>(ck, cert, i)
    &&& can_fixed::<P>(ck, cert)
}

/// Whether the input box, the property and the targets can be committed.
pub open spec fn can_fixed<P: MlPcs>(ck: P::CommitterKey, cert: QuantCert) -> bool {
    &&& can_vector::<P>(ck, vector_codes(cert.x_lower.codes))
    &&& can_vector::<P>(ck, vector_codes(cert.x_upper.codes))
    &&& can_matrix::<P>(ck, cert.spec_c.codes)
    &&& can_vector::<P>(ck, vector_codes(cert.spec_d.codes))
    &&& can_target::<P>(ck, cert.target_lower)
    &&& can_target::<P>(ck, cert.target_upper)
}

/// A relaxation's commitments are those of its vectors.
pub open spec fn relaxation_committed<P: MlPcs>(
    ck: P::CommitterKey,
    r: QuantRelaxation,
    c: RelaxationCommitments<P>,
    s: RelaxationStates<P>,
) -> bool {
    &&& vector_committed(ck, vector_codes(r.d_lower.codes), c.d_lower, s.d_lower)
    &&& vector_committed(ck, vector_codes(r.d_upper.codes), c.d_upper, s.d_upper)
    &&& vector_committed(ck, vector_codes(r.b_lower.codes), c.b_lower, s.b_lower)
    &&& vector_committed(ck, vector_codes(r.b_upper.codes), c.b_upper, s.b_upper)
}

/// The commitments of the layers.
pub struct LayerCommits<P: MlPcs> {
    pub weight: Vec<Option<P::Commitment>>,
    pub bias: Vec<Option<P::Commitment>>,
    pub relaxation: Vec<Option<RelaxationCommitments<P>>>,
    pub weight_state: Vec<Option<CommittedAux<P>>>,
    pub bias_state: Vec<Option<CommittedAux<P>>>,
    pub relaxation_state: Vec<Option<RelaxationStates<P>>>,
}

/// A layer's commitments are those of its tensors: of the weights and the bias
/// of a linear layer, of the relaxation of another.
pub open spec fn layer_committed<P: MlPcs>(
    ck: P::CommitterKey,
    cert: QuantCert,
    i: int,
    c: LayerCommits<P>,
) -> bool {
    if has_weights(cert, i) {
        &&& c.weight@[i] is Some && c.weight_state@[i] is Some
        &&& c.bias@[i] is Some && c.bias_state@[i] is Some
        &&& c.relaxation@[i] is None && c.relaxation_state@[i] is None
        &&& matrix_committed(
            ck,
            cert.weights@[i]->0.codes,
            c.weight@[i]->0,
            c.weight_state@[i]->0,
        )
        &&& vector_committed(
            ck,
            vector_codes(cert.biases@[i]->0.codes),
            c.bias@[i]->0,
            c.bias_state@[i]->0,
        )
    } else {
        &&& c.weight@[i] is None && c.weight_state@[i] is None
        &&& c.bias@[i] is None && c.bias_state@[i] is None
        &&& c.relaxation@[i] is Some && c.relaxation_state@[i] is Some
        &&& relaxation_committed(
            ck,
            cert.relaxations@[i]->0,
            c.relaxation@[i]->0,
            c.relaxation_state@[i]->0,
        )
    }
}

/// The layers' commitments are those of their tensors.
pub open spec fn layers_committed<P: MlPcs>(
    ck: P::CommitterKey,
    cert: QuantCert,
    n: nat,
    c: LayerCommits<P>,
) -> bool {
    &&& c.weight@.len() == n && c.weight_state@.len() == n
    &&& c.bias@.len() == n && c.bias_state@.len() == n
    &&& c.relaxation@.len() == n && c.relaxation_state@.len() == n
    &&& forall|i: int| 0 <= i < n ==> #[trigger] layer_committed(ck, cert, i, c)
}

/// Whether a commitment was made for a table.
pub open spec fn commits_to<P: MlPcs>(
    ck: P::CommitterKey,
    com: P::Commitment,
    table: Seq<int>,
) -> bool {
    exists|state: P::State| P::committed(ck, com, state, table)
}

/// A target's commitment is there where the target is, and is the target's.
pub open spec fn target_committed<P: MlPcs>(
    ck: P::CommitterKey,
    t: Option<QArray1>,
    c: Option<P::Commitment>,
) -> bool {
    match t {
        None => c is None,
        Some(v) => {
            &&& c matches Some(com)
            &&& commits_to::<P>(ck, com, vector_table(vector_codes(v.codes)))
        },
    }
}

/// A pass's commitments are there where its trace is, and are the trace's.
pub open spec fn pass_matches<P: MlPcs>(
    ck: P::CommitterKey,
    trace: Option<&BackwardTrace>,
    c: Option<PassCommitments<P>>,
    s: Option<PassProverStates<P>>,
) -> bool {
    match trace {
        None => c is None && s is None,
        Some(t) => {
            &&& c is Some
            &&& s is Some
            &&& pass_committed(ck, *t, c->0, s->0)
        },
    }
}

/// A certificate's commitments, and what was kept of them, are those of its
/// tensors and passes.
pub open spec fn cert_committed<P: MlPcs>(
    ck: P::CommitterKey,
    cert: QuantCert,
    n: nat,
    lower: Option<&BackwardTrace>,
    upper: Option<&BackwardTrace>,
    c: TensorCommitments<P>,
    s: ProverPolyStates<P>,
) -> bool {
    &&& layers_committed(
        ck,
        cert,
        n,
        LayerCommits {
            weight: c.weight,
            bias: c.bias,
            relaxation: c.relaxation,
            weight_state: s.weight,
            bias_state: s.bias,
            relaxation_state: s.relaxation,
        },
    )
    &&& vector_committed(ck, vector_codes(cert.x_lower.codes), c.x_lower, s.x_lower)
    &&& vector_committed(ck, vector_codes(cert.x_upper.codes), c.x_upper, s.x_upper)
    &&& matrix_committed(ck, cert.spec_c.codes, c.spec_c, s.spec_c)
    &&& vector_committed(ck, vector_codes(cert.spec_d.codes), c.spec_d, s.spec_d)
    &&& target_committed::<P>(ck, cert.target_lower, c.target_lower)
    &&& target_committed::<P>(ck, cert.target_upper, c.target_upper)
    &&& pass_matches(ck, lower, c.pass_lower, s.pass_lower)
    &&& pass_matches(ck, upper, c.pass_upper, s.pass_upper)
}

/// Commit to the four vectors of a relaxation.
fn commit_relaxation<P: MlPcs>(
    ck: &P::CommitterKey,
    rel: &QuantRelaxation,
    rng: &mut P::Randomness,
) -> (r: Result<(RelaxationCommitments<P>, RelaxationStates<P>), SnarkError>)
    requires
        relaxation_fits(*rel),
    ensures
        r is Ok <==> can_relaxation::<P>(*ck, *rel),
        r matches Err(e) ==> e is Pcs,
        r matches Ok((c, s)) ==> relaxation_committed(*ck, *rel, c, s),
{
    let (dl, dl_aux): (P::Commitment, CommittedAux<P>) = match commit_vector::<P>(
        ck,
        &rel.d_lower,
        rng,
    ) {
        Ok(x) => x,
        Err(e) => {
            return Err(e);
        },
    };
    let (du, du_aux): (P::Commitment, CommittedAux<P>) = match commit_vector::<P>(
        ck,
        &rel.d_upper,
        rng,
    ) {
        Ok(x) => x,
        Err(e) => {
            return Err(e);
        },
    };
    let (bl, bl_aux): (P::Commitment, CommittedAux<P>) = match commit_vector::<P>(
        ck,
        &rel.b_lower,
        rng,
    ) {
        Ok(x) => x,
        Err(e) => {
            return Err(e);
        },
    };
    let (bu, bu_aux): (P::Commitment, CommittedAux<P>) = match commit_vector::<P>(
        ck,
        &rel.b_upper,
        rng,
    ) {
        Ok(x) => x,
        Err(e) => {
            return Err(e);
        },
    };
    Ok(
        (
            RelaxationCommitments { d_lower: dl, d_upper: du, b_lower: bl, b_upper: bu },
            RelaxationStates { d_lower: dl_aux, d_upper: du_aux, b_lower: bl_aux, b_upper: bu_aux },
        ),
    )
}

/// Commit to the tensors of the layers.
fn commit_layers<P: MlPcs>(
    cert: &QuantCert,
    n: usize,
    ck: &P::CommitterKey,
    rng: &mut P::Randomness,
) -> (r: Result<LayerCommits<P>, SnarkError>)
    requires
        cert_fits(*cert, n as nat),
    ensures
        r is Ok <==> forall|i: int| 0 <= i < n ==> #[trigger] can_layer::<P>(*ck, *cert, i),
        r matches Err(e) ==> e is Pcs,
        r matches Ok(c) ==> layers_committed(*ck, *cert, n as nat, c),
{
    let mut out: LayerCommits<P> = LayerCommits {
        weight: Vec::with_capacity(n),
        bias: Vec::with_capacity(n),
        relaxation: Vec::with_capacity(n),
        weight_state: Vec::with_capacity(n),
        bias_state: Vec::with_capacity(n),
        relaxation_state: Vec::with_capacity(n),
    };
    let mut i: usize = 0;
    while i < n
        invariant
            i <= n,
            cert_fits(*cert, n as nat),
            forall|k: int| 0 <= k < i ==> #[trigger] can_layer::<P>(*ck, *cert, k),
            layers_committed(*ck, *cert, i as nat, out),
        decreases n - i,
    {
        let ghost before = out;
        assert(layer_fits(*cert, i as int));
        match (&cert.weights[i], &cert.biases[i]) {
            (Some(w), Some(b)) => {
                assert(has_weights(*cert, i as int));
                match commit_matrix::<P>(ck, w, rng) {
                    Ok((c, s)) => {
                        out.weight.push(Some(c));
                        out.weight_state.push(Some(s));
                    },
                    Err(e) => {
                        assert(!can_layer::<P>(*ck, *cert, i as int));
                        return Err(e);
                    },
                }
                match commit_vector::<P>(ck, b, rng) {
                    Ok((c, s)) => {
                        out.bias.push(Some(c));
                        out.bias_state.push(Some(s));
                    },
                    Err(e) => {
                        assert(!can_layer::<P>(*ck, *cert, i as int));
                        return Err(e);
                    },
                }
                out.relaxation.push(None);
                out.relaxation_state.push(None);
            },
            _ => {
                assert(!has_weights(*cert, i as int));
                if let Some(rel) = &cert.relaxations[i] {
                    match commit_relaxation::<P>(ck, rel, rng) {
                        Ok((c, s)) => {
                            out.relaxation.push(Some(c));
                            out.relaxation_state.push(Some(s));
                        },
                        Err(e) => {
                            assert(!can_layer::<P>(*ck, *cert, i as int));
                            return Err(e);
                        },
                    }
                }
                out.weight.push(None);
                out.weight_state.push(None);
                out.bias.push(None);
                out.bias_state.push(None);
            },
        }
        proof {
            assert forall|k: int| 0 <= k < i + 1 implies #[trigger] layer_committed(
                *ck,
                *cert,
                k,
                out,
            ) by {
                if k < i {
                    assert(layer_committed(*ck, *cert, k, before));
                }
            }
        }
        i += 1;
    }
    Ok(out)
}

/// Commit to a target, where there is one.
fn commit_target<P: MlPcs>(
    t: &Option<QArray1>,
    ck: &P::CommitterKey,
    rng: &mut P::Randomness,
) -> (r: Result<Option<P::Commitment>, SnarkError>)
    requires
        target_fits(*t),
    ensures
        r is Ok <==> can_target::<P>(*ck, *t),
        r matches Err(e) ==> e is Pcs,
        r matches Ok(c) ==> target_committed::<P>(*ck, *t, c),
{
    match t {
        None => Ok(None),
        Some(v) => {
            match commit_vector::<P>(ck, v, rng) {
                Ok((c, aux)) => {
                    assert(commits_to::<P>(*ck, c, vector_table(vector_codes(v.codes)))) by {
                        assert(P::committed(*ck, c, aux.state, vals(aux.table@)));
                    }
                    Ok(Some(c))
                },
                Err(e) => Err(e),
            }
        },
    }
}

/// Commit to a pass, where there is a trace of one.
fn commit_optional_pass<P: MlPcs>(
    trace: Option<&BackwardTrace>,
    ck: &P::CommitterKey,
    rng: &mut P::Randomness,
) -> (r: Result<(Option<PassCommitments<P>>, Option<PassProverStates<P>>), SnarkError>)
    requires
        trace matches Some(t) ==> trace_fits(*t),
    ensures
        r is Ok <==> (trace matches Some(t) ==> can_trace::<P>(*ck, *t)),
        r matches Err(e) ==> e is Pcs,
        r matches Ok((c, s)) ==> pass_matches(*ck, trace, c, s),
{
    match trace {
        None => Ok((None, None)),
        Some(t) => {
            match commit_pass::<P>(t, ck, rng) {
                Ok((c, s)) => Ok((Some(c), Some(s))),
                Err(e) => Err(e),
            }
        },
    }
}

/// Commit to every tensor of a certificate, and to the passes whose traces are
/// given.
pub fn commit_all_tensors<P: MlPcs>(
    cert: &QuantCert,
    network: &NetworkArchitecture,
    ck: &P::CommitterKey,
    lower_trace: Option<&BackwardTrace>,
    upper_trace: Option<&BackwardTrace>,
    rng: &mut P::Randomness,
) -> (r: Result<(TensorCommitments<P>, ProverPolyStates<P>), SnarkError>)
    requires
        cert_fits(*cert, network.layers@.len()),
        lower_trace matches Some(t) ==> trace_fits(*t),
        upper_trace matches Some(t) ==> trace_fits(*t),
    ensures
        r is Ok <==> {
            &&& can_cert::<P>(*ck, *cert, network.layers@.len())
            &&& (lower_trace matches Some(t) ==> can_trace::<P>(*ck, *t))
            &&& (upper_trace matches Some(t) ==> can_trace::<P>(*ck, *t))
        },
        r matches Err(e) ==> e is Pcs,
        r matches Ok((c, s)) ==> cert_committed(
            *ck,
            *cert,
            network.layers@.len(),
            lower_trace,
            upper_trace,
            c,
            s,
        ),
{
    let n: usize = network.layers().len();
    let layers: LayerCommits<P> = match commit_layers::<P>(cert, n, ck, rng) {
        Ok(x) => x,
        Err(e) => {
            return Err(e);
        },
    };
    let (x_lower, x_lower_aux): (P::Commitment, CommittedAux<P>) = match commit_vector::<P>(
        ck,
        &cert.x_lower,
        rng,
    ) {
        Ok(x) => x,
        Err(e) => {
            return Err(e);
        },
    };
    let (x_upper, x_upper_aux): (P::Commitment, CommittedAux<P>) = match commit_vector::<P>(
        ck,
        &cert.x_upper,
        rng,
    ) {
        Ok(x) => x,
        Err(e) => {
            return Err(e);
        },
    };
    let (spec_c, spec_c_aux): (P::Commitment, CommittedAux<P>) = match commit_matrix::<P>(
        ck,
        &cert.spec_c,
        rng,
    ) {
        Ok(x) => x,
        Err(e) => {
            return Err(e);
        },
    };
    let (spec_d, spec_d_aux): (P::Commitment, CommittedAux<P>) = match commit_vector::<P>(
        ck,
        &cert.spec_d,
        rng,
    ) {
        Ok(x) => x,
        Err(e) => {
            return Err(e);
        },
    };
    let target_lower: Option<P::Commitment> = match commit_target::<P>(
        &cert.target_lower,
        ck,
        rng,
    ) {
        Ok(x) => x,
        Err(e) => {
            return Err(e);
        },
    };
    let target_upper: Option<P::Commitment> = match commit_target::<P>(
        &cert.target_upper,
        ck,
        rng,
    ) {
        Ok(x) => x,
        Err(e) => {
            return Err(e);
        },
    };
    let (lower_com, lower_st): (Option<PassCommitments<P>>, Option<PassProverStates<P>>) =
        match commit_optional_pass::<P>(lower_trace, ck, rng) {
        Ok(x) => x,
        Err(e) => {
            return Err(e);
        },
    };
    let (upper_com, upper_st): (Option<PassCommitments<P>>, Option<PassProverStates<P>>) =
        match commit_optional_pass::<P>(upper_trace, ck, rng) {
        Ok(x) => x,
        Err(e) => {
            return Err(e);
        },
    };
    Ok(
        (
            TensorCommitments {
                weight: layers.weight,
                bias: layers.bias,
                relaxation: layers.relaxation,
                x_lower,
                x_upper,
                spec_c,
                spec_d,
                target_lower,
                target_upper,
                pass_lower: lower_com,
                pass_upper: upper_com,
            },
            ProverPolyStates {
                weight: layers.weight_state,
                bias: layers.bias_state,
                relaxation: layers.relaxation_state,
                x_lower: x_lower_aux,
                x_upper: x_upper_aux,
                spec_c: spec_c_aux,
                spec_d: spec_d_aux,
                pass_lower: lower_st,
                pass_upper: upper_st,
            },
        ),
    )
}

} // verus!
