//! The LogUp lookup argument, proved layer by layer.
//!
//! A lookup sums the fractions `-1 / (w - beta)` over its witness and a table
//! the fractions `m / (t - beta)` over its entries; where every witness value
//! occurs in the table the two sums cancel. A circuit holds the fractions and
//! the pairwise sums of the layers above them, up to a layer of two. Each layer
//! is reduced to the one below by a sumcheck.

use crate::eq_two_product::{
    EqTwoProduct, EqTwoProductProof, eq2_columns, eq2_state, eq2_verdict, eq_two_product, is_pow2,
    prove_eq_two_product_sumcheck, verify_eq_two_product_sumcheck,
};
use crate::errors::{LogUpError, SnarkError};
use crate::field::{Fr, all_in_field, fadd, fmul, fneg, fsub, in_field, lemma_view_in_field, vals};
use crate::mle::{
    build_eq_table, concat, copied, eq_points, eq_table, eq_weight, eval_eq, fold, log2_exact,
    mle, same_elements,
};
use crate::mle_laws::{
    combined, constant, dot, law_mle_is_eq_sum, law_mle_linear, law_mle_of_eq_table,
    lemma_eq_weight_in_field, lemma_fold_many_front, lemma_mle_in_field,
};
use crate::pcs::lemma_pow2_injective;
use crate::ring::{
    group_in_field, group_residue, lemma_commute, lemma_fadd_zero, lemma_fmul_one,
    lemma_residue_id,
};
use crate::sumcheck::{abs_each, absorb_each, cell_at, total};
use crate::transcript::{challenge, challenged, squeeze_one, state_of};
use ark_crypto_primitives::sponge::merlin::Transcript;
use vstd::arithmetic::power2::{lemma_pow2_pos, lemma_pow2_unfold, pow2};
use vstd::prelude::*;

verus! {

/// A layer of fractions.
#[derive(Debug)]
pub enum LogUpLayer {
    /// Sums of the fractions of the layer below.
    Generic { numerator: Vec<Fr>, denominator: Vec<Fr> },
    /// The fractions of a witness, with numerator `-1`.
    InitialLookup { denominator: Vec<Fr> },
    /// The fractions of a table, with the multiplicities as numerators.
    InitialTable { numerator: Vec<Fr>, denominator: Vec<Fr> },
}

/// The layers of a lookup or a table, the longest first.
#[derive(Debug)]
pub struct LogUpCircuit {
    pub layers: Vec<LogUpLayer>,
}

/// The reduction of one layer to the one below.
#[derive(Debug)]
pub struct LogUpLayerProof {
    pub sumcheck: EqTwoProductProof,
}

/// A proof that the fractions at the bottom sum to the top fraction.
#[derive(Debug)]
pub struct LogUpProof {
    pub layers: Vec<LogUpLayerProof>,
    /// The point at which the bottom columns are left to be opened.
    pub bottom_point: Vec<Fr>,
    pub bottom_num: Fr,
    pub bottom_denom: Fr,
}

/// The denominators of a layer.
pub open spec fn layer_den(l: LogUpLayer) -> Seq<int> {
    match l {
        LogUpLayer::Generic { numerator, denominator } => vals(denominator@),
        LogUpLayer::InitialLookup { denominator } => vals(denominator@),
        LogUpLayer::InitialTable { numerator, denominator } => vals(denominator@),
    }
}

/// The numerators of a layer.
pub open spec fn layer_num(l: LogUpLayer) -> Seq<int> {
    match l {
        LogUpLayer::Generic { numerator, denominator } => vals(numerator@),
        LogUpLayer::InitialLookup { denominator } => constant(fneg(1), denominator@.len()),
        LogUpLayer::InitialTable { numerator, denominator } => vals(numerator@),
    }
}

/// The numerators of the sums of the fractions `i` and `half + i`.
pub open spec fn up_num(n: Seq<int>, d: Seq<int>) -> Seq<int> {
    Seq::new(
        (n.len() / 2) as nat,
        |i: int| fadd(fmul(n[i], d[n.len() / 2 + i]), fmul(n[n.len() / 2 + i], d[i])),
    )
}

/// The denominators of those sums.
pub open spec fn up_den(d: Seq<int>) -> Seq<int> {
    Seq::new((d.len() / 2) as nat, |i: int| fmul(d[i], d[d.len() / 2 + i]))
}

/// Whether layer `k` has the length that its place demands.
pub open spec fn layer_sized(c: LogUpCircuit, k: int) -> bool {
    &&& layer_num(c.layers@[k]).len() == pow2((c.layers@.len() - k) as nat)
    &&& layer_den(c.layers@[k]).len() == pow2((c.layers@.len() - k) as nat)
}

/// Whether layer `k` holds the sums of the layer below it.
pub open spec fn layer_sums(c: LogUpCircuit, k: int) -> bool {
    &&& layer_num(c.layers@[k]) == up_num(layer_num(c.layers@[k - 1]), layer_den(c.layers@[k - 1]))
    &&& layer_den(c.layers@[k]) == up_den(layer_den(c.layers@[k - 1]))
}

/// Whether a circuit's layers halve in length down to two and hold the sums of
/// the layers below them.
pub open spec fn circuit_wf(c: LogUpCircuit) -> bool {
    &&& c.layers@.len() >= 1
    &&& forall|k: int| 0 <= k < c.layers@.len() ==> #[trigger] layer_sized(c, k)
    &&& forall|k: int| 1 <= k < c.layers@.len() ==> #[trigger] layer_sums(c, k)
}

/// The values of a column less `beta`.
pub open spec fn shifted(column: Seq<int>, beta: int) -> Seq<int> {
    Seq::new(column.len(), |i: int| fsub(column[i], beta))
}

/// Whether a column can be the bottom of a circuit.
pub open spec fn column_ok(len: nat) -> bool {
    len >= 2 && is_pow2(len)
}

fn shift(column: &[Fr], beta: Fr) -> (r: Vec<Fr>)
    ensures
        vals(r@) == shifted(vals(column@), beta@),
{
    let mut out: Vec<Fr> = Vec::with_capacity(column.len());
    let mut i: usize = 0;
    while i < column.len()
        invariant
            i <= column@.len(),
            out@.len() == i,
            forall|k: int| 0 <= k < i ==> (#[trigger] out@[k])@ == fsub(column@[k]@, beta@),
        decreases column@.len() - i,
    {
        out.push(column[i].sub(beta));
        i += 1;
    }
    assert(vals(out@) =~= shifted(vals(column@), beta@));
    out
}

impl LogUpLayer {
    /// The number of fractions.
    fn size(&self) -> (r: usize)
        ensures
            r == layer_den(*self).len(),
    {
        match self {
            LogUpLayer::Generic { numerator, denominator } => denominator.len(),
            LogUpLayer::InitialLookup { denominator } => denominator.len(),
            LogUpLayer::InitialTable { numerator, denominator } => denominator.len(),
        }
    }

    /// Numerator `i`.
    fn num(&self, i: usize) -> (r: Fr)
        requires
            i < layer_num(*self).len(),
        ensures
            r@ == layer_num(*self)[i as int],
    {
        match self {
            LogUpLayer::Generic { numerator, denominator } => numerator[i],
            LogUpLayer::InitialLookup { denominator } => Fr::from_u64(1).negate(),
            LogUpLayer::InitialTable { numerator, denominator } => numerator[i],
        }
    }

    /// Denominator `i`.
    fn den(&self, i: usize) -> (r: Fr)
        requires
            i < layer_den(*self).len(),
        ensures
            r@ == layer_den(*self)[i as int],
    {
        match self {
            LogUpLayer::Generic { numerator, denominator } => denominator[i],
            LogUpLayer::InitialLookup { denominator } => denominator[i],
            LogUpLayer::InitialTable { numerator, denominator } => denominator[i],
        }
    }
}

/// The layer of the sums of a layer's fractions.
fn sum_layer(l: &LogUpLayer) -> (r: LogUpLayer)
    requires
        layer_num(*l).len() == layer_den(*l).len(),
    ensures
        layer_num(r) == up_num(layer_num(*l), layer_den(*l)),
        layer_den(r) == up_den(layer_den(*l)),
{
    let half: usize = l.size() / 2;
    let mut numerator: Vec<Fr> = Vec::with_capacity(half);
    let mut denominator: Vec<Fr> = Vec::with_capacity(half);
    let ghost n = layer_num(*l);
    let ghost d = layer_den(*l);
    let mut i: usize = 0;
    while i < half
        invariant
            i <= half,
            n == layer_num(*l),
            d == layer_den(*l),
            n.len() == d.len(),
            half == d.len() / 2,
            half + half <= usize::MAX,
            numerator@.len() == i,
            denominator@.len() == i,
            forall|k: int| 0 <= k < i ==> (#[trigger] numerator@[k])@ == up_num(n, d)[k],
            forall|k: int| 0 <= k < i ==> (#[trigger] denominator@[k])@ == up_den(d)[k],
        decreases half - i,
    {
        let n0: Fr = l.num(i);
        let n1: Fr = l.num(half + i);
        let d0: Fr = l.den(i);
        let d1: Fr = l.den(half + i);
        numerator.push(n0.mul(d1).add(n1.mul(d0)));
        denominator.push(d0.mul(d1));
        i += 1;
    }
    assert(vals(numerator@) =~= up_num(n, d));
    assert(vals(denominator@) =~= up_den(d));
    LogUpLayer::Generic { numerator, denominator }
}

/// The layers above a bottom layer of `2^n` fractions.
fn build_layers(bottom: LogUpLayer, n: usize) -> (c: LogUpCircuit)
    requires
        n >= 1,
        layer_num(bottom).len() == pow2(n as nat),
        layer_den(bottom).len() == pow2(n as nat),
    ensures
        circuit_wf(c),
        c.layers@.len() == n,
        c.layers@[0] == bottom,
{
    let mut layers: Vec<LogUpLayer> = Vec::with_capacity(n);
    layers.push(bottom);
    let mut k: usize = 1;
    while k < n
        invariant
            1 <= k <= n,
            layers@.len() == k,
            layers@[0] == bottom,
            forall|j: int|
                0 <= j < k ==> layer_num(#[trigger] layers@[j]).len() == pow2((n - j) as nat)
                    && layer_den(layers@[j]).len() == pow2((n - j) as nat),
            forall|j: int|
                1 <= j < k ==> layer_num(#[trigger] layers@[j]) == up_num(
                    layer_num(layers@[j - 1]),
                    layer_den(layers@[j - 1]),
                ) && layer_den(layers@[j]) == up_den(layer_den(layers@[j - 1])),
        decreases n - k,
    {
        let next: LogUpLayer = sum_layer(&layers[k - 1]);
        proof {
            lemma_pow2_unfold((n - (k - 1)) as nat);
        }
        layers.push(next);
        k += 1;
    }
    let c: LogUpCircuit = LogUpCircuit { layers };
    assert forall|j: int| 0 <= j < c.layers@.len() implies #[trigger] layer_sized(c, j) by {
        assert(layer_num(c.layers@[j]).len() == pow2((n - j) as nat));
    }
    assert forall|j: int| 1 <= j < c.layers@.len() implies #[trigger] layer_sums(c, j) by {
        assert(layer_num(c.layers@[j]) == up_num(
            layer_num(c.layers@[j - 1]),
            layer_den(c.layers@[j - 1]),
        ));
    }
    c
}

impl LogUpCircuit {
    /// The circuit of a witness column.
    pub fn lookup(witness: &[Fr], beta: Fr) -> (r: Result<LogUpCircuit, LogUpError>)
        ensures
            r is Ok <==> column_ok(witness@.len()),
            r matches Err(e) ==> e == LogUpError::BadLength,
            r matches Ok(c) ==> {
                &&& circuit_wf(c)
                &&& pow2(c.layers@.len()) == witness@.len()
                &&& c.layers@[0] is InitialLookup
                &&& layer_den(c.layers@[0]) == shifted(vals(witness@), beta@)
                &&& layer_num(c.layers@[0]) == constant(fneg(1), witness@.len())
            },
    {
        proof {
            vstd::arithmetic::power2::lemma2_to64();
        }
        match log2_exact(witness.len()) {
            Some(n) => {
                assert(is_pow2(witness@.len()));
                if n == 0 {
                    return Err(LogUpError::BadLength);
                }
                proof {
                    lemma_pow2_unfold(n as nat);
                    lemma_pow2_pos((n - 1) as nat);
                }
                let denominator: Vec<Fr> = shift(witness, beta);
                assert(vals(denominator@).len() == denominator@.len());
                let bottom: LogUpLayer = LogUpLayer::InitialLookup { denominator };
                assert(layer_num(bottom) == constant(fneg(1), witness@.len()));
                Ok(build_layers(bottom, n))
            },
            None => Err(LogUpError::BadLength),
        }
    }

    /// The circuit of a table column with its multiplicities.
    pub fn table(table: &[Fr], mults: &[Fr], beta: Fr) -> (r: Result<LogUpCircuit, LogUpError>)
        ensures
            r is Ok <==> column_ok(table@.len()) && mults@.len() == table@.len(),
            r matches Err(e) ==> e == if mults@.len() != table@.len() {
                LogUpError::LengthMismatch
            } else {
                LogUpError::BadLength
            },
            r matches Ok(c) ==> {
                &&& circuit_wf(c)
                &&& pow2(c.layers@.len()) == table@.len()
                &&& c.layers@[0] is InitialTable
                &&& layer_den(c.layers@[0]) == shifted(vals(table@), beta@)
                &&& layer_num(c.layers@[0]) == vals(mults@)
            },
    {
        proof {
            vstd::arithmetic::power2::lemma2_to64();
        }
        if mults.len() != table.len() {
            return Err(LogUpError::LengthMismatch);
        }
        match log2_exact(table.len()) {
            Some(n) => {
                assert(is_pow2(table@.len()));
                if n == 0 {
                    return Err(LogUpError::BadLength);
                }
                proof {
                    lemma_pow2_unfold(n as nat);
                    lemma_pow2_pos((n - 1) as nat);
                }
                let bottom: LogUpLayer = LogUpLayer::InitialTable {
                    numerator: copied(mults),
                    denominator: shift(table, beta),
                };
                Ok(build_layers(bottom, n))
            },
            None => Err(LogUpError::BadLength),
        }
    }

    /// The number of reductions from the top to the bottom.
    pub fn num_vars(&self) -> (r: usize)
        requires
            self.layers@.len() >= 1,
        ensures
            r == self.layers@.len() - 1,
    {
        self.layers.len() - 1
    }
}

/// The two fractions at the top of a circuit: numerators, then denominators.
pub open spec fn top_of(c: LogUpCircuit) -> Seq<int> {
    let top = c.layers@.last();
    seq![layer_num(top)[0], layer_num(top)[1], layer_den(top)[0], layer_den(top)[1]]
}

/// The residues of an array of four.
pub open spec fn vals4(a: [Fr; 4]) -> Seq<int> {
    vals(a@)
}

/// Extract `[num0, num1, denom0, denom1]` from a circuit's top layer.
pub fn top_halves(circuit: &LogUpCircuit) -> (r: [Fr; 4])
    requires
        circuit_wf(*circuit),
    ensures
        vals4(r) == top_of(*circuit),
{
    let k: usize = circuit.layers.len() - 1;
    let top: &LogUpLayer = &circuit.layers[k];
    proof {
        assert(layer_sized(*circuit, k as int));
        vstd::arithmetic::power2::lemma2_to64();
    }
    let r: [Fr; 4] = [top.num(0), top.num(1), top.den(0), top.den(1)];
    assert(vals4(r) =~= top_of(*circuit));
    r
}

// ---- The reduction ----

/// What a verifier holds between two layers: the transcript state, the point,
/// and the claimed numerator and denominator at it.
pub ghost struct GkrState {
    pub t: Seq<u8>,
    pub point: Seq<int>,
    pub num: int,
    pub den: int,
}

/// `a + r (b - a)`.
pub open spec fn lerp(a: int, b: int, r: int) -> int {
    fadd(a, fmul(r, fsub(b, a)))
}

/// The state after the top fractions.
pub open spec fn gkr_start(top: Seq<int>, t0: Seq<u8>) -> GkrState {
    let t1 = abs_each(t0, top);
    let r = challenge(t1);
    GkrState {
        t: challenged(t1),
        point: seq![r],
        num: lerp(top[0], top[1], r),
        den: lerp(top[2], top[3], r),
    }
}

/// The claim that a layer's sumcheck proves: numerator plus `lambda` times
/// denominator, `lambda` being the challenge in this state.
pub open spec fn gkr_claim(s: GkrState) -> int {
    fadd(s.num, fmul(challenge(s.t), s.den))
}

/// Whether a layer's reduction is accepted: its sumcheck is, for the weights
/// of the point.
pub open spec fn gkr_layer_ok(s: GkrState, lp: LogUpLayerProof) -> bool {
    &&& eq2_verdict(lp.sumcheck, s.point.len(), gkr_claim(s), challenged(s.t)) == Ok::<
        (),
        SnarkError,
    >(())
    &&& lp.sumcheck.eq_eval@ == eq_points(s.point, vals(lp.sumcheck.r_full@))
}

/// The evaluations that a layer's reduction sends.
pub open spec fn layer_evals(lp: LogUpLayerProof) -> Seq<int> {
    seq![
        lp.sumcheck.p1_eval@,
        lp.sumcheck.q1_eval@,
        lp.sumcheck.p2_eval@,
        lp.sumcheck.q2_eval@,
    ]
}

/// The state after a layer: `p1` and `p2` are the numerator and denominator of
/// the lower half, `q1` the denominator of the upper half, and `q2` its
/// numerator plus `lambda q1`.
pub open spec fn gkr_step(s: GkrState, lp: LogUpLayerProof) -> GkrState {
    let lambda = challenge(s.t);
    let t2 = eq2_state(lp.sumcheck, challenged(s.t));
    let t3 = abs_each(t2, layer_evals(lp));
    let r = challenge(t3);
    let n1 = fsub(lp.sumcheck.q2_eval@, fmul(lambda, lp.sumcheck.q1_eval@));
    GkrState {
        t: challenged(t3),
        point: seq![r] + vals(lp.sumcheck.r_full@),
        num: lerp(lp.sumcheck.p1_eval@, n1, r),
        den: lerp(lp.sumcheck.p2_eval@, lp.sumcheck.q1_eval@, r),
    }
}

/// The state after `k` layers.
pub open spec fn gkr_at(
    top: Seq<int>,
    t0: Seq<u8>,
    layers: Seq<LogUpLayerProof>,
    k: nat,
) -> GkrState
    decreases k,
{
    if k == 0 {
        gkr_start(top, t0)
    } else {
        gkr_step(gkr_at(top, t0, layers, (k - 1) as nat), layers[k - 1])
    }
}

/// Whether the first `k` layers are accepted.
pub open spec fn gkr_all_ok(
    top: Seq<int>,
    t0: Seq<u8>,
    layers: Seq<LogUpLayerProof>,
    k: nat,
) -> bool {
    forall|j: nat| j < k ==> gkr_layer_ok(#[trigger] gkr_at(top, t0, layers, j), layers[j as int])
}

/// The numerator of the sum of the two top fractions.
pub open spec fn top_num(top: Seq<int>) -> int {
    fadd(fmul(top[0], top[3]), fmul(top[1], top[2]))
}

/// The denominator of the sum of the two top fractions.
pub open spec fn top_den(top: Seq<int>) -> int {
    fmul(top[2], top[3])
}

/// Whether the top fractions of a lookup and a table cancel.
pub open spec fn tops_cancel(lookup: Seq<int>, table: Seq<int>) -> bool {
    fadd(fmul(top_num(lookup), top_den(table)), fmul(top_den(lookup), top_num(table))) == 0
}

/// The verdict on a proof with the given top fractions.
pub open spec fn logup_verdict(
    proof: LogUpProof,
    n_vars: nat,
    top: Seq<int>,
    claimed_num: int,
    t0: Seq<u8>,
) -> Result<(), LogUpError> {
    let last = gkr_at(top, t0, proof.layers@, n_vars);
    if proof.layers@.len() != n_vars {
        Err(LogUpError::LayerCount)
    } else if claimed_num != top_num(top) {
        Err(LogUpError::TopMismatch)
    } else if !gkr_all_ok(top, t0, proof.layers@, n_vars) {
        Err(LogUpError::LayerRejected)
    } else if last.point != vals(proof.bottom_point@) || last.num != proof.bottom_num@ || last.den
        != proof.bottom_denom@ {
        Err(LogUpError::BottomMismatch)
    } else {
        Ok(())
    }
}

/// The transcript state after a proof was replayed.
pub open spec fn logup_state(proof: LogUpProof, top: Seq<int>, t0: Seq<u8>) -> Seq<u8> {
    gkr_at(top, t0, proof.layers@, proof.layers@.len()).t
}

/// The points grow by one coordinate per layer.
pub proof fn lemma_gkr_point_len(
    top: Seq<int>,
    t0: Seq<u8>,
    layers: Seq<LogUpLayerProof>,
    k: nat,
)
    requires
        gkr_all_ok(top, t0, layers, k),
    ensures
        gkr_at(top, t0, layers, k).point.len() == k + 1,
    decreases k,
{
    if k > 0 {
        let j = (k - 1) as nat;
        assert forall|i: nat| i < j implies gkr_layer_ok(
            #[trigger] gkr_at(top, t0, layers, i),
            layers[i as int],
        ) by {}
        lemma_gkr_point_len(top, t0, layers, j);
        assert(gkr_layer_ok(gkr_at(top, t0, layers, j), layers[j as int]));
    }
}

/// Verify a proof against the top fractions of its circuit.
pub fn verify_circuit_with_top(
    proof: &LogUpProof,
    n_vars: usize,
    top: [Fr; 4],
    claimed_num: Fr,
    sponge: &mut Transcript,
) -> (r: Result<(), LogUpError>)
    ensures
        r == logup_verdict(*proof, n_vars as nat, vals4(top), claimed_num@, state_of(*old(sponge))),
        r is Ok ==> {
            &&& state_of(*final(sponge)) == logup_state(*proof, vals4(top), state_of(*old(sponge)))
            &&& proof.bottom_point@.len() == n_vars + 1
        },
{
    let ghost tv = vals4(top);
    let ghost t0 = state_of(*sponge);
    let ghost ls = proof.layers@;
    if proof.layers.len() != n_vars {
        return Err(LogUpError::LayerCount);
    }
    if claimed_num != top[0].mul(top[3]).add(top[1].mul(top[2])) {
        return Err(LogUpError::TopMismatch);
    }
    absorb_each(sponge, top.as_slice());
    let r0: Fr = squeeze_one(sponge);
    let mut point: Vec<Fr> = vec![r0];
    let mut num: Fr = top[0].add(r0.mul(top[1].sub(top[0])));
    let mut den: Fr = top[2].add(r0.mul(top[3].sub(top[2])));
    let mut k: usize = 0;
    assert(vals(point@) =~= seq![r0@]);
    while k < n_vars
        invariant
            k <= n_vars,
            n_vars == proof.layers@.len(),
            ls == proof.layers@,
            tv == vals4(top),
            t0 == state_of(*old(sponge)),
            claimed_num@ == top_num(tv),
            gkr_all_ok(tv, t0, ls, k as nat),
            vals(point@) == gkr_at(tv, t0, ls, k as nat).point,
            num@ == gkr_at(tv, t0, ls, k as nat).num,
            den@ == gkr_at(tv, t0, ls, k as nat).den,
            state_of(*sponge) == gkr_at(tv, t0, ls, k as nat).t,
        decreases n_vars - k,
    {
        let ghost s = gkr_at(tv, t0, ls, k as nat);
        let lp: &LogUpLayerProof = &proof.layers[k];
        let lambda: Fr = squeeze_one(sponge);
        let claim: Fr = num.add(lambda.mul(den));
        proof {
            lemma_gkr_point_len(tv, t0, ls, k as nat);
        }
        let m: usize = point.len();
        match verify_eq_two_product_sumcheck(&lp.sumcheck, m, claim, sponge) {
            Ok(_) => {},
            Err(_) => {
                assert(!gkr_layer_ok(gkr_at(tv, t0, ls, k as nat), ls[k as int]));
                return Err(LogUpError::LayerRejected);
            },
        }
        let expected: Fr = eval_eq(point.as_slice(), lp.sumcheck.r_full.as_slice());
        if lp.sumcheck.eq_eval != expected {
            assert(!gkr_layer_ok(gkr_at(tv, t0, ls, k as nat), ls[k as int]));
            return Err(LogUpError::LayerRejected);
        }
        assert(gkr_layer_ok(s, *lp));
        let evals: Vec<Fr> = vec![
            lp.sumcheck.p1_eval,
            lp.sumcheck.q1_eval,
            lp.sumcheck.p2_eval,
            lp.sumcheck.q2_eval,
        ];
        assert(vals(evals@) =~= layer_evals(*lp));
        absorb_each(sponge, evals.as_slice());
        let r: Fr = squeeze_one(sponge);
        let n1: Fr = lp.sumcheck.q2_eval.sub(lambda.mul(lp.sumcheck.q1_eval));
        num = lp.sumcheck.p1_eval.add(r.mul(n1.sub(lp.sumcheck.p1_eval)));
        den = lp.sumcheck.p2_eval.add(r.mul(lp.sumcheck.q1_eval.sub(lp.sumcheck.p2_eval)));
        let head: Vec<Fr> = vec![r];
        assert(vals(head@) =~= seq![r@]);
        point = concat(head.as_slice(), lp.sumcheck.r_full.as_slice());
        k += 1;
        assert(gkr_at(tv, t0, ls, k as nat) == gkr_step(s, *lp));
    }
    proof {
        lemma_gkr_point_len(tv, t0, ls, k as nat);
        assert(vals(point@).len() == n_vars + 1);
    }
    if !same_elements(point.as_slice(), proof.bottom_point.as_slice()) || num != proof.bottom_num
        || den != proof.bottom_denom {
        return Err(LogUpError::BottomMismatch);
    }
    assert(vals(proof.bottom_point@).len() == proof.bottom_point@.len());
    Ok(())
}

// ---- Completeness ----

/// The lower half of a table.
pub open spec fn lower(t: Seq<int>) -> Seq<int> {
    t.take(t.len() as int / 2)
}

/// The upper half of a table.
pub open spec fn upper(t: Seq<int>) -> Seq<int> {
    t.skip(t.len() as int / 2)
}

/// Splitting off the first variable: an extension interpolates between the
/// extensions of the halves.
pub proof fn law_mle_split(t: Seq<int>, r: int, q: Seq<int>)
    requires
        t.len() == pow2(q.len() + 1),
        all_in_field(t),
        all_in_field(q),
        in_field(r),
    ensures
        mle(t, seq![r] + q) == lerp(mle(lower(t), q), mle(upper(t), q), r),
{
    broadcast use group_in_field;

    lemma_pow2_unfold(q.len() + 1);
    let h = pow2(q.len()) as int;
    let lo = lower(t);
    let hi = upper(t);
    assert forall|i: int| 0 <= i < lo.len() implies in_field(#[trigger] lo[i]) by {
        assert(in_field(t[i]));
    }
    assert forall|i: int| 0 <= i < hi.len() implies in_field(#[trigger] hi[i]) by {
        assert(in_field(t[h + i]));
    }
    let m1 = fneg(1);
    let diff = combined(m1, lo, hi);
    let f = fold(t, r);
    let g = combined(r, diff, lo);
    assert forall|i: int| 0 <= i < f.len() implies #[trigger] f[i] == g[i] by {
        assert(in_field(lo[i]) && in_field(hi[i]));
        lemma_minus(lo[i], hi[i]);
        lemma_commute(lo[i], fmul(r, fsub(hi[i], lo[i])));
        assert(t[i] == lo[i] && t[h + i] == hi[i]);
    }
    assert(f =~= g);
    let p = seq![r] + q;
    assert(p.drop_first() =~= q);
    lemma_fold_many_front(t, p);
    law_mle_linear(m1, lo, hi, q);
    law_mle_linear(r, diff, lo, q);
    lemma_mle_in_field(lo, q);
    lemma_mle_in_field(hi, q);
    lemma_minus(mle(lo, q), mle(hi, q));
    lemma_commute(mle(lo, q), fmul(r, fsub(mle(hi, q), mle(lo, q))));
}

/// Adding the negated is subtracting.
proof fn lemma_minus(a: int, b: int)
    requires
        in_field(a),
        in_field(b),
    ensures
        fadd(fmul(fneg(1), a), b) == fsub(b, a),
{
    broadcast use group_residue;

    lemma_residue_id(a);
    lemma_residue_id(b);
    lemma_residue_id(1);
    assert((0 - 1) * a + b == b - a);
}

/// The summand of a layer's sumcheck.
proof fn lemma_layer_algebra(s: int, u: int, l: int, w: int, n0: int, n1: int, d0: int, d1: int)
    requires
        in_field(s),
        in_field(u),
        in_field(l),
        in_field(w),
        in_field(n0),
        in_field(n1),
        in_field(d0),
        in_field(d1),
    ensures
        fadd(
            fadd(s, fmul(w, fadd(fmul(n0, d1), fmul(n1, d0)))),
            fmul(l, fadd(u, fmul(w, fmul(d0, d1)))),
        ) == fadd(
            fadd(s, fmul(l, u)),
            eq_two_product(w, n0, d1, d0, fadd(fmul(l, d1), n1)),
        ),
{
    broadcast use group_residue;

    lemma_residue_id(s);
    lemma_residue_id(u);
    lemma_residue_id(l);
    lemma_residue_id(w);
    lemma_residue_id(n0);
    lemma_residue_id(n1);
    lemma_residue_id(d0);
    lemma_residue_id(d1);
    let a = n0 * d1;
    let b = n1 * d0;
    let c = d0 * d1;
    assert(d0 * (l * d1 + n1) == l * c + b) by (nonlinear_arith)
        requires
            b == n1 * d0,
            c == d0 * d1,
    ;
    assert(w * (a + b) == w * a + w * b) by (nonlinear_arith);
    assert(l * (u + w * c) == l * u + w * (l * c)) by (nonlinear_arith);
    assert(w * (a + (l * c + b)) == w * a + w * (l * c) + w * b) by (nonlinear_arith);
}

/// The columns of a layer's sumcheck.
pub open spec fn layer_columns(
    point: Seq<int>,
    n: Seq<int>,
    d: Seq<int>,
    lambda: int,
) -> Seq<Seq<int>> {
    eq2_columns(
        eq_table(point),
        lower(n),
        upper(d),
        lower(d),
        combined(lambda, upper(d), upper(n)),
    )
}

/// The partial sums of a layer's sumcheck.
proof fn lemma_layer_sum(point: Seq<int>, n: Seq<int>, d: Seq<int>, lambda: int, k: nat)
    requires
        n.len() == pow2(point.len() + 1),
        d.len() == n.len(),
        all_in_field(n),
        all_in_field(d),
        in_field(lambda),
        k <= pow2(point.len()),
    ensures
        total(&EqTwoProduct {  }, layer_columns(point, n, d, lambda), k) == fadd(
            dot(eq_table(point), up_num(n, d), k),
            fmul(lambda, dot(eq_table(point), up_den(d), k)),
        ),
    decreases k,
{
    broadcast use group_in_field;

    lemma_pow2_unfold(point.len() + 1);
    let h = pow2(point.len()) as int;
    let cols = layer_columns(point, n, d, lambda);
    if k == 0 {
        lemma_fmul_one(lambda);
        lemma_fadd_zero(0);
    } else {
        let i = k - 1;
        lemma_layer_sum(point, n, d, lambda, i as nat);
        let w = eq_weight(point, i);
        lemma_eq_weight_in_field(point, i);
        assert(in_field(n[i]) && in_field(n[h + i]) && in_field(d[i]) && in_field(d[h + i]));
        let cell = cell_at(cols, i);
        assert(cell[0] == w);
        assert(cell[1] == n[i]);
        assert(cell[2] == d[h + i]);
        assert(cell[3] == d[i]);
        assert(cell[4] == fadd(fmul(lambda, d[h + i]), n[h + i]));
        lemma_dot_in_field(eq_table(point), up_num(n, d), i as nat);
        lemma_dot_in_field(eq_table(point), up_den(d), i as nat);
        lemma_layer_algebra(
            dot(eq_table(point), up_num(n, d), i as nat),
            dot(eq_table(point), up_den(d), i as nat),
            lambda,
            w,
            n[i],
            n[h + i],
            d[i],
            d[h + i],
        );
    }
}

/// A sum of products is a residue.
pub proof fn lemma_dot_in_field(w: Seq<int>, t: Seq<int>, n: nat)
    ensures
        in_field(dot(w, t, n)),
{
    broadcast use group_in_field;

}

/// A layer's claim is the sum that its sumcheck proves.
proof fn lemma_layer_claim(point: Seq<int>, n: Seq<int>, d: Seq<int>, lambda: int)
    requires
        n.len() == pow2(point.len() + 1),
        d.len() == n.len(),
        all_in_field(n),
        all_in_field(d),
        all_in_field(point),
        in_field(lambda),
    ensures
        total(&EqTwoProduct {  }, layer_columns(point, n, d, lambda), pow2(point.len())) == fadd(
            mle(up_num(n, d), point),
            fmul(lambda, mle(up_den(d), point)),
        ),
{
    broadcast use group_in_field;

    lemma_pow2_unfold(point.len() + 1);
    lemma_layer_sum(point, n, d, lambda, pow2(point.len()));
    law_mle_is_eq_sum(up_num(n, d), point);
    law_mle_is_eq_sum(up_den(d), point);
}

/// One half of a layer's numerators and denominators.
fn layer_half(l: &LogUpLayer, upper_half: bool) -> (r: (Vec<Fr>, Vec<Fr>))
    requires
        layer_num(*l).len() == layer_den(*l).len(),
        layer_den(*l).len() % 2 == 0,
    ensures
        vals(r.0@) == if upper_half {
            upper(layer_num(*l))
        } else {
            lower(layer_num(*l))
        },
        vals(r.1@) == if upper_half {
            upper(layer_den(*l))
        } else {
            lower(layer_den(*l))
        },
{
    let half: usize = l.size() / 2;
    let start: usize = if upper_half {
        half
    } else {
        0
    };
    let mut num: Vec<Fr> = Vec::with_capacity(half);
    let mut den: Vec<Fr> = Vec::with_capacity(half);
    let ghost n = layer_num(*l);
    let ghost d = layer_den(*l);
    let mut i: usize = 0;
    while i < half
        invariant
            i <= half,
            n == layer_num(*l),
            d == layer_den(*l),
            n.len() == d.len(),
            half + half == d.len(),
            half + half <= usize::MAX,
            start == 0 || start == half,
            num@.len() == i,
            den@.len() == i,
            forall|k: int| 0 <= k < i ==> (#[trigger] num@[k])@ == n[start + k],
            forall|k: int| 0 <= k < i ==> (#[trigger] den@[k])@ == d[start + k],
        decreases half - i,
    {
        num.push(l.num(start + i));
        den.push(l.den(start + i));
        i += 1;
    }
    assert(vals(num@) =~= if upper_half {
        upper(n)
    } else {
        lower(n)
    });
    assert(vals(den@) =~= if upper_half {
        upper(d)
    } else {
        lower(d)
    });
    (num, den)
}

/// `lambda d + n`, entry by entry.
fn combine(lambda: Fr, d: &Vec<Fr>, n: &Vec<Fr>) -> (r: Vec<Fr>)
    requires
        d@.len() == n@.len(),
    ensures
        vals(r@) == combined(lambda@, vals(d@), vals(n@)),
{
    let mut out: Vec<Fr> = Vec::with_capacity(d.len());
    let mut i: usize = 0;
    while i < d.len()
        invariant
            i <= d@.len(),
            d@.len() == n@.len(),
            out@.len() == i,
            forall|k: int| 0 <= k < i ==> (#[trigger] out@[k])@ == fadd(fmul(lambda@, d@[k]@), n@[k]@),
        decreases d@.len() - i,
    {
        out.push(lambda.mul(d[i]).add(n[i]));
        i += 1;
    }
    assert(vals(out@) =~= combined(lambda@, vals(d@), vals(n@)));
    out
}

/// The columns of a circuit's layer are residues.
proof fn lemma_layer_in_field(l: LogUpLayer)
    ensures
        all_in_field(layer_num(l)),
        all_in_field(layer_den(l)),
{
    broadcast use {lemma_view_in_field, group_in_field};

}

/// Prove that a circuit's bottom fractions sum to its top fraction. The proof
/// is one that a verifier on the same transcript accepts, and its bottom
/// claims are the values of the bottom columns at its bottom point.
pub fn prove_circuit(circuit: &LogUpCircuit, sponge: &mut Transcript) -> (r: Result<
    LogUpProof,
    LogUpError,
>)
    requires
        circuit_wf(*circuit),
    ensures
        r matches Ok(proof) && {
            let t0 = state_of(*old(sponge));
            let top = top_of(*circuit);
            &&& logup_verdict(
                proof,
                (circuit.layers@.len() - 1) as nat,
                top,
                top_num(top),
                t0,
            ) == Ok::<(), LogUpError>(())
            &&& state_of(*final(sponge)) == logup_state(proof, top, t0)
            &&& proof.layers@.len() == circuit.layers@.len() - 1
            &&& proof.bottom_point@.len() == circuit.layers@.len()
            &&& proof.bottom_num@ == mle(layer_num(circuit.layers@[0]), vals(proof.bottom_point@))
            &&& proof.bottom_denom@ == mle(layer_den(circuit.layers@[0]), vals(proof.bottom_point@))
        },
{
    let n: usize = circuit.layers.len();
    let top: [Fr; 4] = top_halves(circuit);
    let ghost tv = top_of(*circuit);
    let ghost t0 = state_of(*sponge);
    absorb_each(sponge, top.as_slice());
    let r0: Fr = squeeze_one(sponge);
    let mut point: Vec<Fr> = vec![r0];
    let mut num: Fr = top[0].add(r0.mul(top[1].sub(top[0])));
    let mut den: Fr = top[2].add(r0.mul(top[3].sub(top[2])));
    let mut layers: Vec<LogUpLayerProof> = Vec::with_capacity(n - 1);
    let mut k: usize = 0;
    proof {
        broadcast use lemma_view_in_field;

        vstd::arithmetic::power2::lemma2_to64();
        assert(vals4(top)[0] == top@[0]@ && vals4(top)[1] == top@[1]@ && vals4(top)[2] == top@[2]@
            && vals4(top)[3] == top@[3]@);
        assert(vals(point@) =~= seq![r0@]);
        let l = circuit.layers@[n - 1];
        assert(layer_sized(*circuit, n - 1));
        lemma_layer_in_field(l);
        let e = Seq::<int>::empty();
        assert(seq![r0@] + e =~= vals(point@));
        law_mle_split(layer_num(l), r0@, e);
        law_mle_split(layer_den(l), r0@, e);
    }
    while k + 1 < n
        invariant
            k < n,
            n == circuit.layers@.len(),
            circuit_wf(*circuit),
            tv == top_of(*circuit),
            layers@.len() == k,
            point@.len() == k + 1,
            t0 == state_of(*old(sponge)),
            gkr_all_ok(tv, t0, layers@, k as nat),
            gkr_at(tv, t0, layers@, k as nat) == (GkrState {
                t: state_of(*sponge),
                point: vals(point@),
                num: num@,
                den: den@,
            }),
            num@ == mle(layer_num(circuit.layers@[n - 1 - k]), vals(point@)),
            den@ == mle(layer_den(circuit.layers@[n - 1 - k]), vals(point@)),
        decreases n - k,
    {
        let ghost s = gkr_at(tv, t0, layers@, k as nat);
        let ghost layers0 = layers@;
        let below: &LogUpLayer = &circuit.layers[n - 2 - k];
        let ghost bn = layer_num(*below);
        let ghost bd = layer_den(*below);
        proof {
            assert(layer_sized(*circuit, n - 2 - k));
            assert(layer_sums(*circuit, n - 1 - k));
            lemma_pow2_unfold((k + 2) as nat);
            lemma_layer_in_field(*below);
        }
        let lambda: Fr = squeeze_one(sponge);
        let claim: Fr = num.add(lambda.mul(den));
        let size: usize = below.size();
        assert(pow2(vals(point@).len()) <= usize::MAX);
        let eq: Vec<Fr> = build_eq_table(point.as_slice());
        let (n0, d0): (Vec<Fr>, Vec<Fr>) = layer_half(below, false);
        let (n1, d1): (Vec<Fr>, Vec<Fr>) = layer_half(below, true);
        assert(n1@.len() == vals(n1@).len() && d1@.len() == vals(d1@).len() && n0@.len()
            == vals(n0@).len() && d0@.len() == vals(d0@).len() && eq@.len() == vals(eq@).len());
        let q2: Vec<Fr> = combine(lambda, &d1, &n1);
        assert(q2@.len() == vals(q2@).len());
        proof {
            broadcast use lemma_view_in_field;

            lemma_layer_claim(vals(point@), bn, bd, lambda@);
            assert(is_pow2(eq@.len()));
        }
        let sumcheck: EqTwoProductProof = match prove_eq_two_product_sumcheck(
            eq.as_slice(),
            n0.as_slice(),
            d1.as_slice(),
            d0.as_slice(),
            q2.as_slice(),
            claim,
            sponge,
        ) {
            Ok(p) => p,
            Err(_) => {
                return Err(LogUpError::BadLength);
            },
        };
        let lp: LogUpLayerProof = LogUpLayerProof { sumcheck };
        let evals: Vec<Fr> = vec![
            lp.sumcheck.p1_eval,
            lp.sumcheck.q1_eval,
            lp.sumcheck.p2_eval,
            lp.sumcheck.q2_eval,
        ];
        assert(vals(evals@) =~= layer_evals(lp));
        absorb_each(sponge, evals.as_slice());
        let r: Fr = squeeze_one(sponge);
        let n1e: Fr = lp.sumcheck.q2_eval.sub(lambda.mul(lp.sumcheck.q1_eval));
        num = lp.sumcheck.p1_eval.add(r.mul(n1e.sub(lp.sumcheck.p1_eval)));
        den = lp.sumcheck.p2_eval.add(r.mul(lp.sumcheck.q1_eval.sub(lp.sumcheck.p2_eval)));
        let head: Vec<Fr> = vec![r];
        assert(vals(head@) =~= seq![r@]);
        let ghost old_point = vals(point@);
        point = concat(head.as_slice(), lp.sumcheck.r_full.as_slice());
        proof {
            broadcast use lemma_view_in_field;

            let q = vals(lp.sumcheck.r_full@);
            lemma_pow2_injective(lp.sumcheck.rounds@.len(), (k + 1) as nat);
            assert(q.len() == k + 1);
            law_mle_of_eq_table(old_point, q);
            assert(gkr_layer_ok(s, lp));
            law_mle_split(bn, r@, q);
            law_mle_split(bd, r@, q);
            lemma_halves_in_field(bn);
            lemma_halves_in_field(bd);
            law_mle_linear(lambda@, upper(bd), upper(bn), q);
            lemma_mle_in_field(upper(bn), q);
            lemma_mle_in_field(upper(bd), q);
            lemma_undo_combine(lambda@, mle(upper(bd), q), mle(upper(bn), q));
        }
        layers.push(lp);
        k += 1;
        proof {
            assert forall|j: nat| j < k implies gkr_layer_ok(
                #[trigger] gkr_at(tv, t0, layers@, j),
                layers@[j as int],
            ) by {
                lemma_gkr_prefix(tv, t0, layers0, layers@, j);
                if j < k - 1 {
                    assert(gkr_layer_ok(gkr_at(tv, t0, layers0, j), layers0[j as int]));
                }
            }
            lemma_gkr_prefix(tv, t0, layers0, layers@, (k - 1) as nat);
        }
    }
    Ok(LogUpProof { layers, bottom_point: point, bottom_num: num, bottom_denom: den })
}

/// The halves of a table of residues hold residues.
pub proof fn lemma_halves_in_field(t: Seq<int>)
    requires
        all_in_field(t),
    ensures
        all_in_field(lower(t)),
        all_in_field(upper(t)),
{
    assert forall|i: int| 0 <= i < lower(t).len() implies in_field(#[trigger] lower(t)[i]) by {
        assert(in_field(t[i]));
    }
    assert forall|i: int| 0 <= i < upper(t).len() implies in_field(#[trigger] upper(t)[i]) by {
        assert(in_field(t[t.len() / 2 + i]));
    }
}

/// Subtracting the multiple gives the summand back.
proof fn lemma_undo_combine(l: int, d: int, n: int)
    requires
        in_field(l),
        in_field(d),
        in_field(n),
    ensures
        fsub(fadd(fmul(l, d), n), fmul(l, d)) == n,
{
    broadcast use group_residue;

    lemma_residue_id(l);
    lemma_residue_id(d);
    lemma_residue_id(n);
}

/// The first layers do not depend on the later ones.
proof fn lemma_gkr_prefix(
    top: Seq<int>,
    t0: Seq<u8>,
    a: Seq<LogUpLayerProof>,
    b: Seq<LogUpLayerProof>,
    k: nat,
)
    requires
        k <= a.len() <= b.len(),
        forall|i: int| 0 <= i < a.len() ==> a[i] == b[i],
    ensures
        gkr_at(top, t0, a, k) == gkr_at(top, t0, b, k),
    decreases k,
{
    if k > 0 {
        lemma_gkr_prefix(top, t0, a, b, (k - 1) as nat);
    }
}

} // verus!
