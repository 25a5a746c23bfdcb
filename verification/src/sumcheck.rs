//! The sumcheck protocol over a table of columns.
//!
//! A prover claims the sum over all table indices of an identity in the
//! column entries. Each round binds one variable: the prover sends the round
//! polynomial by its samples, the transcript answers with a challenge, and the
//! columns are folded at it.

use crate::errors::SnarkError;
use crate::field::{
    Fr, all_in_field, fadd, fmul, fr_bytes, fsub, in_field, lemma_fr_bytes_len,
    lemma_view_in_field, modulus, residue, vals,
};
use crate::mle::{fold, fold_many, mle};
use crate::poly::{
    interpolate, interpolate_at, lemma_interpolate_exact, lemma_poly_add, poly, poly_add,
};
use crate::ring::{
    group_in_field, lemma_fadd_zero, lemma_residue_add, lemma_residue_id, lemma_residue_mul,
    lemma_residue_sub,
};
use crate::transcript::{
    abs_fr, absorb_bytes, absorb_fr, absorbed, challenge, challenged, squeeze_one, state_of,
};
use ark_crypto_primitives::sponge::merlin::Transcript;
use vstd::arithmetic::div_mod::{lemma_add_mod_noop, lemma_mod_twice};
use vstd::arithmetic::power2::{lemma_pow2_unfold, pow2};
use vstd::prelude::*;

verus! {

/// A round polynomial, sent as its values at `0, 1, .., degree`.
pub trait RoundPoly: Sized {
    /// The values at `0, 1, ..`.
    spec fn samples(&self) -> Seq<int>;

    /// The degree that the samples determine.
    spec fn degree() -> nat;

    /// There is one sample more than the degree, which is between two and four.
    proof fn lemma_samples(&self)
        ensures
            self.samples().len() == Self::degree() + 1,
            2 <= Self::degree() <= 4,
    ;

    /// The degree, as a machine number.
    fn degree_bound() -> (d: usize)
        ensures
            d == Self::degree(),
            2 <= d <= 4,
    ;

    /// The polynomial with the given samples.
    fn from_samples(v: &Vec<Fr>) -> (r: Self)
        requires
            v@.len() == Self::degree() + 1,
        ensures
            r.samples() == vals(v@),
    ;

    /// The samples.
    fn to_samples(&self) -> (v: Vec<Fr>)
        ensures
            vals(v@) == self.samples(),
            v@.len() == Self::degree() + 1,
    ;

    /// The value at `r`.
    fn evaluate(&self, r: Fr) -> (v: Fr)
        ensures
            v@ == interpolate(self.samples(), r@),
    ;
}

/// A round polynomial of degree two.
#[derive(Clone, Copy, Debug)]
pub struct RoundPoly2 {
    pub at_zero: Fr,
    pub at_one: Fr,
    pub at_two: Fr,
}

/// A round polynomial of degree three.
#[derive(Clone, Copy, Debug)]
pub struct RoundPoly3 {
    pub at_zero: Fr,
    pub at_one: Fr,
    pub at_two: Fr,
    pub at_three: Fr,
}

/// A round polynomial of degree four.
#[derive(Clone, Copy, Debug)]
pub struct RoundPoly4 {
    pub at_zero: Fr,
    pub at_one: Fr,
    pub at_two: Fr,
    pub at_three: Fr,
    pub at_four: Fr,
}

impl RoundPoly for RoundPoly2 {
    open spec fn samples(&self) -> Seq<int> {
        seq![self.at_zero@, self.at_one@, self.at_two@]
    }

    open spec fn degree() -> nat {
        2
    }

    proof fn lemma_samples(&self) {
    }

    fn degree_bound() -> (d: usize) {
        2
    }

    fn from_samples(v: &Vec<Fr>) -> (r: Self) {
        let r: RoundPoly2 = RoundPoly2 { at_zero: v[0], at_one: v[1], at_two: v[2] };
        assert(r.samples() =~= vals(v@));
        r
    }

    fn to_samples(&self) -> (v: Vec<Fr>) {
        let v: Vec<Fr> = vec![self.at_zero, self.at_one, self.at_two];
        assert(vals(v@) =~= self.samples());
        v
    }

    fn evaluate(&self, r: Fr) -> (v: Fr) {
        let s: Vec<Fr> = self.to_samples();
        interpolate_at(s.as_slice(), r)
    }
}

impl RoundPoly for RoundPoly3 {
    open spec fn samples(&self) -> Seq<int> {
        seq![self.at_zero@, self.at_one@, self.at_two@, self.at_three@]
    }

    open spec fn degree() -> nat {
        3
    }

    proof fn lemma_samples(&self) {
    }

    fn degree_bound() -> (d: usize) {
        3
    }

    fn from_samples(v: &Vec<Fr>) -> (r: Self) {
        let r: RoundPoly3 = RoundPoly3 {
            at_zero: v[0],
            at_one: v[1],
            at_two: v[2],
            at_three: v[3],
        };
        assert(r.samples() =~= vals(v@));
        r
    }

    fn to_samples(&self) -> (v: Vec<Fr>) {
        let v: Vec<Fr> = vec![self.at_zero, self.at_one, self.at_two, self.at_three];
        assert(vals(v@) =~= self.samples());
        v
    }

    fn evaluate(&self, r: Fr) -> (v: Fr) {
        let s: Vec<Fr> = self.to_samples();
        interpolate_at(s.as_slice(), r)
    }
}

impl RoundPoly for RoundPoly4 {
    open spec fn samples(&self) -> Seq<int> {
        seq![self.at_zero@, self.at_one@, self.at_two@, self.at_three@, self.at_four@]
    }

    open spec fn degree() -> nat {
        4
    }

    proof fn lemma_samples(&self) {
    }

    fn degree_bound() -> (d: usize) {
        4
    }

    fn from_samples(v: &Vec<Fr>) -> (r: Self) {
        let r: RoundPoly4 = RoundPoly4 {
            at_zero: v[0],
            at_one: v[1],
            at_two: v[2],
            at_three: v[3],
            at_four: v[4],
        };
        assert(r.samples() =~= vals(v@));
        r
    }

    fn to_samples(&self) -> (v: Vec<Fr>) {
        let v: Vec<Fr> = vec![
            self.at_zero,
            self.at_one,
            self.at_two,
            self.at_three,
            self.at_four,
        ];
        assert(vals(v@) =~= self.samples());
        v
    }

    fn evaluate(&self, r: Fr) -> (v: Fr) {
        let s: Vec<Fr> = self.to_samples();
        interpolate_at(s.as_slice(), r)
    }
}

// ---- Absorbing a round ----

/// The state after residues were absorbed one by one.
pub open spec fn abs_each(state: Seq<u8>, s: Seq<int>) -> Seq<u8>
    decreases s.len(),
{
    if s.len() == 0 {
        state
    } else {
        abs_fr(abs_each(state, s.drop_last()), s.last())
    }
}

/// The bytes of residues, one after the other.
pub open spec fn fr_seq_bytes(s: Seq<int>) -> Seq<u8>
    decreases s.len(),
{
    if s.len() == 0 {
        Seq::empty()
    } else {
        fr_seq_bytes(s.drop_last()) + fr_bytes(s.last())
    }
}

/// The state after the samples of a round were absorbed: as one message, or
/// sample by sample.
pub open spec fn abs_round(joined: bool, state: Seq<u8>, s: Seq<int>) -> Seq<u8> {
    if joined {
        absorbed(state, fr_seq_bytes(s))
    } else {
        abs_each(state, s)
    }
}

/// Absorb field elements one by one.
pub fn absorb_each(t: &mut Transcript, s: &[Fr])
    ensures
        state_of(*final(t)) == abs_each(state_of(*old(t)), vals(s@)),
{
    let mut i: usize = 0;
    let ghost v = vals(s@);
    let ghost st = state_of(*t);
    while i < s.len()
        invariant
            i <= s@.len(),
            v == vals(s@),
            state_of(*t) == abs_each(st, v.take(i as int)),
        decreases s@.len() - i,
    {
        absorb_fr(t, s[i]);
        i += 1;
        assert(v.take(i as int).drop_last() =~= v.take(i - 1));
    }
    assert(v.take(i as int) =~= v);
}

/// The bytes of field elements, one after the other.
pub fn fr_slice_bytes(s: &[Fr]) -> (r: Vec<u8>)
    ensures
        r@ == fr_seq_bytes(vals(s@)),
        r@.len() == 32 * s@.len(),
{
    let mut out: Vec<u8> = Vec::new();
    let mut i: usize = 0;
    let ghost v = vals(s@);
    while i < s.len()
        invariant
            i <= s@.len(),
            v == vals(s@),
            out@ == fr_seq_bytes(v.take(i as int)),
            out@.len() == 32 * i,
        decreases s@.len() - i,
    {
        let mut b: Vec<u8> = s[i].to_bytes();
        proof {
            lemma_fr_bytes_len(s@[i as int]@);
        }
        out.append(&mut b);
        i += 1;
        assert(v.take(i as int).drop_last() =~= v.take(i - 1));
    }
    assert(v.take(i as int) =~= v);
    out
}

/// Absorb the samples of a round.
pub fn absorb_round<R: RoundPoly>(t: &mut Transcript, poly: &R, joined: bool)
    ensures
        state_of(*final(t)) == abs_round(joined, state_of(*old(t)), poly.samples()),
{
    let s: Vec<Fr> = poly.to_samples();
    proof {
        poly.lemma_samples();
    }
    if joined {
        let bytes: Vec<u8> = fr_slice_bytes(s.as_slice());
        absorb_bytes(t, bytes.as_slice());
    } else {
        absorb_each(t, s.as_slice());
    }
}

// ---- What the rounds of a proof determine ----

/// The samples of the rounds.
pub open spec fn samples_of<R: RoundPoly>(rounds: Seq<R>) -> Seq<Seq<int>> {
    Seq::new(rounds.len(), |j: int| rounds[j].samples())
}

/// The transcript state after `j` rounds.
pub open spec fn sc_state(joined: bool, t0: Seq<u8>, rounds: Seq<Seq<int>>, j: nat) -> Seq<u8>
    decreases j,
{
    if j == 0 {
        t0
    } else {
        challenged(
            abs_round(joined, sc_state(joined, t0, rounds, (j - 1) as nat), rounds[j - 1]),
        )
    }
}

/// The challenge of round `j`.
pub open spec fn sc_challenge(joined: bool, t0: Seq<u8>, rounds: Seq<Seq<int>>, j: nat) -> int {
    challenge(abs_round(joined, sc_state(joined, t0, rounds, j), rounds[j as int]))
}

/// The point that the challenges of all rounds form.
pub open spec fn sc_point(joined: bool, t0: Seq<u8>, rounds: Seq<Seq<int>>) -> Seq<int> {
    Seq::new(rounds.len(), |j: int| sc_challenge(joined, t0, rounds, j as nat))
}

/// The claim that stands before round `j`: the claim that was made, then the
/// value of the last round's polynomial at its challenge.
pub open spec fn sc_claim(
    joined: bool,
    t0: Seq<u8>,
    rounds: Seq<Seq<int>>,
    claim: int,
    j: nat,
) -> int {
    if j == 0 {
        claim
    } else {
        interpolate(rounds[j - 1], sc_challenge(joined, t0, rounds, (j - 1) as nat))
    }
}

/// Whether round `j` splits the claim that stands before it.
pub open spec fn sc_splits(
    joined: bool,
    t0: Seq<u8>,
    rounds: Seq<Seq<int>>,
    claim: int,
    j: nat,
) -> bool {
    fadd(rounds[j as int][0], rounds[j as int][1]) == sc_claim(joined, t0, rounds, claim, j)
}

/// Whether the rounds before `j` all split their claims.
pub open spec fn sc_all_split(
    joined: bool,
    t0: Seq<u8>,
    rounds: Seq<Seq<int>>,
    claim: int,
    j: nat,
) -> bool {
    forall|i: nat| i < j ==> #[trigger] sc_splits(joined, t0, rounds, claim, i)
}

/// What replaying the rounds found.
pub struct RoundReplay {
    /// The challenges.
    pub point: Vec<Fr>,
    /// The claim after the last round.
    pub claim: Fr,
}

/// Replay the rounds of a proof on the transcript: each must split the claim
/// that stands before it. On failure the index of the first round that does
/// not is returned.
pub fn replay_rounds<R: RoundPoly>(
    rounds: &Vec<R>,
    claim: Fr,
    joined: bool,
    t: &mut Transcript,
) -> (r: Result<RoundReplay, usize>)
    ensures
        match r {
            Ok(rep) => {
                let s = samples_of(rounds@);
                let t0 = state_of(*old(t));
                &&& sc_all_split(joined, t0, s, claim@, rounds@.len())
                &&& vals(rep.point@) == sc_point(joined, t0, s)
                &&& rep.claim@ == sc_claim(joined, t0, s, claim@, rounds@.len())
                &&& state_of(*final(t)) == sc_state(joined, t0, s, rounds@.len())
            },
            Err(j) => {
                let s = samples_of(rounds@);
                let t0 = state_of(*old(t));
                &&& j < rounds@.len()
                &&& sc_all_split(joined, t0, s, claim@, j as nat)
                &&& !sc_splits(joined, t0, s, claim@, j as nat)
            },
        },
{
    let ghost s = samples_of(rounds@);
    let ghost t0 = state_of(*t);
    let mut current: Fr = claim;
    let mut point: Vec<Fr> = Vec::with_capacity(rounds.len());
    let mut j: usize = 0;
    while j < rounds.len()
        invariant
            j <= rounds@.len(),
            s == samples_of(rounds@),
            t0 == state_of(*old(t)),
            point@.len() == j,
            current@ == sc_claim(joined, t0, s, claim@, j as nat),
            state_of(*t) == sc_state(joined, t0, s, j as nat),
            sc_all_split(joined, t0, s, claim@, j as nat),
            forall|i: int| 0 <= i < j ==> (#[trigger] point@[i])@ == sc_challenge(joined, t0, s, i as nat),
        decreases rounds@.len() - j,
    {
        let p: &R = &rounds[j];
        proof {
            p.lemma_samples();
        }
        let smp: Vec<Fr> = p.to_samples();
        assert(vals(smp@)[0] == smp@[0]@ && vals(smp@)[1] == smp@[1]@);
        if smp[0].add(smp[1]) != current {
            assert(!sc_splits(joined, t0, s, claim@, j as nat));
            return Err(j);
        }
        assert(sc_splits(joined, t0, s, claim@, j as nat));
        absorb_round(t, p, joined);
        let r: Fr = squeeze_one(t);
        current = p.evaluate(r);
        point.push(r);
        j += 1;
    }
    assert(vals(point@) =~= sc_point(joined, t0, s));
    Ok(RoundReplay { point, claim: current })
}

/// The verdict on the rounds from `j` on, each checked for its split and then
/// for its challenge, which must be the coordinate that the proof claims.
pub open spec fn rounds_check(
    joined: bool,
    t0: Seq<u8>,
    rounds: Seq<Seq<int>>,
    claim: int,
    point: Seq<int>,
    j: nat,
) -> Result<(), SnarkError>
    decreases rounds.len() - j,
{
    if j >= rounds.len() {
        Ok(())
    } else if !sc_splits(joined, t0, rounds, claim, j) {
        Err(SnarkError::SumcheckRoundCheckFailed { round: j as usize })
    } else if sc_challenge(joined, t0, rounds, j) != point[j as int] {
        Err(SnarkError::TranscriptMismatch)
    } else {
        rounds_check(joined, t0, rounds, claim, point, j + 1)
    }
}

/// Rounds that split their claims at the challenges of the transcript pass.
pub proof fn lemma_rounds_check(
    joined: bool,
    t0: Seq<u8>,
    rounds: Seq<Seq<int>>,
    claim: int,
    point: Seq<int>,
    j: nat,
)
    requires
        j <= rounds.len(),
        sc_all_split(joined, t0, rounds, claim, rounds.len()),
        point == sc_point(joined, t0, rounds),
    ensures
        rounds_check(joined, t0, rounds, claim, point, j) == Ok::<(), SnarkError>(()),
    decreases rounds.len() - j,
{
    if j < rounds.len() {
        assert(sc_splits(joined, t0, rounds, claim, j));
        assert(point[j as int] == sc_challenge(joined, t0, rounds, j));
        lemma_rounds_check(joined, t0, rounds, claim, point, j + 1);
    }
}

/// Replay the rounds of a proof against the point that it claims; returns the
/// claim after the last round.
pub fn replay_rounds_at<R: RoundPoly>(
    rounds: &Vec<R>,
    claim: Fr,
    point: &Vec<Fr>,
    joined: bool,
    t: &mut Transcript,
) -> (r: Result<Fr, SnarkError>)
    requires
        point@.len() == rounds@.len(),
    ensures
        ({
            let s = samples_of(rounds@);
            let t0 = state_of(*old(t));
            match rounds_check(joined, t0, s, claim@, vals(point@), 0) {
                Ok(_) => {
                    &&& r matches Ok(c)
                    &&& c@ == sc_claim(joined, t0, s, claim@, rounds@.len())
                    &&& state_of(*final(t)) == sc_state(joined, t0, s, rounds@.len())
                    &&& vals(point@) == sc_point(joined, t0, s)
                    &&& sc_all_split(joined, t0, s, claim@, rounds@.len())
                },
                Err(e) => r == Err::<Fr, SnarkError>(e),
            }
        }),
{
    let ghost s = samples_of(rounds@);
    let ghost t0 = state_of(*t);
    let ghost pv = vals(point@);
    let mut current: Fr = claim;
    let mut j: usize = 0;
    while j < rounds.len()
        invariant
            j <= rounds@.len(),
            point@.len() == rounds@.len(),
            s == samples_of(rounds@),
            pv == vals(point@),
            t0 == state_of(*old(t)),
            current@ == sc_claim(joined, t0, s, claim@, j as nat),
            state_of(*t) == sc_state(joined, t0, s, j as nat),
            sc_all_split(joined, t0, s, claim@, j as nat),
            forall|i: int| 0 <= i < j ==> #[trigger] pv[i] == sc_challenge(joined, t0, s, i as nat),
            rounds_check(joined, t0, s, claim@, pv, 0) == rounds_check(
                joined,
                t0,
                s,
                claim@,
                pv,
                j as nat,
            ),
        decreases rounds@.len() - j,
    {
        let p: &R = &rounds[j];
        proof {
            p.lemma_samples();
        }
        let smp: Vec<Fr> = p.to_samples();
        assert(vals(smp@)[0] == smp@[0]@ && vals(smp@)[1] == smp@[1]@);
        if smp[0].add(smp[1]) != current {
            return Err(SnarkError::SumcheckRoundCheckFailed { round: j });
        }
        absorb_round(t, p, joined);
        let r: Fr = squeeze_one(t);
        assert(pv[j as int] == point@[j as int]@);
        if r != point[j] {
            return Err(SnarkError::TranscriptMismatch);
        }
        assert(sc_splits(joined, t0, s, claim@, j as nat));
        current = p.evaluate(r);
        j += 1;
    }
    assert(pv =~= sc_point(joined, t0, s));
    Ok(current)
}

// ---- Identities over columns ----

/// An identity in the entries of a row of columns, of bounded degree.
pub trait CellIdentity {
    /// The number of columns.
    spec fn arity(&self) -> nat;

    /// The degree along any line of cells.
    spec fn degree(&self) -> nat;

    /// The value at a cell.
    spec fn at(&self, cell: Seq<int>) -> int;

    /// Along a line of cells the identity is a polynomial of that degree.
    proof fn lemma_line(&self, lo: Seq<int>, hi: Seq<int>) -> (c: Seq<int>)
        requires
            lo.len() == self.arity(),
            hi.len() == self.arity(),
            all_in_field(lo),
            all_in_field(hi),
        ensures
            c.len() <= self.degree() + 1,
            forall|t: int|
                in_field(t) ==> self.at(#[trigger] cell_line(lo, hi, t)) == residue(poly(c, t)),
    ;

    /// Evaluate the identity.
    fn eval(&self, cell: &Vec<Fr>) -> (r: Fr)
        requires
            cell@.len() == self.arity(),
        ensures
            r@ == self.at(vals(cell@)),
    ;
}

/// The cell at parameter `t` of the line from `lo` to `hi`.
pub open spec fn cell_line(lo: Seq<int>, hi: Seq<int>, t: int) -> Seq<int> {
    Seq::new(lo.len(), |k: int| fadd(lo[k], fmul(t, fsub(hi[k], lo[k]))))
}

/// The residues of a table of columns.
pub open spec fn vals2(cols: Seq<Vec<Fr>>) -> Seq<Seq<int>> {
    Seq::new(cols.len(), |c: int| vals(cols[c]@))
}

/// Row `i` of a table of columns.
pub open spec fn cell_at(cols: Seq<Seq<int>>, i: int) -> Seq<int> {
    Seq::new(cols.len(), |c: int| cols[c][i])
}

/// All columns with their first variable bound to `r`.
pub open spec fn fold_cols(cols: Seq<Seq<int>>, r: int) -> Seq<Seq<int>> {
    Seq::new(cols.len(), |c: int| fold(cols[c], r))
}

/// All columns with their first variables bound to `rs`.
pub open spec fn fold_cols_many(cols: Seq<Seq<int>>, rs: Seq<int>) -> Seq<Seq<int>> {
    Seq::new(cols.len(), |c: int| fold_many(cols[c], rs))
}

/// The sum of the identity over the first `n` rows.
pub open spec fn total<I: CellIdentity>(ident: &I, cols: Seq<Seq<int>>, n: nat) -> int
    decreases n,
{
    if n == 0 {
        0
    } else {
        fadd(total(ident, cols, (n - 1) as nat), ident.at(cell_at(cols, n - 1)))
    }
}

/// The samples of the round polynomial: at `t`, the sum of the identity over
/// the columns folded at `t`.
pub open spec fn round_samples<I: CellIdentity>(
    ident: &I,
    cols: Seq<Seq<int>>,
    half: nat,
    degree: nat,
) -> Seq<int> {
    Seq::new(degree + 1, |t: int| total(ident, fold_cols(cols, t), half))
}

/// Whether a table has the given number of columns, each of the given length,
/// with residues as entries.
pub open spec fn table_shape(cols: Seq<Seq<int>>, arity: nat, len: nat) -> bool {
    &&& cols.len() == arity
    &&& forall|c: int| 0 <= c < arity ==> (#[trigger] cols[c]).len() == len
    &&& forall|c: int| 0 <= c < arity ==> all_in_field(#[trigger] cols[c])
}

pub proof fn lemma_fadd_assoc(a: int, b: int, c: int)
    ensures
        fadd(fadd(a, b), c) == fadd(a, fadd(b, c)),
{
    reveal(fadd);
    let m = modulus();
    lemma_add_mod_noop(a + b, c, m);
    lemma_add_mod_noop((a + b) % m, c, m);
    lemma_mod_twice(a + b, m);
    lemma_add_mod_noop(a, b + c, m);
    lemma_add_mod_noop(a, (b + c) % m, m);
    lemma_mod_twice(b + c, m);
}

/// A point of a line of residues, as the residue of an integer.
pub proof fn lemma_line_residue(a: int, b: int, t: int)
    requires
        in_field(a),
        in_field(b),
        in_field(t),
    ensures
        fadd(a, fmul(t, fsub(b, a))) == residue(a + t * (b - a)),
{
    lemma_residue_id(a);
    lemma_residue_id(b);
    lemma_residue_id(t);
    lemma_residue_sub(b, a);
    lemma_residue_mul(t, b - a);
    lemma_residue_add(a, t * (b - a));
}

/// Folding keeps the shape and halves the length.
pub proof fn lemma_fold_cols_shape(cols: Seq<Seq<int>>, arity: nat, half: nat, r: int)
    requires
        table_shape(cols, arity, 2 * half),
    ensures
        table_shape(fold_cols(cols, r), arity, half),
{
    broadcast use group_in_field;

    let f = fold_cols(cols, r);
    assert forall|c: int| 0 <= c < arity implies (#[trigger] f[c]).len() == half && all_in_field(f[c]) by {
        assert(cols[c].len() == 2 * half);
    }
}

/// The row of a folded table is a point of the line between two rows.
proof fn lemma_folded_row(cols: Seq<Seq<int>>, arity: nat, half: nat, r: int, i: int)
    requires
        table_shape(cols, arity, 2 * half),
        0 <= i < half,
    ensures
        cell_at(fold_cols(cols, r), i) == cell_line(cell_at(cols, i), cell_at(cols, half + i), r),
        cell_at(cols, i).len() == arity,
        cell_at(cols, half + i).len() == arity,
        all_in_field(cell_at(cols, i)),
        all_in_field(cell_at(cols, half + i)),
{
    let lo = cell_at(cols, i);
    let hi = cell_at(cols, half + i);
    assert forall|c: int| 0 <= c < arity implies in_field(#[trigger] lo[c]) by {
        assert(in_field(cols[c][i]));
    }
    assert forall|c: int| 0 <= c < arity implies in_field(#[trigger] hi[c]) by {
        assert(in_field(cols[c][half + i]));
    }
    assert forall|c: int| 0 <= c < arity implies cell_at(fold_cols(cols, r), i)[c]
        == #[trigger] cell_line(lo, hi, r)[c] by {
        assert(cols[c].len() == 2 * half);
        assert((2 * half) / 2 == half);
    }
    assert(cell_at(fold_cols(cols, r), i) =~= cell_line(lo, hi, r));
}

/// The round polynomial is a polynomial of the identity's degree.
proof fn lemma_total_line<I: CellIdentity>(
    ident: &I,
    cols: Seq<Seq<int>>,
    half: nat,
    n: nat,
) -> (c: Seq<int>)
    requires
        table_shape(cols, ident.arity(), 2 * half),
        n <= half,
    ensures
        c.len() <= ident.degree() + 1,
        forall|t: int|
            in_field(t) ==> #[trigger] total(ident, fold_cols(cols, t), n) == residue(poly(c, t)),
    decreases n,
{
    if n == 0 {
        lemma_residue_id(0);
        assert forall|t: int| in_field(t) implies #[trigger] total(ident, fold_cols(cols, t), n)
            == residue(poly(Seq::<int>::empty(), t)) by {}
        Seq::empty()
    } else {
        let c0 = lemma_total_line(ident, cols, half, (n - 1) as nat);
        lemma_folded_row(cols, ident.arity(), half, 0, n - 1);
        let lo = cell_at(cols, n - 1);
        let hi = cell_at(cols, half + n - 1);
        let c1 = ident.lemma_line(lo, hi);
        let c = poly_add(c0, c1);
        assert forall|t: int| in_field(t) implies #[trigger] total(ident, fold_cols(cols, t), n)
            == residue(poly(c, t)) by {
            lemma_folded_row(cols, ident.arity(), half, t, n - 1);
            lemma_poly_add(c0, c1, t);
            assert(total(ident, fold_cols(cols, t), (n - 1) as nat) == residue(poly(c0, t)));
            assert(ident.at(cell_line(lo, hi, t)) == residue(poly(c1, t)));
            lemma_residue_add(poly(c0, t), poly(c1, t));
        }
        c
    }
}

/// Folding at `0` keeps the lower half and folding at `1` the upper half.
proof fn lemma_fold_ends(cols: Seq<Seq<int>>, arity: nat, half: nat, i: int)
    requires
        table_shape(cols, arity, 2 * half),
        0 <= i < half,
    ensures
        cell_at(fold_cols(cols, 0), i) == cell_at(cols, i),
        cell_at(fold_cols(cols, 1), i) == cell_at(cols, half + i),
{
    broadcast use group_in_field;

    lemma_folded_row(cols, arity, half, 0, i);
    lemma_folded_row(cols, arity, half, 1, i);
    let lo = cell_at(cols, i);
    let hi = cell_at(cols, half + i);
    assert forall|c: int| 0 <= c < arity implies cell_line(lo, hi, 0)[c] == #[trigger] lo[c] by {
        assert(in_field(lo[c]) && in_field(hi[c]));
        lemma_line_residue(lo[c], hi[c], 0);
        lemma_residue_id(lo[c]);
    }
    assert(cell_line(lo, hi, 0) =~= lo);
    assert forall|c: int| 0 <= c < arity implies cell_line(lo, hi, 1)[c] == #[trigger] hi[c] by {
        assert(in_field(lo[c]) && in_field(hi[c]));
        lemma_line_residue(lo[c], hi[c], 1);
        lemma_residue_id(hi[c]);
    }
    assert(cell_line(lo, hi, 1) =~= hi);
}

proof fn lemma_total_lower<I: CellIdentity>(ident: &I, cols: Seq<Seq<int>>, half: nat, n: nat)
    requires
        table_shape(cols, ident.arity(), 2 * half),
        n <= half,
    ensures
        total(ident, fold_cols(cols, 0), n) == total(ident, cols, n),
    decreases n,
{
    if n > 0 {
        lemma_total_lower(ident, cols, half, (n - 1) as nat);
        lemma_fold_ends(cols, ident.arity(), half, n - 1);
    }
}

proof fn lemma_total_upper<I: CellIdentity>(ident: &I, cols: Seq<Seq<int>>, half: nat, n: nat)
    requires
        table_shape(cols, ident.arity(), 2 * half),
        n <= half,
    ensures
        fadd(total(ident, cols, half), total(ident, fold_cols(cols, 1), n)) == total(
            ident,
            cols,
            half + n,
        ),
    decreases n,
{
    broadcast use group_in_field;

    if n > 0 {
        lemma_total_upper(ident, cols, half, (n - 1) as nat);
        lemma_fold_ends(cols, ident.arity(), half, n - 1);
        lemma_fadd_assoc(
            total(ident, cols, half),
            total(ident, fold_cols(cols, 1), (n - 1) as nat),
            ident.at(cell_at(cols, half + n - 1)),
        );
        assert((half + n - 1) as nat == half + (n - 1) as nat);
    } else {
        if half > 0 {
            lemma_fadd_zero(total(ident, cols, half));
        } else {
            lemma_fadd_zero(0);
        }
    }
}

/// The round polynomial splits the sum: its values at `0` and `1` add up to it.
pub proof fn lemma_round_splits<I: CellIdentity>(ident: &I, cols: Seq<Seq<int>>, half: nat)
    requires
        table_shape(cols, ident.arity(), 2 * half),
    ensures
        fadd(total(ident, fold_cols(cols, 0), half), total(ident, fold_cols(cols, 1), half))
            == total(ident, cols, 2 * half),
{
    lemma_total_lower(ident, cols, half, half);
    lemma_total_upper(ident, cols, half, half);
    assert(half + half == 2 * half);
}

/// The round polynomial carries the sum over: its value at `r`, interpolated
/// from its samples, is the sum over the columns folded at `r`.
pub proof fn lemma_round_carries<I: CellIdentity>(
    ident: &I,
    cols: Seq<Seq<int>>,
    half: nat,
    degree: nat,
    r: int,
)
    requires
        table_shape(cols, ident.arity(), 2 * half),
        ident.degree() <= degree,
        2 <= degree <= 4,
        in_field(r),
    ensures
        interpolate(round_samples(ident, cols, half, degree), r) == total(
            ident,
            fold_cols(cols, r),
            half,
        ),
{
    let c = lemma_total_line(ident, cols, half, half);
    let s = round_samples(ident, cols, half, degree);
    assert forall|i: int| 0 <= i < s.len() implies #[trigger] s[i] == residue(poly(c, i)) by {
        assert(in_field(i));
    }
    lemma_interpolate_exact(c, r, s);
}

/// A prover's run of the rounds.
pub struct SumcheckRun<R> {
    /// The round polynomials.
    pub rounds: Vec<R>,
    /// The challenges.
    pub point: Vec<Fr>,
    /// The columns at the point.
    pub finals: Vec<Fr>,
    /// The claim after the last round.
    pub claim: Fr,
}

/// Whether a run is the one that the columns and the transcript determine.
pub open spec fn honest_run<I: CellIdentity, R: RoundPoly>(
    ident: &I,
    cols: Seq<Seq<int>>,
    n_vars: nat,
    claim: int,
    joined: bool,
    t0: Seq<u8>,
    run: SumcheckRun<R>,
) -> bool {
    let s = samples_of(run.rounds@);
    let point = vals(run.point@);
    &&& run.rounds@.len() == n_vars
    &&& point == sc_point(joined, t0, s)
    &&& forall|j: int|
        0 <= j < n_vars ==> #[trigger] s[j] == round_samples(
            ident,
            fold_cols_many(cols, point.take(j)),
            pow2((n_vars - 1 - j) as nat),
            R::degree(),
        )
    &&& run.finals@.len() == cols.len()
    &&& forall|c: int| 0 <= c < cols.len() ==> (#[trigger] run.finals@[c])@ == mle(cols[c], point)
    &&& run.claim@ == sc_claim(joined, t0, s, claim, n_vars)
}

/// A column with its first variable bound to `r`.
pub fn fold_column(col: &Vec<Fr>, r: Fr) -> (out: Vec<Fr>)
    ensures
        vals(out@) == fold(vals(col@), r@),
{
    let half: usize = col.len() / 2;
    let mut out: Vec<Fr> = Vec::with_capacity(half);
    let mut i: usize = 0;
    while i < half
        invariant
            i <= half,
            half == col@.len() / 2,
            half + half <= usize::MAX,
            out@.len() == i,
            forall|k: int| 0 <= k < i ==> (#[trigger] out@[k])@ == fold(vals(col@), r@)[k],
        decreases half - i,
    {
        let lo: Fr = col[i];
        let hi: Fr = col[half + i];
        out.push(lo.add(r.mul(hi.sub(lo))));
        i += 1;
    }
    assert(vals(out@) =~= fold(vals(col@), r@));
    out
}

/// All columns with their first variable bound to `r`.
fn fold_columns(cols: &Vec<Vec<Fr>>, r: Fr) -> (out: Vec<Vec<Fr>>)
    ensures
        vals2(out@) == fold_cols(vals2(cols@), r@),
{
    let mut out: Vec<Vec<Fr>> = Vec::with_capacity(cols.len());
    let mut c: usize = 0;
    while c < cols.len()
        invariant
            c <= cols@.len(),
            out@.len() == c,
            forall|k: int| 0 <= k < c ==> vals((#[trigger] out@[k])@) == fold(vals(cols@[k]@), r@),
        decreases cols@.len() - c,
    {
        out.push(fold_column(&cols[c], r));
        c += 1;
    }
    assert(vals2(out@) =~= fold_cols(vals2(cols@), r@));
    out
}

/// The next point of a line of residues is one step further.
proof fn lemma_line_step(a: int, b: int, t: int)
    requires
        in_field(a),
        in_field(b),
        in_field(t),
        in_field(t + 1),
    ensures
        fadd(fadd(a, fmul(t, fsub(b, a))), fsub(b, a)) == fadd(a, fmul(t + 1, fsub(b, a))),
{
    lemma_line_residue(a, b, t);
    lemma_line_residue(a, b, t + 1);
    lemma_residue_id(a);
    lemma_residue_id(b);
    lemma_residue_sub(b, a);
    lemma_residue_add(a + t * (b - a), b - a);
    assert(a + t * (b - a) + (b - a) == a + (t + 1) * (b - a)) by (nonlinear_arith);
}

/// A line of residues starts where it starts.
proof fn lemma_line_start(a: int, b: int)
    requires
        in_field(a),
        in_field(b),
    ensures
        fadd(a, fmul(0, fsub(b, a))) == a,
{
    lemma_line_residue(a, b, 0);
    assert(0 * (b - a) == 0);
    lemma_residue_id(a);
}

/// The small numbers are residues.
proof fn lemma_small_in_field(x: int)
    requires
        0 <= x <= 8,
    ensures
        in_field(x),
{
}

/// The samples of the round polynomial at `0`, ..., `deg`. Every row is walked
/// along its line, a step at a time.
fn round_sums<I: CellIdentity>(ident: &I, cols: &Vec<Vec<Fr>>, half: usize, deg: usize) -> (r: Vec<
    Fr,
>)
    requires
        cols@.len() == ident.arity(),
        table_shape(vals2(cols@), ident.arity(), 2 * half as nat),
        2 * half <= usize::MAX,
        deg <= 4,
    ensures
        r@.len() == deg + 1,
        forall|x: int|
            0 <= x <= deg ==> (#[trigger] r@[x])@ == total(
                ident,
                fold_cols(vals2(cols@), x),
                half as nat,
            ),
{
    let ghost cv = vals2(cols@);
    let ghost arity = ident.arity();
    let zero: Fr = Fr::from_u64(0);
    let mut sums: Vec<Fr> = vec![zero; deg + 1];
    let mut cell: Vec<Fr> = vec![zero; cols.len()];
    let mut step: Vec<Fr> = vec![zero; cols.len()];
    let mut i: usize = 0;
    while i < half
        invariant
            i <= half,
            2 * half <= usize::MAX,
            deg <= 4,
            cv == vals2(cols@),
            arity == ident.arity(),
            cols@.len() == arity,
            table_shape(cv, arity, 2 * half as nat),
            sums@.len() == deg + 1,
            cell@.len() == arity,
            step@.len() == arity,
            forall|x: int|
                0 <= x <= deg ==> (#[trigger] sums@[x])@ == total(
                    ident,
                    fold_cols(cv, x),
                    i as nat,
                ),
        decreases half - i,
    {
        let mut c: usize = 0;
        while c < cols.len()
            invariant
                c <= cols@.len(),
                i < half,
                2 * half <= usize::MAX,
                cv == vals2(cols@),
                cols@.len() == arity,
                table_shape(cv, arity, 2 * half as nat),
                cell@.len() == arity,
                step@.len() == arity,
                forall|k: int| 0 <= k < c ==> (#[trigger] cell@[k])@ == cv[k][i as int],
                forall|k: int|
                    0 <= k < c ==> (#[trigger] step@[k])@ == fsub(
                        cv[k][half + i],
                        cv[k][i as int],
                    ),
            decreases cols@.len() - c,
        {
            assert(cv[c as int].len() == cols@[c as int]@.len());
            let lo: Fr = cols[c][i];
            let hi: Fr = cols[c][half + i];
            assert(cv[c as int][i as int] == lo@ && cv[c as int][half + i] == hi@);
            cell.set(c, lo);
            step.set(c, hi.sub(lo));
            c += 1;
        }
        proof {
            assert forall|k: int| 0 <= k < arity implies (#[trigger] cell@[k])@ == fold_cols(cv, 0)[k][i as int] by {
                assert(cv[k].len() == 2 * half);
                assert(in_field(cv[k][i as int]) && in_field(cv[k][half + i]));
                lemma_line_start(cv[k][i as int], cv[k][half + i]);
            }
        }
        let mut x: usize = 0;
        while x <= deg
            invariant
                x <= deg + 1,
                deg <= 4,
                i < half,
                cv == vals2(cols@),
                arity == ident.arity(),
                cols@.len() == arity,
                table_shape(cv, arity, 2 * half as nat),
                sums@.len() == deg + 1,
                cell@.len() == arity,
                step@.len() == arity,
                forall|k: int|
                    0 <= k < arity ==> (#[trigger] step@[k])@ == fsub(
                        cv[k][half + i],
                        cv[k][i as int],
                    ),
                forall|k: int|
                    0 <= k < arity ==> (#[trigger] cell@[k])@ == fold_cols(cv, x as int)[k][i as int],
                forall|y: int|
                    0 <= y < x ==> (#[trigger] sums@[y])@ == total(
                        ident,
                        fold_cols(cv, y),
                        (i + 1) as nat,
                    ),
                forall|y: int|
                    x <= y <= deg ==> (#[trigger] sums@[y])@ == total(
                        ident,
                        fold_cols(cv, y),
                        i as nat,
                    ),
            decreases deg + 1 - x,
        {
            assert(vals(cell@) =~= cell_at(fold_cols(cv, x as int), i as int));
            let value: Fr = ident.eval(&cell);
            let sum: Fr = sums[x].add(value);
            sums.set(x, sum);
            let mut k: usize = 0;
            while k < cell.len()
                invariant
                    k <= arity,
                    x <= deg <= 4,
                    i < half,
                    table_shape(cv, arity, 2 * half as nat),
                    cell@.len() == arity,
                    step@.len() == arity,
                    forall|j: int|
                        0 <= j < arity ==> (#[trigger] step@[j])@ == fsub(
                            cv[j][half + i],
                            cv[j][i as int],
                        ),
                    forall|j: int|
                        k <= j < arity ==> (#[trigger] cell@[j])@ == fold_cols(cv, x as int)[j][i as int],
                    forall|j: int|
                        0 <= j < k ==> (#[trigger] cell@[j])@ == fold_cols(cv, x + 1)[j][i as int],
                decreases arity - k,
            {
                proof {
                    lemma_small_in_field(x as int);
                    lemma_small_in_field(x + 1);
                    assert(cv[k as int].len() == 2 * half);
                    assert(in_field(cv[k as int][i as int]) && in_field(cv[k as int][half + i]));
                    lemma_line_step(cv[k as int][i as int], cv[k as int][half + i], x as int);
                }
                let next: Fr = cell[k].add(step[k]);
                cell.set(k, next);
                k += 1;
            }
            x += 1;
        }
        i += 1;
    }
    sums
}

/// An identity that vanishes at every row sums to zero.
pub proof fn lemma_total_zero<I: CellIdentity>(ident: &I, cols: Seq<Seq<int>>, n: nat)
    requires
        forall|i: int| 0 <= i < n ==> ident.at(#[trigger] cell_at(cols, i)) == 0,
    ensures
        total(ident, cols, n) == 0,
    decreases n,
{
    if n > 0 {
        lemma_total_zero(ident, cols, (n - 1) as nat);
        assert(ident.at(cell_at(cols, n - 1)) == 0);
        lemma_fadd_zero(0);
    }
}

/// Field elements view to residues, column by column.
pub proof fn lemma_vals2_shape(cols: Seq<Vec<Fr>>, arity: nat, len: nat)
    requires
        cols.len() == arity,
        forall|c: int| 0 <= c < arity ==> (#[trigger] cols[c])@.len() == len,
    ensures
        table_shape(vals2(cols), arity, len),
{
    broadcast use lemma_view_in_field;

}

/// Run the rounds of the sumcheck as prover. With `check` set the prover stops
/// at a round that does not split its claim and returns its index; an honest
/// claim about an identity of no higher degree than the rounds' never stops.
pub fn prove_rounds<I: CellIdentity, R: RoundPoly>(
    ident: &I,
    cols: Vec<Vec<Fr>>,
    n_vars: usize,
    claim: Fr,
    joined: bool,
    check: bool,
    t: &mut Transcript,
) -> (r: Result<SumcheckRun<R>, usize>)
    requires
        cols@.len() == ident.arity(),
        cols@.len() > 0,
        forall|c: int| 0 <= c < cols@.len() ==> (#[trigger] cols@[c])@.len() == pow2(n_vars as nat),
    ensures
        !check ==> r is Ok,
        ident.degree() <= R::degree() && claim@ == total(ident, vals2(cols@), pow2(n_vars as nat))
            ==> r is Ok,
        check && n_vars >= 1 && claim@ != total(ident, vals2(cols@), pow2(n_vars as nat))
            ==> r is Err,
        match r {
            Ok(run) => {
                let s = samples_of(run.rounds@);
                let t0 = state_of(*old(t));
                &&& honest_run(ident, vals2(cols@), n_vars as nat, claim@, joined, t0, run)
                &&& state_of(*final(t)) == sc_state(joined, t0, s, n_vars as nat)
                &&& check ==> sc_all_split(joined, t0, s, claim@, n_vars as nat)
                &&& (ident.degree() <= R::degree() && claim@ == total(
                    ident,
                    vals2(cols@),
                    pow2(n_vars as nat),
                )) ==> {
                    &&& sc_all_split(joined, t0, s, claim@, n_vars as nat)
                    &&& run.claim@ == fadd(0, ident.at(vals(run.finals@)))
                }
            },
            Err(j) => j < n_vars,
        },
{
    let ghost cols0 = vals2(cols@);
    let ghost t0 = state_of(*t);
    let ghost arity = ident.arity();
    let ghost honest = ident.degree() <= R::degree() && claim@ == total(
        ident,
        cols0,
        pow2(n_vars as nat),
    );
    let deg: usize = R::degree_bound();
    let mut tab: Vec<Vec<Fr>> = cols;
    let mut rounds: Vec<R> = Vec::with_capacity(n_vars);
    let mut point: Vec<Fr> = Vec::with_capacity(n_vars);
    let mut current: Fr = claim;
    let mut j: usize = 0;
    proof {
        lemma_vals2_shape(tab@, arity, pow2(n_vars as nat));
        assert(vals(point@) =~= Seq::<int>::empty());
        assert(fold_cols_many(cols0, vals(point@)) =~= cols0) by {
            assert forall|c: int| 0 <= c < cols0.len() implies #[trigger] fold_cols_many(cols0, vals(point@))[c]
                == cols0[c] by {}
        }
    }
    while j < n_vars
        invariant
            j <= n_vars,
            arity == ident.arity(),
            arity > 0,
            cols0 == vals2(cols@),
            deg == R::degree(),
            2 <= deg <= 4,
            honest == (ident.degree() <= R::degree() && claim@ == total(
                ident,
                cols0,
                pow2(n_vars as nat),
            )),
            rounds@.len() == j,
            point@.len() == j,
            table_shape(cols0, arity, pow2(n_vars as nat)),
            vals2(tab@) == fold_cols_many(cols0, vals(point@)),
            table_shape(vals2(tab@), arity, pow2((n_vars - j) as nat)),
            state_of(*t) == sc_state(joined, t0, samples_of(rounds@), j as nat),
            vals(point@) == sc_point(joined, t0, samples_of(rounds@)),
            current@ == sc_claim(joined, t0, samples_of(rounds@), claim@, j as nat),
            check || honest ==> sc_all_split(joined, t0, samples_of(rounds@), claim@, j as nat),
            honest ==> current@ == total(ident, vals2(tab@), pow2((n_vars - j) as nat)),
            check && j >= 1 ==> claim@ == total(ident, cols0, pow2(n_vars as nat)),
            forall|k: int|
                0 <= k < j ==> #[trigger] samples_of(rounds@)[k] == round_samples(
                    ident,
                    fold_cols_many(cols0, vals(point@).take(k)),
                    pow2((n_vars - 1 - k) as nat),
                    R::degree(),
                ),
        decreases n_vars - j,
    {
        let ghost tv = vals2(tab@);
        let ghost half_n = pow2((n_vars - 1 - j) as nat);
        let ghost rs0 = samples_of(rounds@);
        let ghost pt0 = vals(point@);
        proof {
            lemma_pow2_unfold((n_vars - j) as nat);
        }
        assert(tab@.len() == arity) by {
            assert(vals2(tab@).len() == tab@.len());
        }
        let half: usize = {
            assert(vals2(tab@)[0].len() == tab@[0]@.len());
            tab[0].len() / 2
        };
        let smp: Vec<Fr> = round_sums(ident, &tab, half, deg);
        let poly: R = R::from_samples(&smp);
        let ghost ps = poly.samples();
        assert(ps =~= round_samples(ident, tv, half_n, R::degree()));
        assert(ps[0] == smp@[0]@ && ps[1] == smp@[1]@);
        proof {
            lemma_round_splits(ident, tv, half_n);
        }
        proof {
            if j == 0 {
                assert(tv =~= cols0) by {
                    assert forall|c: int| 0 <= c < cols0.len() implies #[trigger] tv[c]
                        == cols0[c] by {
                        assert(tv[c] == fold_many(cols0[c], vals(point@)));
                    }
                }
            }
        }
        if check && smp[0].add(smp[1]) != current {
            return Err(j);
        }
        absorb_round(t, &poly, joined);
        let r: Fr = squeeze_one(t);
        current = poly.evaluate(r);
        tab = fold_columns(&tab, r);
        rounds.push(poly);
        point.push(r);
        proof {
            broadcast use lemma_view_in_field;

            let rs1 = samples_of(rounds@);
            let pt1 = vals(point@);
            lemma_sc_prefix(joined, t0, rs0, rs1, claim@, j as nat);
            assert(pt1.drop_last() =~= pt0);
            assert(pt1 =~= sc_point(joined, t0, rs1)) by {
                assert forall|k: int| 0 <= k < pt1.len() implies #[trigger] pt1[k] == sc_point(
                    joined,
                    t0,
                    rs1,
                )[k] by {
                    if k < j {
                        assert(pt1[k] == pt0[k]);
                        lemma_sc_prefix(joined, t0, rs0, rs1, claim@, k as nat);
                        assert(rs0[k] == rs1[k]);
                    }
                }
            }
            assert(vals2(tab@) =~= fold_cols_many(cols0, pt1)) by {
                assert forall|c: int| 0 <= c < cols0.len() implies #[trigger] vals2(tab@)[c]
                    == fold_cols_many(cols0, pt1)[c] by {
                    assert(tv[c] == fold_many(cols0[c], pt0));
                }
            }
            lemma_fold_cols_shape(tv, arity, half_n, r@);
            if honest {
                lemma_round_carries(ident, tv, half_n, R::degree(), r@);
            }
            if check || honest {
                assert forall|i: nat| i < j + 1 implies #[trigger] sc_splits(joined, t0, rs1, claim@, i) by {
                    if i < j {
                        assert(sc_splits(joined, t0, rs0, claim@, i));
                        lemma_sc_prefix(joined, t0, rs0, rs1, claim@, i);
                    }
                }
            }
            assert forall|k: int| 0 <= k < j + 1 implies #[trigger] rs1[k] == round_samples(
                ident,
                fold_cols_many(cols0, pt1.take(k)),
                pow2((n_vars - 1 - k) as nat),
                R::degree(),
            ) by {
                if k < j {
                    assert(rs1[k] == rs0[k]);
                    assert(pt1.take(k) =~= pt0.take(k));
                } else {
                    assert(pt1.take(k) =~= pt0);
                }
            }
        }
        j += 1;
    }
    let mut finals: Vec<Fr> = Vec::with_capacity(tab.len());
    let mut c: usize = 0;
    proof {
        vstd::arithmetic::power2::lemma2_to64();
        assert(vals2(tab@).len() == tab@.len());
    }
    while c < tab.len()
        invariant
            c <= tab@.len(),
            finals@.len() == c,
            tab@.len() == arity,
            table_shape(vals2(tab@), arity, 1),
            vals2(tab@) == fold_cols_many(cols0, vals(point@)),
            cols0.len() == arity,
            forall|k: int| 0 <= k < c ==> (#[trigger] finals@[k])@ == mle(cols0[k], vals(point@)),
            forall|k: int| 0 <= k < c ==> (#[trigger] finals@[k])@ == vals2(tab@)[k][0],
        decreases tab@.len() - c,
    {
        assert(vals2(tab@)[c as int].len() == 1);
        assert(vals2(tab@)[c as int] == fold_many(cols0[c as int], vals(point@)));
        finals.push(tab[c][0]);
        c += 1;
    }
    proof {
        if honest {
            assert(vals(finals@) =~= cell_at(vals2(tab@), 0));
            reveal_with_fuel(total, 2);
        }
    }
    Ok(SumcheckRun { rounds, point, finals, claim: current })
}

/// What the first rounds determine does not depend on the later ones.
pub proof fn lemma_sc_prefix(
    joined: bool,
    t0: Seq<u8>,
    a: Seq<Seq<int>>,
    b: Seq<Seq<int>>,
    claim: int,
    j: nat,
)
    requires
        j <= a.len() <= b.len(),
        forall|i: int| 0 <= i < a.len() ==> a[i] == b[i],
    ensures
        sc_state(joined, t0, a, j) == sc_state(joined, t0, b, j),
        sc_claim(joined, t0, a, claim, j) == sc_claim(joined, t0, b, claim, j),
        j < a.len() ==> sc_challenge(joined, t0, a, j) == sc_challenge(joined, t0, b, j),
    decreases j,
{
    if j > 0 {
        lemma_sc_prefix(joined, t0, a, b, claim, (j - 1) as nat);
    }
}

} // verus!
