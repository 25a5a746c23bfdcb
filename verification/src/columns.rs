//! Columns of codes and field elements: padding, lifting, counting.

use crate::errors::SnarkError;
use crate::field::{
    Fr, all_in_field, fadd, fmul, fneg, fr_to_signed_i128, fsub, in_field, modulus, residue,
    signed_lift_to_fr, signed_of, vals,
};
use crate::logup::shifted;
use crate::mle::{copied, lemma_pow2_split, mle};
use crate::mle_laws::{
    combined, constant, law_mle_constant, law_mle_linear, law_mle_padded, lemma_mle_in_field,
};
use crate::pcs::{
    CommittedAux, MlPcs, abs_com, absorb_commitment, aux_of, commit_table, mle_padded, zeros,
};
use crate::ring::{group_in_field, group_residue, lemma_residue_id};
use crate::transcript::state_of;
use ark_crypto_primitives::sponge::merlin::Transcript;
use vstd::arithmetic::power2::pow2;
use vstd::prelude::*;

verus! {

/// The number of the first `n` codes that equal `k`.
pub open spec fn count_of(codes: Seq<i128>, k: int, n: nat) -> nat
    decreases n,
{
    if n == 0 {
        0
    } else {
        count_of(codes, k, (n - 1) as nat) + if codes[n - 1] == k {
            1nat
        } else {
            0nat
        }
    }
}

/// The counts of the codes `0, 1, .., len-1`, as residues.
pub open spec fn multiplicities(codes: Seq<i128>, len: nat) -> Seq<int> {
    Seq::new(len, |k: int| count_of(codes, k, codes.len()) as int)
}

/// A count is at most the number of codes.
pub proof fn lemma_count_bound(codes: Seq<i128>, k: int, n: nat)
    ensures
        count_of(codes, k, n) <= n,
    decreases n,
{
    if n > 0 {
        lemma_count_bound(codes, k, (n - 1) as nat);
    }
}

/// Count how often each of `0, 1, .., len-1` occurs among the codes; other
/// codes are passed over.
pub fn count_codes(codes: &[i128], len: usize) -> (r: Vec<Fr>)
    ensures
        vals(r@) == multiplicities(codes@, len as nat),
{
    let mut counts: Vec<u64> = vec![0u64; len];
    let mut i: usize = 0;
    while i < codes.len()
        invariant
            i <= codes@.len(),
            counts@.len() == len,
            forall|k: int| 0 <= k < len ==> #[trigger] counts@[k] == count_of(codes@, k, i as nat),
        decreases codes@.len() - i,
    {
        let c: i128 = codes[i];
        if c >= 0 && c < len as i128 {
            let k: usize = c as usize;
            proof {
                lemma_count_bound(codes@, k as int, i as nat);
            }
            let old_count: u64 = counts[k];
            counts.set(k, old_count + 1);
        }
        i += 1;
    }
    let mut out: Vec<Fr> = Vec::with_capacity(len);
    let mut k: usize = 0;
    while k < len
        invariant
            k <= len,
            counts@.len() == len,
            out@.len() == k,
            forall|j: int| 0 <= j < len ==> #[trigger] counts@[j] == count_of(codes@, j, codes@.len()),
            forall|j: int| 0 <= j < k ==> (#[trigger] out@[j])@ == counts@[j],
        decreases len - k,
    {
        out.push(Fr::from_u64(counts[k]));
        k += 1;
    }
    assert(vals(out@) =~= multiplicities(codes@, len as nat));
    out
}

/// A column padded with zeros to a length.
pub open spec fn zero_padded(t: Seq<int>, len: nat) -> Seq<int> {
    t + zeros((len - t.len()) as nat)
}

/// Pad a column with zeros to a length.
pub fn pad_zeros(t: &[Fr], len: usize) -> (r: Vec<Fr>)
    requires
        t@.len() <= len,
    ensures
        vals(r@) == zero_padded(vals(t@), len as nat),
        r@.len() == len,
{
    let zero: Fr = Fr::from_u64(0);
    let mut out: Vec<Fr> = copied(t);
    while out.len() < len
        invariant
            t@.len() <= out@.len() <= len,
            zero@ == 0,
            forall|k: int| 0 <= k < out@.len() ==> (#[trigger] out@[k])@ == zero_padded(vals(t@), len as nat)[k],
        decreases len - out@.len(),
    {
        out.push(zero);
    }
    assert(vals(out@) =~= zero_padded(vals(t@), len as nat));
    out
}

/// The residues of a column of codes.
pub open spec fn lifted_codes(codes: Seq<i128>) -> Seq<int> {
    Seq::new(codes.len(), |i: int| residue(codes[i] as int))
}

/// Lift a column of codes to the field.
pub fn lift(codes: &[i128]) -> (r: Vec<Fr>)
    ensures
        vals(r@) == lifted_codes(codes@),
        r@.len() == codes@.len(),
{
    let mut out: Vec<Fr> = Vec::with_capacity(codes.len());
    let mut i: usize = 0;
    while i < codes.len()
        invariant
            i <= codes@.len(),
            out@.len() == i,
            forall|k: int| 0 <= k < i ==> (#[trigger] out@[k])@ == residue(codes@[k] as int),
        decreases codes@.len() - i,
    {
        out.push(signed_lift_to_fr(codes[i]));
        i += 1;
    }
    assert(vals(out@) =~= lifted_codes(codes@));
    out
}

/// Whether every code lies in `[0, bound)`.
pub open spec fn all_below(codes: Seq<i128>, bound: int) -> bool {
    forall|i: int| 0 <= i < codes.len() ==> 0 <= #[trigger] codes[i] < bound
}

/// Whether every code lies in `[0, bound)`.
pub fn codes_below(codes: &[i128], bound: i128) -> (r: bool)
    ensures
        r == all_below(codes@, bound as int),
{
    let mut i: usize = 0;
    while i < codes.len()
        invariant
            i <= codes@.len(),
            forall|k: int| 0 <= k < i ==> 0 <= #[trigger] codes@[k] < bound,
        decreases codes@.len() - i,
    {
        if codes[i] < 0 || codes[i] >= bound {
            assert(!(0 <= codes@[i as int] < bound));
            return false;
        }
        i += 1;
    }
    true
}

/// `n` rounded up to the next even number of at least two.
pub open spec fn even_vars(n: nat) -> nat {
    if n % 2 == 1 {
        n + 1
    } else if n < 2 {
        2
    } else {
        n
    }
}

/// `n` rounded up to the next even number of at least two.
pub fn round_up_even(n: usize) -> (r: usize)
    requires
        n < usize::MAX,
    ensures
        r == even_vars(n as nat),
{
    if n % 2 == 1 {
        n + 1
    } else if n < 2 {
        2
    } else {
        n
    }
}

/// `2^n` as an `i128`.
pub fn pow2_i128(n: usize) -> (r: i128)
    requires
        n < 127,
    ensures
        r == pow2(n as nat),
{
    let mut r: i128 = 1;
    let mut k: usize = 0;
    proof {
        vstd::arithmetic::power2::lemma2_to64();
        lemma_pow2_126();
    }
    while k < n
        invariant
            k <= n < 127,
            r == pow2(k as nat),
            pow2(126) == 0x4000_0000_0000_0000_0000_0000_0000_0000int,
        decreases n - k,
    {
        proof {
            vstd::arithmetic::power2::lemma_pow2_unfold((k + 1) as nat);
            if k + 1 < 126 {
                vstd::arithmetic::power2::lemma_pow2_strictly_increases((k + 1) as nat, 126);
            }
        }
        r = 2 * r;
        k += 1;
    }
    r
}

/// `2^126`.
pub proof fn lemma_pow2_126()
    ensures
        pow2(126) == 0x4000_0000_0000_0000_0000_0000_0000_0000int,
        pow2(60) == 0x1000_0000_0000_0000,
{
    vstd::arithmetic::power2::lemma2_to64();
    vstd::arithmetic::power2::lemma2_to64_rest();
    vstd::arithmetic::power2::lemma_pow2_adds(63, 63);
}

/// The extension of a shifted column is the shifted extension.
pub proof fn lemma_mle_shifted(t: Seq<int>, beta: int, r: Seq<int>)
    requires
        t.len() == pow2(r.len()),
        all_in_field(t),
        all_in_field(r),
        in_field(beta),
    ensures
        mle(shifted(t, beta), r) == fsub(mle(t, r), beta),
{
    broadcast use group_in_field;

    let c = fneg(beta);
    let g = combined(1, t, constant(c, t.len()));
    assert forall|i: int| 0 <= i < t.len() implies #[trigger] shifted(t, beta)[i] == g[i] by {
        assert(in_field(t[i]));
        lemma_add_negated(t[i], beta);
    }
    assert(shifted(t, beta) =~= g);
    law_mle_linear(1, t, constant(c, t.len()), r);
    law_mle_constant(c, r);
    lemma_mle_in_field(t, r);
    lemma_add_negated(mle(t, r), beta);
}

proof fn lemma_add_negated(a: int, b: int)
    requires
        in_field(a),
        in_field(b),
    ensures
        fadd(fmul(1, a), fneg(b)) == fsub(a, b),
{
    broadcast use group_residue;

    lemma_residue_id(a);
    lemma_residue_id(b);
    lemma_residue_id(1);
    assert(1 * a + (0 - b) == a - b);
}

/// The extension of a padded column at a point of the column's own variables.
pub proof fn lemma_mle_zero_padded(t: Seq<int>, point: Seq<int>, n: nat)
    requires
        t.len() == pow2(point.len()),
        point.len() <= n,
        all_in_field(t),
    ensures
        mle_padded(zero_padded(t, pow2(n)), point, n) == mle(t, point),
{
    lemma_pow2_split((n - point.len()) as nat, point.len());
    let p = zero_padded(t, pow2(n));
    assert(p.len() == pow2(n));
    assert forall|i: int| 0 <= i < p.len() implies in_field(#[trigger] p[i]) by {
        if i < t.len() {
            assert(in_field(t[i]));
        }
    }
    law_mle_padded(p, point, n);
    assert(p.take(pow2(point.len()) as int) =~= t);
}

/// At a point of all its variables a table needs no padding.
pub proof fn lemma_mle_unpadded(t: Seq<int>, point: Seq<int>)
    ensures
        mle_padded(t, point, point.len()) == mle(t, point),
{
    assert(zeros(0) + point =~= point);
}

/// Commit to a column of codes and bind the transcript to it.
pub fn commit_codes<P: MlPcs>(
    ck: &P::CommitterKey,
    codes: &[i128],
    sponge: &mut Transcript,
    rng: &mut P::Randomness,
) -> (r: Result<(P::Commitment, CommittedAux<P>), SnarkError>)
    ensures
        r is Ok <==> P::can_commit(*ck, codes@.len()),
        r matches Err(e) ==> e is Pcs,
        r matches Ok((com, aux)) ==> {
            &&& vals(aux.table@) == lifted_codes(codes@)
            &&& aux.table@.len() == codes@.len()
            &&& aux_of(*ck, com, aux)
            &&& state_of(*final(sponge)) == abs_com::<P>(state_of(*old(sponge)), com)
        },
{
    let table: Vec<Fr> = lift(codes);
    assert(vals(table@).len() == table@.len());
    match commit_table::<P>(ck, table, rng) {
        Ok((com, aux)) => {
            absorb_commitment::<P>(sponge, &com);
            Ok((com, aux))
        },
        Err(e) => Err(e),
    }
}

/// Whether an integer is an `i128`.
pub open spec fn fits(x: int) -> bool {
    i128::MIN <= x <= i128::MAX
}

/// A residue that reads as an integer is that integer's residue.
pub proof fn lemma_signed_of_residue(x: int)
    requires
        in_field(x),
    ensures
        signed_of(x) matches Some(v) ==> residue(v as int) == x,
{
    if x <= i128::MAX {
        lemma_residue_id(x);
    } else if x - modulus() >= i128::MIN {
        reveal(residue);
        vstd::arithmetic::div_mod::lemma_mod_add_multiples_vanish(x - modulus(), modulus());
        vstd::arithmetic::div_mod::lemma_small_mod(x as nat, modulus() as nat);
    }
}

/// An `i128` is read back from its residue.
pub proof fn lemma_signed_roundtrip(v: i128)
    ensures
        signed_of(residue(v as int)) == Some(v),
{
    reveal(residue);
    if v >= 0 {
        vstd::arithmetic::div_mod::lemma_small_mod(v as nat, modulus() as nat);
    } else {
        vstd::arithmetic::div_mod::lemma_mod_add_multiples_vanish(v as int, modulus());
        vstd::arithmetic::div_mod::lemma_small_mod((v + modulus()) as nat, modulus() as nat);
    }
}

/// The mask of the first `n` of `len` rows.
pub open spec fn mask(n: nat, len: nat) -> Seq<int> {
    Seq::new(
        len,
        |i: int|
            if i < n {
                1int
            } else {
                0int
            },
    )
}

/// The mask of the first `n` of `len` rows, in the field.
pub fn mask_table(n: usize, len: usize) -> (r: Vec<Fr>)
    ensures
        vals(r@) == mask(n as nat, len as nat),
        r@.len() == len,
{
    let mut out: Vec<Fr> = Vec::with_capacity(len);
    let mut i: usize = 0;
    while i < len
        invariant
            i <= len,
            out@.len() == i,
            forall|k: int| 0 <= k < i ==> (#[trigger] out@[k])@ == mask(n as nat, len as nat)[k],
        decreases len - i,
    {
        if i < n {
            out.push(Fr::from_u64(1));
        } else {
            out.push(Fr::from_u64(0));
        }
        i += 1;
    }
    assert(vals(out@) =~= mask(n as nat, len as nat));
    out
}

/// The integers that residues stand for; those that stand for none read as
/// zero.
pub open spec fn decoded(t: Seq<int>) -> Seq<i128> {
    Seq::new(
        t.len(),
        |i: int|
            match signed_of(t[i]) {
                Some(v) => v,
                None => 0,
            },
    )
}

/// Read a column of field elements as integers.
pub fn decode_or_zero(t: &Vec<Fr>) -> (r: Vec<i128>)
    ensures
        r@ == decoded(vals(t@)),
{
    let mut out: Vec<i128> = Vec::with_capacity(t.len());
    let mut i: usize = 0;
    while i < t.len()
        invariant
            i <= t@.len(),
            out@.len() == i,
            forall|k: int| 0 <= k < i ==> #[trigger] out@[k] == decoded(vals(t@))[k],
        decreases t@.len() - i,
    {
        assert(vals(t@)[i as int] == t@[i as int]@);
        out.push(
            match fr_to_signed_i128(t[i]) {
                Some(v) => v,
                None => 0,
            },
        );
        i += 1;
    }
    assert(out@ =~= decoded(vals(t@)));
    out
}

/// Whether every residue stands for an integer.
pub open spec fn all_decodable(t: Seq<int>) -> bool {
    forall|i: int| 0 <= i < t.len() ==> signed_of(#[trigger] t[i]) is Some
}

/// Reading and lifting gives back a column whose residues all stand for
/// integers.
pub proof fn lemma_decoded_lifts(t: Seq<int>)
    requires
        all_in_field(t),
        all_decodable(t),
    ensures
        lifted_codes(decoded(t)) == t,
{
    assert forall|i: int| 0 <= i < t.len() implies #[trigger] lifted_codes(decoded(t))[i] == t[i] by {
        assert(in_field(t[i]) && signed_of(t[i]) is Some);
        lemma_signed_of_residue(t[i]);
    }
    assert(lifted_codes(decoded(t)) =~= t);
}

/// Lift a column of codes and pad it with zeros.
pub fn lift_padded(codes: &[i128], len: usize) -> (r: Vec<Fr>)
    requires
        codes@.len() <= len,
    ensures
        vals(r@) == zero_padded(lifted_codes(codes@), len as nat),
        r@.len() == len,
{
    let t: Vec<Fr> = lift(codes);
    pad_zeros(t.as_slice(), len)
}

} // verus!
