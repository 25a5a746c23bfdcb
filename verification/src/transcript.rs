//! The Fiat-Shamir transcript.
//!
//! Prover and verifier drive a Merlin transcript through the sponge interface
//! of `ark-crypto-primitives`. What a transcript will answer is determined by
//! its internal state, so contracts speak of that state: absorbing and
//! squeezing are functions from states to states.

use crate::field::{Fr, fr_bytes, lemma_fr_bytes_len, mont_residue, reduced, vals};
use ark_crypto_primitives::sponge::merlin::Transcript;
use vstd::bytes::spec_u64_to_le_bytes;
use vstd::bytes::u64_to_le_bytes;
use vstd::prelude::*;

verus! {

/// The Merlin transcript, `ark_crypto_primitives::sponge::merlin::Transcript`.
#[verifier::external_type_specification]
#[verifier::external_body]
pub struct ExTranscript(ark_crypto_primitives::sponge::merlin::Transcript);

/// The internal state of a transcript: the bytes of its STROBE duplex.
pub uninterp spec fn state_of(t: Transcript) -> Seq<u8>;

/// The state after a message was absorbed in a given state.
pub uninterp spec fn absorbed(state: Seq<u8>, message: Seq<u8>) -> Seq<u8>;

/// The `n` field elements that a squeeze gives in a given state.
pub uninterp spec fn squeezed(state: Seq<u8>, n: int) -> Seq<int>;

/// The state after `n` field elements were squeezed in a given state.
pub uninterp spec fn after_squeeze(state: Seq<u8>, n: int) -> Seq<u8>;

/// Whether a squeeze of `n` elements of 253 bits stays within the 32-bit
/// length that Merlin gives a challenge.
pub open spec fn squeezable(n: int) -> bool {
    (253 * n + 7) / 8 <= u32::MAX
}

/// `CryptographicSponge::absorb` of a byte string on a Merlin transcript: the
/// new state is the one named for the old state and the message. Merlin panics
/// on a message whose length does not fit in 32 bits.
#[verifier::external_body]
fn sponge_absorb(t: &mut Transcript, message: &[u8])
    requires
        message@.len() <= u32::MAX,
    ensures
        state_of(*final(t)) == absorbed(state_of(*old(t)), message@),
{
    ark_crypto_primitives::sponge::CryptographicSponge::absorb(t, &message)
}

/// `CryptographicSponge::squeeze_field_elements::<ark_bn254::Fr>` on a Merlin
/// transcript: `n` reduced elements, which are the ones named for the old
/// state, and the state named for it. Merlin panics where the challenge length
/// does not fit in 32 bits.
#[verifier::external_body]
fn sponge_squeeze(t: &mut Transcript, n: usize) -> (r: Vec<[u64; 4]>)
    requires
        squeezable(n as int),
    ensures
        r@.len() == n,
        forall|i: int| 0 <= i < n ==> reduced(#[trigger] r@[i]@),
        Seq::new(r@.len(), |i: int| mont_residue(r@[i]@)) == squeezed(state_of(*old(t)), n as int),
        state_of(*final(t)) == after_squeeze(state_of(*old(t)), n as int),
{
    let out: Vec<ark_bn254::Fr> =
        ark_crypto_primitives::sponge::CryptographicSponge::squeeze_field_elements(t, n);
    out.into_iter().map(|x| x.0.0).collect()
}

/// The state after a 64-bit number was absorbed.
pub open spec fn abs_u64(state: Seq<u8>, x: u64) -> Seq<u8> {
    absorbed(state, spec_u64_to_le_bytes(x))
}

/// The state after one byte was absorbed.
pub open spec fn abs_u8(state: Seq<u8>, x: u8) -> Seq<u8> {
    absorbed(state, seq![x])
}

/// The state after a residue was absorbed.
pub open spec fn abs_fr(state: Seq<u8>, x: int) -> Seq<u8> {
    absorbed(state, fr_bytes(x))
}

/// The single element that a one-element squeeze gives.
pub open spec fn challenge(state: Seq<u8>) -> int {
    squeezed(state, 1)[0]
}

/// The state after a one-element squeeze.
pub open spec fn challenged(state: Seq<u8>) -> Seq<u8> {
    after_squeeze(state, 1)
}

/// Absorb a byte string.
pub fn absorb_bytes(t: &mut Transcript, message: &[u8])
    requires
        message@.len() <= u32::MAX,
    ensures
        state_of(*final(t)) == absorbed(state_of(*old(t)), message@),
{
    sponge_absorb(t, message)
}

/// Absorb a 64-bit number as its eight little-endian bytes.
pub fn absorb_u64(t: &mut Transcript, x: u64)
    ensures
        state_of(*final(t)) == abs_u64(state_of(*old(t)), x),
{
    let bytes: Vec<u8> = u64_to_le_bytes(x);
    proof {
        vstd::bytes::lemma_auto_spec_u64_to_from_le_bytes();
    }
    sponge_absorb(t, bytes.as_slice())
}

/// Absorb one byte.
pub fn absorb_u8(t: &mut Transcript, x: u8)
    ensures
        state_of(*final(t)) == abs_u8(state_of(*old(t)), x),
{
    let bytes: Vec<u8> = vec![x];
    assert(bytes@ =~= seq![x]);
    sponge_absorb(t, bytes.as_slice())
}

/// Absorb a field element as its 32 little-endian bytes.
pub fn absorb_fr(t: &mut Transcript, x: Fr)
    ensures
        state_of(*final(t)) == abs_fr(state_of(*old(t)), x@),
{
    broadcast use lemma_fr_bytes_len;

    let bytes: Vec<u8> = x.to_bytes();
    sponge_absorb(t, bytes.as_slice())
}

/// Whether `n` field elements can be squeezed at once.
pub fn can_squeeze(n: usize) -> (r: bool)
    ensures
        r == squeezable(n as int),
{
    n <= 135_809_242
}

/// Squeeze `n` field elements.
pub fn squeeze(t: &mut Transcript, n: usize) -> (r: Vec<Fr>)
    requires
        squeezable(n as int),
    ensures
        r@.len() == n,
        vals(r@) == squeezed(state_of(*old(t)), n as int),
        state_of(*final(t)) == after_squeeze(state_of(*old(t)), n as int),
{
    let raw: Vec<[u64; 4]> = sponge_squeeze(t, n);
    let mut out: Vec<Fr> = Vec::with_capacity(n);
    let mut i: usize = 0;
    while i < n
        invariant
            i <= n,
            raw@.len() == n,
            out@.len() == i,
            forall|k: int| 0 <= k < n ==> reduced(#[trigger] raw@[k]@),
            forall|k: int| 0 <= k < i ==> (#[trigger] out@[k])@ == mont_residue(raw@[k]@),
        decreases n - i,
    {
        out.push(Fr::from_mont(raw[i]));
        i += 1;
    }
    assert(vals(out@) =~= Seq::new(raw@.len(), |k: int| mont_residue(raw@[k]@)));
    out
}

/// Squeeze one field element.
pub fn squeeze_one(t: &mut Transcript) -> (r: Fr)
    ensures
        r@ == challenge(state_of(*old(t))),
        state_of(*final(t)) == challenged(state_of(*old(t))),
{
    let v: Vec<Fr> = squeeze(t, 1);
    assert(vals(v@)[0] == v@[0]@);
    v[0]
}

/// The state after `k` one-element squeezes.
pub open spec fn challenged_n(state: Seq<u8>, k: nat) -> Seq<u8>
    decreases k,
{
    if k == 0 {
        state
    } else {
        challenged(challenged_n(state, (k - 1) as nat))
    }
}

/// The elements that `k` one-element squeezes give.
pub open spec fn challenges(state: Seq<u8>, k: nat) -> Seq<int> {
    Seq::new(k, |i: int| challenge(challenged_n(state, i as nat)))
}

/// Squeeze field elements one at a time.
pub fn squeeze_each(t: &mut Transcript, k: usize) -> (r: Vec<Fr>)
    ensures
        r@.len() == k,
        vals(r@) == challenges(state_of(*old(t)), k as nat),
        state_of(*final(t)) == challenged_n(state_of(*old(t)), k as nat),
{
    let ghost t0 = state_of(*t);
    let mut out: Vec<Fr> = Vec::with_capacity(k);
    let mut i: usize = 0;
    while i < k
        invariant
            i <= k,
            t0 == state_of(*old(t)),
            out@.len() == i,
            state_of(*t) == challenged_n(t0, i as nat),
            forall|j: int|
                0 <= j < i ==> (#[trigger] out@[j])@ == challenge(challenged_n(t0, j as nat)),
        decreases k - i,
    {
        out.push(squeeze_one(t));
        i += 1;
    }
    assert(vals(out@) =~= challenges(t0, k as nat));
    out
}

} // verus!
