//! The BN254 scalar field.
//!
//! An element is held by its four Montgomery limbs, the form in which
//! `ark_bn254::Fr` keeps it, and is viewed as its residue: the integer in
//! `[0, modulus())` that it stands for. Arithmetic is done by `ark-ff`.

use vstd::bytes::spec_u64_to_le_bytes;
use vstd::bytes::u64_to_le_bytes;
use vstd::prelude::*;
use vstd::std_specs::cmp::PartialEqSpecImpl;

verus! {

/// The order of the BN254 scalar field.
pub open spec fn modulus() -> int {
    21888242871839275222246405745257275088548364400416034343698204186575808495617int
}

/// `2^256`, the Montgomery radix.
pub open spec fn mont_radix() -> int {
    0x1_0000_0000_0000_0000_0000_0000_0000_0000_0000_0000_0000_0000_0000_0000_0000_0000int
}

/// The inverse of the Montgomery radix modulo `modulus()`.
pub open spec fn mont_radix_inverse() -> int {
    9915499612839321149637521777990102151350674507940716049588462388200839649614int
}

/// The residue of an integer.
#[verifier::opaque]
pub open spec fn residue(x: int) -> int {
    x % modulus()
}

/// Addition of residues.
#[verifier::opaque]
pub open spec fn fadd(a: int, b: int) -> int {
    (a + b) % modulus()
}

/// Subtraction of residues.
#[verifier::opaque]
pub open spec fn fsub(a: int, b: int) -> int {
    (a - b) % modulus()
}

/// Multiplication of residues.
#[verifier::opaque]
pub open spec fn fmul(a: int, b: int) -> int {
    (a * b) % modulus()
}

/// Negation of a residue.
#[verifier::opaque]
pub open spec fn fneg(a: int) -> int {
    (0 - a) % modulus()
}

/// Whether an integer is a residue.
pub open spec fn in_field(x: int) -> bool {
    0 <= x < modulus()
}

/// The number that four 64-bit limbs spell, lowest limb first.
pub open spec fn limbs_value(l: Seq<u64>) -> int {
    l[0] + l[1] * 0x1_0000_0000_0000_0000 + l[2] * 0x1_0000_0000_0000_0000_0000_0000_0000_0000int
        + l[3] * 0x1_0000_0000_0000_0000_0000_0000_0000_0000_0000_0000_0000_0000int
}

/// Whether the limbs spell a number below the modulus.
pub open spec fn reduced(l: Seq<u64>) -> bool {
    l.len() == 4 && limbs_value(l) < modulus()
}

/// The residue that Montgomery limbs stand for.
pub open spec fn mont_residue(l: Seq<u64>) -> int {
    (limbs_value(l) * mont_radix_inverse()) % modulus()
}

/// The `k`-th 64-bit limb of `x`.
pub open spec fn limb_of(x: int, k: int) -> u64 {
    if k == 0 {
        (x % 0x1_0000_0000_0000_0000) as u64
    } else if k == 1 {
        ((x / 0x1_0000_0000_0000_0000) % 0x1_0000_0000_0000_0000) as u64
    } else if k == 2 {
        ((x / 0x1_0000_0000_0000_0000_0000_0000_0000_0000int) % 0x1_0000_0000_0000_0000) as u64
    } else {
        ((x / 0x1_0000_0000_0000_0000_0000_0000_0000_0000_0000_0000_0000_0000int)
            % 0x1_0000_0000_0000_0000) as u64
    }
}

/// The 32 little-endian bytes of a residue.
#[verifier::opaque]
pub open spec fn fr_bytes(x: int) -> Seq<u8> {
    spec_u64_to_le_bytes(limb_of(x, 0)) + spec_u64_to_le_bytes(limb_of(x, 1))
        + spec_u64_to_le_bytes(limb_of(x, 2)) + spec_u64_to_le_bytes(limb_of(x, 3))
}

/// The integer in `i128` that a residue stands for when residues above half
/// the modulus are read as negative numbers, if there is one.
pub open spec fn signed_of(x: int) -> Option<i128> {
    if x <= i128::MAX {
        Some(x as i128)
    } else if x - modulus() >= i128::MIN {
        Some((x - modulus()) as i128)
    } else {
        None
    }
}

/// Limb equality and equality of the spelled numbers coincide.
proof fn lemma_limbs_injective(a: Seq<u64>, b: Seq<u64>)
    requires
        a.len() == 4,
        b.len() == 4,
    ensures
        limbs_value(a) == limbs_value(b) <==> a =~= b,
{
    if limbs_value(a) == limbs_value(b) {
        let r = 0x1_0000_0000_0000_0000int;
        let (a2, b2) = (a[2] + a[3] * r, b[2] + b[3] * r);
        let (a1, b1) = (a[1] + a2 * r, b[1] + b2 * r);
        lemma_lowest_limb(a[0], b[0], a1, b1);
        lemma_lowest_limb(a[1], b[1], a2, b2);
        lemma_lowest_limb(a[2], b[2], a[3] as int, b[3] as int);
        assert(a =~= b);
    }
}

/// A number determines its lowest limb and the rest.
proof fn lemma_lowest_limb(a: u64, b: u64, x: int, y: int)
    requires
        a + x * 0x1_0000_0000_0000_0000 == b + y * 0x1_0000_0000_0000_0000,
    ensures
        a == b,
        x == y,
{
}

/// Distinct reduced Montgomery forms stand for distinct residues.
proof fn lemma_mont_injective(x: int, y: int)
    requires
        in_field(x),
        in_field(y),
        (x * mont_radix_inverse()) % modulus() == (y * mont_radix_inverse()) % modulus(),
    ensures
        x == y,
{
    lemma_mont_unwrap(x);
    lemma_mont_unwrap(y);
}

proof fn lemma_mont_unwrap(x: int)
    requires
        in_field(x),
    ensures
        (((x * mont_radix_inverse()) % modulus()) * mont_radix()) % modulus() == x,
{
    let p = modulus();
    let r = mont_radix();
    let ri = mont_radix_inverse();
    vstd::arithmetic::div_mod::lemma_mul_mod_noop_left(x * ri, r, p);
    assert((x * ri) * r == x * (ri * r)) by (nonlinear_arith);
    vstd::arithmetic::div_mod::lemma_mul_mod_noop_right(x, ri * r, p);
    assert((ri * r) % p == 1);
    assert(x * 1 == x);
    vstd::arithmetic::div_mod::lemma_small_mod(x as nat, p as nat);
}

/// Addition in `ark_bn254::Fr` (the `+` of `ark_ff::Fp`) on Montgomery limbs:
/// the sum's residue is the sum of the residues, and its limbs are reduced.
#[verifier::external_body]
fn ark_add(a: &[u64; 4], b: &[u64; 4]) -> (r: [u64; 4])
    requires
        reduced(a@),
        reduced(b@),
    ensures
        reduced(r@),
        mont_residue(r@) == (mont_residue(a@) + mont_residue(b@)) % modulus(),
{
    let x = ark_bn254::Fr::new_unchecked(ark_ff::BigInt(*a));
    let y = ark_bn254::Fr::new_unchecked(ark_ff::BigInt(*b));
    (x + y).0.0
}

/// Subtraction in `ark_bn254::Fr` (the `-` of `ark_ff::Fp`) on Montgomery
/// limbs: the difference's residue is the difference of the residues, and its
/// limbs are reduced.
#[verifier::external_body]
fn ark_sub(a: &[u64; 4], b: &[u64; 4]) -> (r: [u64; 4])
    requires
        reduced(a@),
        reduced(b@),
    ensures
        reduced(r@),
        mont_residue(r@) == (mont_residue(a@) - mont_residue(b@)) % modulus(),
{
    let x = ark_bn254::Fr::new_unchecked(ark_ff::BigInt(*a));
    let y = ark_bn254::Fr::new_unchecked(ark_ff::BigInt(*b));
    (x - y).0.0
}

/// Multiplication in `ark_bn254::Fr` (the `*` of `ark_ff::Fp`) on Montgomery
/// limbs: the product's residue is the product of the residues, and its limbs
/// are reduced.
#[verifier::external_body]
fn ark_mul(a: &[u64; 4], b: &[u64; 4]) -> (r: [u64; 4])
    requires
        reduced(a@),
        reduced(b@),
    ensures
        reduced(r@),
        mont_residue(r@) == (mont_residue(a@) * mont_residue(b@)) % modulus(),
{
    let x = ark_bn254::Fr::new_unchecked(ark_ff::BigInt(*a));
    let y = ark_bn254::Fr::new_unchecked(ark_ff::BigInt(*b));
    (x * y).0.0
}

/// Negation in `ark_bn254::Fr` (the unary `-` of `ark_ff::Fp`) on Montgomery
/// limbs: the result's residue is the negated residue, and its limbs are
/// reduced.
#[verifier::external_body]
fn ark_neg(a: &[u64; 4]) -> (r: [u64; 4])
    requires
        reduced(a@),
    ensures
        reduced(r@),
        mont_residue(r@) == (0 - mont_residue(a@)) % modulus(),
{
    let x = ark_bn254::Fr::new_unchecked(ark_ff::BigInt(*a));
    (-x).0.0
}

/// `ark_ff::Fp::new`, which brings the limbs of a number below the modulus to
/// Montgomery form: the result's residue is that number.
#[verifier::external_body]
fn ark_new(a: &[u64; 4]) -> (r: [u64; 4])
    requires
        reduced(a@),
    ensures
        reduced(r@),
        mont_residue(r@) == limbs_value(a@),
{
    ark_bn254::Fr::new(ark_ff::BigInt(*a)).0.0
}

/// `ark_ff::PrimeField::into_bigint`, which brings Montgomery limbs to the
/// limbs of the residue itself.
#[verifier::external_body]
fn ark_into_bigint(a: &[u64; 4]) -> (r: [u64; 4])
    requires
        reduced(a@),
    ensures
        reduced(r@),
        limbs_value(r@) == mont_residue(a@),
{
    ark_ff::PrimeField::into_bigint(ark_bn254::Fr::new_unchecked(ark_ff::BigInt(*a))).0
}

/// An element of the BN254 scalar field.
#[derive(Clone, Copy, Debug)]
pub struct Fr {
    limbs: [u64; 4],
}

impl View for Fr {
    type V = int;

    closed spec fn view(&self) -> int {
        mont_residue(self.limbs@)
    }
}

impl Fr {
    #[verifier::type_invariant]
    spec fn inv(&self) -> bool {
        reduced(self.limbs@)
    }
}

/// The residues of a sequence of field elements.
pub open spec fn vals(s: Seq<Fr>) -> Seq<int> {
    Seq::new(s.len(), |i: int| s[i]@)
}

/// Whether every entry is a residue.
pub open spec fn all_in_field(s: Seq<int>) -> bool {
    forall|i: int| 0 <= i < s.len() ==> in_field(#[trigger] s[i])
}

/// A field element is viewed as a residue.
pub broadcast proof fn lemma_view_in_field(x: Fr)
    ensures
        in_field(#[trigger] x@),
{
    vstd::arithmetic::div_mod::lemma_mod_bound(
        limbs_value(x.limbs@) * mont_radix_inverse(),
        modulus(),
    );
}

impl PartialEq for Fr {
    fn eq(&self, other: &Fr) -> (r: bool) {
        proof {
            use_type_invariant(self);
            use_type_invariant(other);
            lemma_limbs_injective(self.limbs@, other.limbs@);
            if self@ == other@ {
                lemma_mont_injective(limbs_value(self.limbs@), limbs_value(other.limbs@));
            }
        }
        self.limbs[0] == other.limbs[0] && self.limbs[1] == other.limbs[1] && self.limbs[2]
            == other.limbs[2] && self.limbs[3] == other.limbs[3]
    }
}

impl PartialEqSpecImpl for Fr {
    open spec fn obeys_eq_spec() -> bool {
        true
    }

    open spec fn eq_spec(&self, other: &Fr) -> bool {
        self@ == other@
    }
}

impl Fr {
    /// The field element of a 64-bit number.
    pub fn from_u64(x: u64) -> (r: Fr)
        ensures
            r@ == x,
    {
        let limbs: [u64; 4] = [x, 0, 0, 0];
        Fr { limbs: ark_new(&limbs) }
    }

    /// The field element whose residue the four limbs spell, lowest first;
    /// `None` if they spell a number that is not below the modulus.
    pub fn from_limbs(limbs: [u64; 4]) -> (r: Option<Fr>)
        ensures
            r is Some <==> limbs_value(limbs@) < modulus(),
            r matches Some(x) ==> x@ == limbs_value(limbs@),
    {
        let m: [u64; 4] = [
            0x43e1f593f0000001,
            0x2833e84879b97091,
            0xb85045b68181585d,
            0x30644e72e131a029,
        ];
        assert(limbs_value(m@) == modulus());
        let less: bool = if limbs[3] != m[3] {
            limbs[3] < m[3]
        } else if limbs[2] != m[2] {
            limbs[2] < m[2]
        } else if limbs[1] != m[1] {
            limbs[1] < m[1]
        } else {
            limbs[0] < m[0]
        };
        if less {
            Some(Fr { limbs: ark_new(&limbs) })
        } else {
            None
        }
    }

    /// The field element that reduced Montgomery limbs stand for.
    pub(crate) fn from_mont(limbs: [u64; 4]) -> (r: Fr)
        requires
            reduced(limbs@),
        ensures
            r@ == mont_residue(limbs@),
    {
        Fr { limbs }
    }

    /// The four limbs of the residue, lowest first.
    pub fn to_limbs(&self) -> (r: [u64; 4])
        ensures
            limbs_value(r@) == self@,
    {
        proof {
            use_type_invariant(self);
        }
        ark_into_bigint(&self.limbs)
    }

    /// The sum.
    pub fn add(self, rhs: Fr) -> (r: Fr)
        ensures
            r@ == fadd(self@, rhs@),
    {
        proof {
            use_type_invariant(self);
            use_type_invariant(rhs);
            reveal(fadd);
        }
        Fr { limbs: ark_add(&self.limbs, &rhs.limbs) }
    }

    /// The difference.
    pub fn sub(self, rhs: Fr) -> (r: Fr)
        ensures
            r@ == fsub(self@, rhs@),
    {
        proof {
            use_type_invariant(self);
            use_type_invariant(rhs);
            reveal(fsub);
        }
        Fr { limbs: ark_sub(&self.limbs, &rhs.limbs) }
    }

    /// The product.
    pub fn mul(self, rhs: Fr) -> (r: Fr)
        ensures
            r@ == fmul(self@, rhs@),
    {
        proof {
            use_type_invariant(self);
            use_type_invariant(rhs);
            reveal(fmul);
        }
        Fr { limbs: ark_mul(&self.limbs, &rhs.limbs) }
    }

    /// The additive inverse.
    pub fn negate(&self) -> (r: Fr)
        ensures
            r@ == fneg(self@),
    {
        proof {
            use_type_invariant(self);
            reveal(fneg);
        }
        Fr { limbs: ark_neg(&self.limbs) }
    }

    /// The 32 little-endian bytes of the residue.
    pub fn to_bytes(&self) -> (r: Vec<u8>)
        ensures
            r@ == fr_bytes(self@),
    {
        let limbs: [u64; 4] = self.to_limbs();
        proof {
            lemma_limbs_of_value(limbs@);
            reveal(fr_bytes);
        }
        let mut out: Vec<u8> = u64_to_le_bytes(limbs[0]);
        let mut b1: Vec<u8> = u64_to_le_bytes(limbs[1]);
        let mut b2: Vec<u8> = u64_to_le_bytes(limbs[2]);
        let mut b3: Vec<u8> = u64_to_le_bytes(limbs[3]);
        out.append(&mut b1);
        out.append(&mut b2);
        out.append(&mut b3);
        out
    }
}

/// The limbs of a spelled number are the limbs that spell it.
proof fn lemma_limbs_of_value(l: Seq<u64>)
    requires
        l.len() == 4,
    ensures
        limb_of(limbs_value(l), 0) == l[0],
        limb_of(limbs_value(l), 1) == l[1],
        limb_of(limbs_value(l), 2) == l[2],
        limb_of(limbs_value(l), 3) == l[3],
{
    let b = 0x1_0000_0000_0000_0000int;
    let y3 = l[3] as int;
    let y2 = l[2] + b * y3;
    let y1 = l[1] + b * y2;
    let y0 = l[0] + b * y1;
    assert(limbs_value(l) == y0);
    vstd::arithmetic::div_mod::lemma_fundamental_div_mod_converse(y0, b, y1, l[0] as int);
    vstd::arithmetic::div_mod::lemma_fundamental_div_mod_converse(y1, b, y2, l[1] as int);
    vstd::arithmetic::div_mod::lemma_fundamental_div_mod_converse(y2, b, y3, l[2] as int);
    vstd::arithmetic::div_mod::lemma_fundamental_div_mod_converse(y3, b, 0, l[3] as int);
    vstd::arithmetic::div_mod::lemma_div_denominator(y0, b, b);
    vstd::arithmetic::div_mod::lemma_div_denominator(y0, b * b, b);
    assert(b * b == 0x1_0000_0000_0000_0000_0000_0000_0000_0000int);
    assert(b * b * b == 0x1_0000_0000_0000_0000_0000_0000_0000_0000_0000_0000_0000_0000int);
}

/// The bytes of a residue number 32.
pub broadcast proof fn lemma_fr_bytes_len(x: int)
    ensures
        #[trigger] fr_bytes(x).len() == 32,
{
    reveal(fr_bytes);
    vstd::bytes::lemma_auto_spec_u64_to_from_le_bytes();
}

/// Lift a signed integer to the field: negative numbers go to `modulus() + v`.
pub fn signed_lift_to_fr(v: i128) -> (r: Fr)
    ensures
        r@ == residue(v as int),
{
    proof {
        reveal(residue);
        reveal(fneg);
    }
    if v >= 0 {
        lift_u128(v as u128)
    } else {
        let u: u128 = (-(v + 1)) as u128 + 1;
        let pos: Fr = lift_u128(u);
        pos.negate()
    }
}

/// The field element of a 128-bit number.
pub fn lift_u128(u: u128) -> (r: Fr)
    ensures
        r@ == u,
{
    let lo: u64 = (u % 0x1_0000_0000_0000_0000) as u64;
    let hi: u64 = (u / 0x1_0000_0000_0000_0000) as u64;
    let limbs: [u64; 4] = [lo, hi, 0, 0];
    Fr { limbs: ark_new(&limbs) }
}

/// Read a field element as a signed integer, if it is one that `i128` holds.
pub fn fr_to_signed_i128(x: Fr) -> (r: Option<i128>)
    ensures
        r == signed_of(x@),
{
    let c: [u64; 4] = x.to_limbs();
    let n: Fr = x.negate();
    let d: [u64; 4] = n.to_limbs();
    proof {
        reveal(fneg);
        lemma_view_in_field(x);
    }
    if c[2] == 0 && c[3] == 0 && c[1] < 0x8000_0000_0000_0000 {
        Some(c[1] as i128 * 0x1_0000_0000_0000_0000 + c[0] as i128)
    } else if d[2] == 0 && d[3] == 0 && (d[1] < 0x8000_0000_0000_0000 || (d[1]
        == 0x8000_0000_0000_0000 && d[0] == 0)) {
        if d[1] == 0x8000_0000_0000_0000 {
            Some(i128::MIN)
        } else {
            Some(-(d[1] as i128 * 0x1_0000_0000_0000_0000 + d[0] as i128))
        }
    } else {
        None
    }
}

} // verus!
