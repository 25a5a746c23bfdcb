//! Public parameters: keys, table sizes, and the preprocessed lookup tables.

use crate::columns::even_vars;
use crate::errors::SnarkError;
use crate::field::{Fr, residue, signed_lift_to_fr, signed_of, vals};
use crate::mle::{lemma_pow2_machine, pow2_usize};
use crate::pcs::MlPcs;
use crate::ring::lemma_residue_id;
use crate::table_mle::{identity_table, relu_table, signed_range_table};
use vstd::arithmetic::power2::{lemma_pow2_unfold, pow2};
use vstd::prelude::*;

verus! {

/// The quantized envelopes of the sigmoid and tanh on the non-negative half
/// of their domain: entry `i` bounds the function at `i / 2^s_x_log2`, scaled
/// by `2^s_v_log2`, from below and from above.
pub struct SigmaTables {
    pub sigmoid_lower_fr: Vec<Fr>,
    pub sigmoid_upper_fr: Vec<Fr>,
    pub tanh_lower_fr: Vec<Fr>,
    pub tanh_upper_fr: Vec<Fr>,
    pub s_x_log2: i32,
    pub s_v_log2: i32,
}

/// Whether a table's length is a power of two of at least four, and its
/// multiplicities can be addressed.
pub open spec fn table_sized(len: nat) -> bool {
    exists|k: nat|
        2 <= k < 60 && #[trigger] pow2(k) == len && pow2(even_vars(k)) <= usize::MAX
}

/// Whether the sum of two entries that read as an `i128` and of a scale code
/// of at most `2^126` fits one.
pub open spec fn summable_codes(table: Seq<Fr>) -> bool {
    forall|i: int|
        0 <= i < table.len() ==> match signed_of((#[trigger] table[i])@) {
            Some(v) => -0x2000_0000_0000_0000_0000_0000_0000_0000 < v
                < 0x2000_0000_0000_0000_0000_0000_0000_0000,
            None => true,
        }
}

impl SigmaTables {
    /// Whether each pair of tables has one power-of-two length of at least
    /// four, the scales are powers of two that an `i128` can hold, and the
    /// entries can be reflected at them.
    pub open spec fn wf(&self) -> bool {
        &&& self.sigmoid_lower_fr@.len() == self.sigmoid_upper_fr@.len()
        &&& self.tanh_lower_fr@.len() == self.tanh_upper_fr@.len()
        &&& table_sized(self.sigmoid_lower_fr@.len())
        &&& table_sized(self.tanh_lower_fr@.len())
        &&& 0 <= self.s_x_log2 <= 126
        &&& 0 <= self.s_v_log2 <= 126
        &&& summable_codes(self.sigmoid_lower_fr@)
        &&& summable_codes(self.sigmoid_upper_fr@)
        &&& summable_codes(self.tanh_lower_fr@)
        &&& summable_codes(self.tanh_upper_fr@)
    }
}

/// The lookup tables that every proof shares.
pub struct Preprocessed {
    half_bits: usize,
    range_table_fr: Vec<Fr>,
    pos_bits: Vec<usize>,
    pos_tables: Vec<Vec<Fr>>,
    sigma: SigmaTables,
}

impl Preprocessed {
    #[verifier::type_invariant]
    spec fn inv(&self) -> bool {
        &&& self.half_bits < 60
        &&& self.sigma.wf()
        &&& vals(self.range_table_fr@) == signed_range_table((self.half_bits + 1) as nat)
        &&& self.pos_bits@.len() == self.pos_tables@.len()
        &&& forall|i: int|
            0 <= i < self.pos_bits@.len() ==> 1 <= #[trigger] self.pos_bits@[i] < 60
        &&& forall|i: int|
            0 <= i < self.pos_tables@.len() ==> vals((#[trigger] self.pos_tables@[i])@)
                == identity_table(self.pos_bits@[i] as nat)
    }

    /// The signed range table covers `[-2^k, 2^k)` for this `k`.
    pub closed spec fn spec_half_bits(&self) -> nat {
        self.half_bits as nat
    }

    /// Whether the range table `[0, 2^bits)` was built.
    pub closed spec fn has_pos_table(&self, bits: nat) -> bool {
        exists|i: int| 0 <= i < self.pos_bits@.len() && #[trigger] self.pos_bits@[i] == bits
    }

    /// The sigmoid and tanh envelopes.
    pub closed spec fn spec_sigma(&self) -> SigmaTables {
        self.sigma
    }

    /// Build the signed range table for `[-2^half_bits, 2^half_bits)` and a
    /// range table `[0, 2^b)` for every `b` of `pos_bits`.
    pub fn build(half_bits: usize, pos_bits: Vec<usize>, sigma: SigmaTables) -> (r: Preprocessed)
        requires
            half_bits < 60,
            pow2((half_bits + 1) as nat) <= usize::MAX,
            sigma.wf(),
            forall|i: int|
                0 <= i < pos_bits@.len() ==> 1 <= #[trigger] pos_bits@[i] < 60 && pow2(
                    pos_bits@[i] as nat,
                ) <= usize::MAX,
        ensures
            r.spec_half_bits() == half_bits,
            r.spec_sigma() == sigma,
            forall|b: nat| #[trigger]
                r.has_pos_table(b) <==> exists|i: int|
                    0 <= i < pos_bits@.len() && #[trigger] pos_bits@[i] == b,
    {
        let size: usize = pow2_usize(half_bits + 1);
        let half: usize = size / 2;
        proof {
            lemma_pow2_unfold((half_bits + 1) as nat);
            lemma_pow2_machine((half_bits + 1) as nat);
        }
        let mut range_table_fr: Vec<Fr> = Vec::with_capacity(size);
        let mut i: usize = 0;
        while i < size
            invariant
                i <= size,
                half_bits < 60,
                size == pow2((half_bits + 1) as nat),
                half == pow2(half_bits as nat),
                range_table_fr@.len() == i,
                forall|k: int|
                    0 <= k < i ==> (#[trigger] range_table_fr@[k])@ == signed_range_table(
                        (half_bits + 1) as nat,
                    )[k],
            decreases size - i,
        {
            range_table_fr.push(signed_lift_to_fr(i as i128 - half as i128));
            i += 1;
        }
        assert(vals(range_table_fr@) =~= signed_range_table((half_bits + 1) as nat));
        let mut pos_tables: Vec<Vec<Fr>> = Vec::with_capacity(pos_bits.len());
        let mut j: usize = 0;
        while j < pos_bits.len()
            invariant
                j <= pos_bits@.len(),
                pos_tables@.len() == j,
                forall|k: int|
                    0 <= k < pos_bits@.len() ==> 1 <= #[trigger] pos_bits@[k] < 60 && pow2(
                        pos_bits@[k] as nat,
                    ) <= usize::MAX,
                forall|k: int|
                    0 <= k < j ==> vals((#[trigger] pos_tables@[k])@) == identity_table(
                        pos_bits@[k] as nat,
                    ),
            decreases pos_bits@.len() - j,
        {
            pos_tables.push(identity_table_fr(pos_bits[j]));
            j += 1;
        }
        Preprocessed { half_bits, range_table_fr, pos_bits, pos_tables, sigma }
    }

    /// `k` such that the signed range table covers `[-2^k, 2^k)`.
    pub fn half_bits(&self) -> (r: usize)
        ensures
            r == self.spec_half_bits(),
            r < 60,
            pow2((r + 1) as nat) <= usize::MAX,
    {
        proof {
            use_type_invariant(self);
            assert(vals(self.range_table_fr@).len() == self.range_table_fr@.len());
        }
        let n: usize = self.range_table_fr.len();
        self.half_bits
    }

    /// The signed range table.
    pub fn range_table(&self) -> (r: &Vec<Fr>)
        ensures
            vals(r@) == signed_range_table((self.spec_half_bits() + 1) as nat),
    {
        proof {
            use_type_invariant(self);
        }
        &self.range_table_fr
    }

    /// The range table `[0, 2^bits)`, if it was built.
    pub fn pos_range_table(&self, bits: usize) -> (r: Result<&Vec<Fr>, SnarkError>)
        ensures
            r is Ok <==> self.has_pos_table(bits as nat),
            r matches Ok(t) ==> {
                &&& vals(t@) == identity_table(bits as nat)
                &&& 1 <= bits < 60
                &&& pow2(bits as nat) <= usize::MAX
            },
            r matches Err(e) ==> e == (SnarkError::Reserved {
                what: "preprocessed: no range table of this width",
            }),
    {
        proof {
            use_type_invariant(self);
        }
        let mut i: usize = 0;
        while i < self.pos_bits.len()
            invariant
                i <= self.pos_bits@.len(),
                self.inv(),
                forall|k: int| 0 <= k < i ==> #[trigger] self.pos_bits@[k] != bits,
            decreases self.pos_bits@.len() - i,
        {
            if self.pos_bits[i] == bits {
                let t: &Vec<Fr> = &self.pos_tables[i];
                assert(vals(t@).len() == t@.len());
                let n: usize = t.len();
                return Ok(t);
            }
            i += 1;
        }
        Err(SnarkError::Reserved { what: "preprocessed: no range table of this width" })
    }

    /// The ReLU table `alpha x + ReLU(x)` over the signed range.
    pub fn relu_table_at(&self, alpha: Fr) -> (r: Vec<Fr>)
        ensures
            vals(r@) == relu_table((self.spec_half_bits() + 1) as nat, alpha@),
            r@.len() == pow2((self.spec_half_bits() + 1) as nat),
    {
        proof {
            use_type_invariant(self);
            assert(vals(self.range_table_fr@).len() == self.range_table_fr@.len());
        }
        let size: usize = self.range_table_fr.len();
        let half: usize = size / 2;
        let ghost n = (self.half_bits + 1) as nat;
        proof {
            lemma_pow2_unfold(n);
            lemma_pow2_machine(n);
            lemma_residue_id(0);
        }
        let mut out: Vec<Fr> = Vec::with_capacity(size);
        let mut i: usize = 0;
        while i < size
            invariant
                i <= size,
                n == (self.half_bits + 1) as nat,
                n <= 60,
                size == pow2(n),
                half == pow2((n - 1) as nat),
                size == self.range_table_fr@.len(),
                vals(self.range_table_fr@) == signed_range_table(n),
                residue(0) == 0,
                out@.len() == i,
                forall|k: int| 0 <= k < i ==> (#[trigger] out@[k])@ == relu_table(n, alpha@)[k],
            decreases size - i,
        {
            let x: Fr = self.range_table_fr[i];
            assert(x@ == vals(self.range_table_fr@)[i as int]);
            let relu: Fr = if i >= half {
                x
            } else {
                Fr::from_u64(0)
            };
            out.push(alpha.mul(x).add(relu));
            i += 1;
        }
        assert(vals(out@) =~= relu_table(n, alpha@));
        out
    }

    /// The sigmoid and tanh envelopes.
    pub fn sigma(&self) -> (r: &SigmaTables)
        ensures
            *r == self.spec_sigma(),
            r.wf(),
    {
        proof {
            use_type_invariant(self);
        }
        &self.sigma
    }
}

/// The identity table of `2^bits` entries.
fn identity_table_fr(bits: usize) -> (r: Vec<Fr>)
    requires
        bits < 60,
        pow2(bits as nat) <= usize::MAX,
    ensures
        vals(r@) == identity_table(bits as nat),
{
    let size: usize = pow2_usize(bits);
    let mut out: Vec<Fr> = Vec::with_capacity(size);
    let mut i: usize = 0;
    while i < size
        invariant
            i <= size,
            size == pow2(bits as nat),
            out@.len() == i,
            forall|k: int| 0 <= k < i ==> (#[trigger] out@[k])@ == residue(k),
        decreases size - i,
    {
        out.push(Fr::from_u64(i as u64));
        proof {
            lemma_residue_id(i as int);
        }
        i += 1;
    }
    assert(vals(out@) =~= identity_table(bits as nat));
    out
}

/// The parameters of a proof, which prover and verifier share.
pub struct SnarkParams<P: MlPcs> {
    pub committer_key: P::CommitterKey,
    pub verifier_key: P::VerifierKey,
    pub max_num_vars: usize,
    pub precision_bits: i32,
    pub out_bound_range_bits: usize,
    pub gadget_range_bits: usize,
    pub sigma_x_scale_log2: i32,
    pub sigma_v_scale_log2: i32,
    pub input_scale_log2: Option<i32>,
    pub preprocessed: Preprocessed,
}

impl<P: MlPcs> SnarkParams<P> {
    /// `k` such that the signed range table covers `[-2^k, 2^k)`.
    pub fn range_table_half_bits(&self) -> (r: usize)
        ensures
            r == self.preprocessed.spec_half_bits(),
            r < 60,
            pow2((r + 1) as nat) <= usize::MAX,
    {
        self.preprocessed.half_bits()
    }

    /// Whether the envelope's scales are powers of two that an `i128` can hold.
    pub open spec fn scales_ok(&self) -> bool {
        self.sigma_x_scale_log2 <= 126 && 0 <= self.sigma_v_scale_log2 <= 126
    }

    /// Whether the keys belong together.
    pub open spec fn keys_match(&self) -> bool {
        P::keys_match(self.committer_key, self.verifier_key)
    }
}

/// Whether the multiplicity tables of the lookups can be addressed.
pub open spec fn tables_fit<P: MlPcs>(params: SnarkParams<P>) -> bool {
    &&& pow2(even_vars(params.gadget_range_bits as nat)) <= usize::MAX
    &&& pow2(even_vars(params.preprocessed.spec_half_bits() + 1)) <= usize::MAX
}

} // verus!
