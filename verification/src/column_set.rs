//! Sets of columns: committed one after the other, and range-checked.

use crate::columns::{all_below, commit_codes, even_vars, lifted_codes};
use crate::errors::{SnarkError, and_also};
use crate::field::vals;
use crate::params::{SnarkParams, tables_fit};
use crate::pcs::{CommittedAux, MlPcs, abs_com, absorb_commitment, aux_of, lemma_pow2_injective};
use crate::pos_range::{
    PosRangeLogUp, lemma_range_column, prove_pos_range, range_state, range_verdict,
    verify_pos_range,
};
use crate::transcript::state_of;
use ark_crypto_primitives::sponge::merlin::Transcript;
use vstd::arithmetic::power2::pow2;
use vstd::prelude::*;

verus! {

/// The values behind references.
pub open spec fn derefs<T>(s: Seq<&T>) -> Seq<T> {
    Seq::new(s.len(), |i: int| *s[i])
}

/// The entries of a sequence at given indices.
pub open spec fn picked<T>(s: Seq<T>, which: Seq<usize>) -> Seq<T> {
    Seq::new(which.len(), |i: int| s[which[i] as int])
}

/// Whether indices are in range.
pub open spec fn indices_ok(which: Seq<usize>, len: nat) -> bool {
    forall|i: int| 0 <= i < which.len() ==> #[trigger] which[i] < len
}

/// The codes of several columns.
pub open spec fn codes_of(cols: Seq<Vec<i128>>) -> Seq<Seq<i128>> {
    Seq::new(cols.len(), |i: int| cols[i]@)
}

/// The state after several commitments were absorbed, in order.
pub open spec fn abs_coms<P: MlPcs>(t0: Seq<u8>, coms: Seq<P::Commitment>) -> Seq<u8>
    decreases coms.len(),
{
    if coms.len() == 0 {
        t0
    } else {
        abs_com::<P>(abs_coms::<P>(t0, coms.drop_last()), coms.last())
    }
}

/// Bind the transcript to several commitments.
pub fn absorb_all<P: MlPcs>(sponge: &mut Transcript, coms: &Vec<&P::Commitment>)
    ensures
        state_of(*final(sponge)) == abs_coms::<P>(state_of(*old(sponge)), derefs(coms@)),
{
    let ghost t0 = state_of(*sponge);
    let ghost all = derefs(coms@);
    let mut i: usize = 0;
    assert(all.take(0) =~= Seq::empty());
    while i < coms.len()
        invariant
            i <= coms@.len(),
            t0 == state_of(*old(sponge)),
            all == derefs(coms@),
            state_of(*sponge) == abs_coms::<P>(t0, all.take(i as int)),
        decreases coms@.len() - i,
    {
        absorb_commitment::<P>(sponge, coms[i]);
        proof {
            let next = all.take(i + 1);
            assert(next.drop_last() =~= all.take(i as int));
            assert(next.last() == *coms@[i as int]);
        }
        i += 1;
    }
    assert(all.take(all.len() as int) =~= all);
}

/// The references at given indices.
pub fn pick_refs<'a, T>(refs: &Vec<&'a T>, which: &Vec<usize>) -> (r: Vec<&'a T>)
    requires
        indices_ok(which@, refs@.len()),
    ensures
        derefs(r@) == picked(derefs(refs@), which@),
        r@.len() == which@.len(),
{
    let mut out: Vec<&'a T> = Vec::with_capacity(which.len());
    let mut i: usize = 0;
    while i < which.len()
        invariant
            i <= which@.len(),
            indices_ok(which@, refs@.len()),
            out@.len() == i,
            forall|k: int| 0 <= k < i ==> #[trigger] out@[k] == refs@[which@[k] as int],
        decreases which@.len() - i,
    {
        out.push(refs[which[i]]);
        i += 1;
    }
    assert(derefs(out@) =~= picked(derefs(refs@), which@));
    out
}

/// Whether commitments were made for columns of codes.
pub open spec fn columns_committed<P: MlPcs>(
    ck: P::CommitterKey,
    coms: Seq<P::Commitment>,
    auxes: Seq<CommittedAux<P>>,
    codes: Seq<Seq<i128>>,
) -> bool {
    &&& coms.len() == codes.len()
    &&& auxes.len() == codes.len()
    &&& forall|i: int|
        0 <= i < codes.len() ==> {
            &&& vals((#[trigger] auxes[i]).table@) == lifted_codes(codes[i])
            &&& auxes[i].table@.len() == codes[i].len()
            &&& aux_of(ck, coms[i], auxes[i])
        }
}

/// Commit to columns of codes, binding the transcript to each.
pub fn commit_columns<P: MlPcs>(
    ck: &P::CommitterKey,
    cols: &Vec<Vec<i128>>,
    sponge: &mut Transcript,
    rng: &mut P::Randomness,
) -> (r: Result<(Vec<P::Commitment>, Vec<CommittedAux<P>>), SnarkError>)
    ensures
        r is Ok <==> forall|i: int|
            0 <= i < cols@.len() ==> P::can_commit(*ck, (#[trigger] cols@[i])@.len()),
        r matches Err(e) ==> e is Pcs,
        r matches Ok((coms, auxes)) ==> {
            &&& columns_committed(*ck, coms@, auxes@, codes_of(cols@))
            &&& state_of(*final(sponge)) == abs_coms::<P>(state_of(*old(sponge)), coms@)
        },
{
    let ghost t0 = state_of(*sponge);
    let mut coms: Vec<P::Commitment> = Vec::with_capacity(cols.len());
    let mut auxes: Vec<CommittedAux<P>> = Vec::with_capacity(cols.len());
    let mut i: usize = 0;
    while i < cols.len()
        invariant
            i <= cols@.len(),
            t0 == state_of(*old(sponge)),
            columns_committed(*ck, coms@, auxes@, codes_of(cols@).take(i as int)),
            forall|k: int| 0 <= k < i ==> P::can_commit(*ck, (#[trigger] cols@[k])@.len()),
            state_of(*sponge) == abs_coms::<P>(t0, coms@),
        decreases cols@.len() - i,
    {
        let ghost coms0 = coms@;
        match commit_codes::<P>(ck, cols[i].as_slice(), sponge, rng) {
            Ok((com, aux)) => {
                coms.push(com);
                auxes.push(aux);
                proof {
                    assert(coms@.drop_last() =~= coms0);
                    let all = codes_of(cols@);
                    assert(all.take(i + 1)[i as int] == cols@[i as int]@);
                    assert forall|k: int| 0 <= k < i + 1 implies {
                        &&& vals((#[trigger] auxes@[k]).table@) == lifted_codes(all.take(i + 1)[k])
                        &&& auxes@[k].table@.len() == all.take(i + 1)[k].len()
                        &&& aux_of(*ck, coms@[k], auxes@[k])
                    } by {
                        if k < i {
                            assert(all.take(i as int)[k] == all.take(i + 1)[k]);
                        }
                    }
                }
            },
            Err(e) => {
                assert(!P::can_commit(*ck, cols@[i as int]@.len()));
                return Err(e);
            },
        }
        i += 1;
    }
    assert(codes_of(cols@).take(cols@.len() as int) =~= codes_of(cols@));
    Ok((coms, auxes))
}

// ---- Range checks of several columns ----

/// The verdict on a range proof under the parameters.
pub open spec fn pos_verdict<P: MlPcs>(
    params: SnarkParams<P>,
    com: P::Commitment,
    n: nat,
    range: PosRangeLogUp<P>,
    t0: Seq<u8>,
) -> Result<(), SnarkError> {
    let bits = params.gadget_range_bits as nat;
    if !params.preprocessed.has_pos_table(bits) {
        Err(SnarkError::Reserved { what: "preprocessed: no range table of this width" })
    } else {
        range_verdict(params.verifier_key, com, n, bits, range, t0)
    }
}

/// The state after the first `k` range checks.
pub open spec fn ranges_state<P: MlPcs>(
    vk: P::VerifierKey,
    coms: Seq<P::Commitment>,
    n: nat,
    ranges: Seq<PosRangeLogUp<P>>,
    t0: Seq<u8>,
    k: nat,
) -> Seq<u8>
    decreases k,
{
    if k == 0 {
        t0
    } else {
        range_state(
            vk,
            coms[k - 1],
            n,
            ranges[k - 1],
            ranges_state(vk, coms, n, ranges, t0, (k - 1) as nat),
        )
    }
}

/// The verdict on the range checks from `k` on.
pub open spec fn ranges_verdict<P: MlPcs>(
    params: SnarkParams<P>,
    coms: Seq<P::Commitment>,
    n: nat,
    ranges: Seq<PosRangeLogUp<P>>,
    t0: Seq<u8>,
    k: nat,
) -> Result<(), SnarkError>
    decreases ranges.len() - k,
{
    if k >= ranges.len() {
        Ok(())
    } else {
        and_also(
            pos_verdict(
                params,
                coms[k as int],
                n,
                ranges[k as int],
                ranges_state(params.verifier_key, coms, n, ranges, t0, k),
            ),
            ranges_verdict(params, coms, n, ranges, t0, k + 1),
        )
    }
}

/// Verify range proofs of several columns.
pub fn verify_ranges<P: MlPcs>(
    ranges: &Vec<&PosRangeLogUp<P>>,
    coms: &Vec<&P::Commitment>,
    n_vars: usize,
    params: &SnarkParams<P>,
    sponge: &mut Transcript,
) -> (r: Result<(), SnarkError>)
    requires
        coms@.len() == ranges@.len(),
        pow2(n_vars as nat) <= usize::MAX,
    ensures
        r == ranges_verdict(
            *params,
            derefs(coms@),
            n_vars as nat,
            derefs(ranges@),
            state_of(*old(sponge)),
            0,
        ),
        r is Ok ==> state_of(*final(sponge)) == ranges_state(
            params.verifier_key,
            derefs(coms@),
            n_vars as nat,
            derefs(ranges@),
            state_of(*old(sponge)),
            ranges@.len(),
        ),
{
    let ghost t0 = state_of(*sponge);
    let ghost cs = derefs(coms@);
    let ghost rs = derefs(ranges@);
    let ghost n = n_vars as nat;
    let mut k: usize = 0;
    while k < ranges.len()
        invariant
            k <= ranges@.len(),
            coms@.len() == ranges@.len(),
            pow2(n_vars as nat) <= usize::MAX,
            t0 == state_of(*old(sponge)),
            cs == derefs(coms@),
            rs == derefs(ranges@),
            n == n_vars,
            state_of(*sponge) == ranges_state(params.verifier_key, cs, n, rs, t0, k as nat),
            ranges_verdict(*params, cs, n, rs, t0, 0) == ranges_verdict(
                *params,
                cs,
                n,
                rs,
                t0,
                k as nat,
            ),
        decreases ranges@.len() - k,
    {
        match verify_pos_range(ranges[k], n_vars, coms[k], params, sponge) {
            Ok(_) => {},
            Err(e) => {
                return Err(e);
            },
        }
        k += 1;
    }
    Ok(())
}

/// What the first range proofs determine does not depend on the later ones.
proof fn lemma_ranges_prefix<P: MlPcs>(
    vk: P::VerifierKey,
    coms: Seq<P::Commitment>,
    n: nat,
    a: Seq<PosRangeLogUp<P>>,
    b: Seq<PosRangeLogUp<P>>,
    t0: Seq<u8>,
    k: nat,
)
    requires
        k <= a.len() <= b.len(),
        forall|i: int| 0 <= i < a.len() ==> a[i] == b[i],
    ensures
        ranges_state(vk, coms, n, a, t0, k) == ranges_state(vk, coms, n, b, t0, k),
    decreases k,
{
    if k > 0 {
        lemma_ranges_prefix(vk, coms, n, a, b, t0, (k - 1) as nat);
    }
}

/// Range proofs that are accepted one by one are accepted together.
proof fn lemma_ranges_ok<P: MlPcs>(
    params: SnarkParams<P>,
    coms: Seq<P::Commitment>,
    n: nat,
    ranges: Seq<PosRangeLogUp<P>>,
    t0: Seq<u8>,
    k: nat,
)
    requires
        forall|i: nat|
            k <= i < ranges.len() ==> pos_verdict(
                params,
                coms[i as int],
                n,
                ranges[i as int],
                #[trigger] ranges_state(params.verifier_key, coms, n, ranges, t0, i),
            ) == Ok::<(), SnarkError>(()),
    ensures
        ranges_verdict(params, coms, n, ranges, t0, k) == Ok::<(), SnarkError>(()),
    decreases ranges.len() - k,
{
    if k < ranges.len() {
        assert(pos_verdict(
            params,
            coms[k as int],
            n,
            ranges[k as int],
            ranges_state(params.verifier_key, coms, n, ranges, t0, k),
        ) == Ok::<(), SnarkError>(()));
        lemma_ranges_ok(params, coms, n, ranges, t0, k + 1);
    }
}

/// Whether range proofs of committed columns are owed: the columns have `2^n`
/// codes in range, the range table was built, and its multiplicities can be
/// committed.
pub open spec fn ranges_provable<P: MlPcs>(
    params: SnarkParams<P>,
    codes: Seq<Seq<i128>>,
    which: Seq<usize>,
    n: nat,
) -> bool {
    let bits = params.gadget_range_bits as nat;
    &&& n >= 1
    &&& params.preprocessed.has_pos_table(bits)
    &&& P::can_commit(params.committer_key, pow2(even_vars(bits)))
    &&& forall|i: int|
        0 <= i < which.len() ==> all_below(
            #[trigger] codes[which[i] as int],
            pow2(bits) as int,
        )
}

/// Prove that the columns at given indices are in range.
pub fn prove_ranges<P: MlPcs>(
    cols: &Vec<Vec<i128>>,
    coms: &Vec<P::Commitment>,
    auxes: &Vec<CommittedAux<P>>,
    which: &Vec<usize>,
    n_vars: usize,
    params: &SnarkParams<P>,
    sponge: &mut Transcript,
    rng: &mut P::Randomness,
) -> (r: Result<Vec<PosRangeLogUp<P>>, SnarkError>)
    requires
        tables_fit(*params),
        columns_committed(params.committer_key, coms@, auxes@, codes_of(cols@)),
        indices_ok(which@, cols@.len()),
        forall|i: int| 0 <= i < cols@.len() ==> (#[trigger] cols@[i])@.len() == pow2(n_vars as nat),
    ensures
        r matches Ok(ranges) ==> {
            &&& ranges@.len() == which@.len()
            &&& forall|i: int|
                0 <= i < which@.len() ==> all_below(
                    #[trigger] codes_of(cols@)[which@[i] as int],
                    pow2(params.gadget_range_bits as nat) as int,
                )
            &&& which@.len() > 0 ==> ranges_provable(
                *params,
                codes_of(cols@),
                which@,
                n_vars as nat,
            )
        },
        ranges_provable(*params, codes_of(cols@), which@, n_vars as nat) ==> {
            &&& r matches Ok(ranges)
            &&& params.keys_match() ==> {
                &&& ranges_verdict(
                    *params,
                    picked(coms@, which@),
                    n_vars as nat,
                    ranges@,
                    state_of(*old(sponge)),
                    0,
                ) == Ok::<(), SnarkError>(())
                &&& state_of(*final(sponge)) == ranges_state(
                    params.verifier_key,
                    picked(coms@, which@),
                    n_vars as nat,
                    ranges@,
                    state_of(*old(sponge)),
                    which@.len(),
                )
            }
        },
{
    let ghost t0 = state_of(*sponge);
    let ghost n = n_vars as nat;
    let ghost cs = picked(coms@, which@);
    let ghost vk = params.verifier_key;
    let ghost codes = codes_of(cols@);
    let ghost bits = params.gadget_range_bits as nat;
    let ghost provable = ranges_provable(*params, codes, which@, n);
    let mut ranges: Vec<PosRangeLogUp<P>> = Vec::with_capacity(which.len());
    let mut k: usize = 0;
    while k < which.len()
        invariant
            k <= which@.len(),
            ranges@.len() == k,
            tables_fit(*params),
            columns_committed(params.committer_key, coms@, auxes@, codes_of(cols@)),
            indices_ok(which@, cols@.len()),
            forall|i: int|
                0 <= i < cols@.len() ==> (#[trigger] cols@[i])@.len() == pow2(n_vars as nat),
            t0 == state_of(*old(sponge)),
            n == n_vars,
            cs == picked(coms@, which@),
            vk == params.verifier_key,
            codes == codes_of(cols@),
            bits == params.gadget_range_bits,
            provable == ranges_provable(*params, codes, which@, n),
            k >= 1 ==> {
                &&& n >= 1
                &&& params.preprocessed.has_pos_table(bits)
                &&& P::can_commit(params.committer_key, pow2(even_vars(bits)))
            },
            forall|i: int|
                0 <= i < k ==> all_below(#[trigger] codes[which@[i] as int], pow2(bits) as int),
            provable && params.keys_match() ==> state_of(*sponge) == ranges_state(
                vk,
                cs,
                n,
                ranges@,
                t0,
                k as nat,
            ),
            provable && params.keys_match() ==> forall|i: nat|
                i < k ==> pos_verdict(
                    *params,
                    cs[i as int],
                    n,
                    ranges@[i as int],
                    #[trigger] ranges_state(vk, cs, n, ranges@, t0, i),
                ) == Ok::<(), SnarkError>(()),
        decreases which@.len() - k,
    {
        let c: usize = which[k];
        let ghost before = ranges@;
        let ghost t = state_of(*sponge);
        proof {
            assert(codes[c as int] == cols@[c as int]@);
            assert(auxes@[c as int].table@.len() == codes[c as int].len());
            assert(aux_of(params.committer_key, coms@[c as int], auxes@[c as int]));
            if n_vars >= 1 {
                lemma_range_column(n);
            }
            assert(codes[which@[k as int] as int] == codes[c as int]);
        }
        let range: PosRangeLogUp<P> = match prove_pos_range(
            auxes[c].table.as_slice(),
            cols[c].as_slice(),
            &auxes[c],
            &coms[c],
            params,
            sponge,
            rng,
        ) {
            Ok(x) => x,
            Err(e) => {
                return Err(e);
            },
        };
        proof {
            lemma_pow2_injective(vals(range.lookup_proof.bottom_point@).len(), n);
            vstd::arithmetic::power2::lemma2_to64();
        }
        ranges.push(range);
        proof {
            if provable && params.keys_match() {
                assert forall|i: nat| i < k + 1 implies pos_verdict(
                    *params,
                    cs[i as int],
                    n,
                    ranges@[i as int],
                    #[trigger] ranges_state(vk, cs, n, ranges@, t0, i),
                ) == Ok::<(), SnarkError>(()) by {
                    lemma_ranges_prefix(vk, cs, n, before, ranges@, t0, i);
                    if i < k {
                        assert(pos_verdict(
                            *params,
                            cs[i as int],
                            n,
                            before[i as int],
                            ranges_state(vk, cs, n, before, t0, i),
                        ) == Ok::<(), SnarkError>(()));
                    }
                }
                lemma_ranges_prefix(vk, cs, n, before, ranges@, t0, k as nat);
            }
        }
        k += 1;
    }
    proof {
        if provable && params.keys_match() {
            lemma_ranges_ok(*params, cs, n, ranges@, t0, 0);
        }
    }
    Ok(ranges)
}

} // verus!
