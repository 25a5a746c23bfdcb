//! A commitment scheme in the clear: a commitment is the table itself.
//!
//! It binds and hides nothing. It serves to run and test the provers and
//! verifiers, which are written against [`MlPcs`].

use crate::eq_two_product::is_pow2;
use crate::errors::PcsError;
use crate::field::{Fr, fr_bytes, lemma_fr_bytes_len, vals};
use crate::mle::{eval_multilinear_full, log2_exact, mle, pow2_usize};
use crate::pcs::{MlPcs, lemma_pow2_injective};
use ark_crypto_primitives::sponge::merlin::Transcript;
use vstd::arithmetic::power2::{lemma_pow2_pos, lemma_pow2_unfold, pow2};
use vstd::bytes::{lemma_auto_spec_u64_to_from_le_bytes, spec_u64_to_le_bytes, u64_to_le_bytes};
use vstd::prelude::*;

verus! {

/// The scheme.
pub struct ClearPcs {}

/// A key; it holds nothing.
#[derive(Clone, Copy, Debug)]
pub struct ClearKey {}

/// A table of `2^k` entries: one entry, or its lower and its upper half.
pub enum HalvedTable {
    Entry(Fr),
    Halves(Box<HalvedTable>, Box<HalvedTable>),
}

/// The entries of a table.
pub open spec fn entries(t: HalvedTable) -> Seq<int>
    decreases t,
{
    match t {
        HalvedTable::Entry(x) => seq![x@],
        HalvedTable::Halves(lo, hi) => entries(*lo) + entries(*hi),
    }
}

/// A copy of a table.
fn copy_table(t: &HalvedTable) -> (r: HalvedTable)
    ensures
        r == *t,
    decreases t,
{
    match t {
        HalvedTable::Entry(x) => HalvedTable::Entry(*x),
        HalvedTable::Halves(lo, hi) => HalvedTable::Halves(
            Box::new(copy_table(lo)),
            Box::new(copy_table(hi)),
        ),
    }
}

/// The `2^k` entries of a column from an index on, as a table.
fn halved(column: &Vec<Fr>, start: usize, k: usize) -> (r: HalvedTable)
    requires
        start + pow2(k as nat) <= column@.len(),
    ensures
        entries(r) == vals(column@).subrange(start as int, start + pow2(k as nat)),
    decreases k,
{
    let n: usize = column.len();
    if k == 0 {
        proof {
            vstd::arithmetic::power2::lemma2_to64();
        }
        let r: HalvedTable = HalvedTable::Entry(column[start]);
        assert(entries(r) =~= vals(column@).subrange(start as int, start + 1));
        r
    } else {
        proof {
            lemma_pow2_unfold(k as nat);
            lemma_pow2_pos((k - 1) as nat);
        }
        let half: usize = pow2_usize(k - 1);
        let lo: HalvedTable = halved(column, start, k - 1);
        let hi: HalvedTable = halved(column, start + half, k - 1);
        let ghost joined = entries(lo) + entries(hi);
        let r: HalvedTable = HalvedTable::Halves(Box::new(lo), Box::new(hi));
        assert(joined =~= vals(column@).subrange(start as int, start + pow2(k as nat)));
        r
    }
}

/// Append a table's entries to a column.
fn append_entries(t: &HalvedTable, out: &mut Vec<Fr>)
    ensures
        vals(final(out)@) == vals(old(out)@) + entries(*t),
    decreases t,
{
    let ghost before = vals(out@);
    match t {
        HalvedTable::Entry(x) => {
            out.push(*x);
            assert(vals(out@) =~= before + seq![x@]);
        },
        HalvedTable::Halves(lo, hi) => {
            append_entries(lo, out);
            append_entries(hi, out);
            assert(vals(out@) =~= before + (entries(**lo) + entries(**hi)));
        },
    }
}

/// A commitment: a table of at most `2^26` entries.
pub struct ClearCommitment {
    table: HalvedTable,
}

impl ClearCommitment {
    #[verifier::type_invariant]
    spec fn inv(&self) -> bool {
        entries(self.table).len() <= 0x400_0000
    }

    /// The committed table.
    pub closed spec fn view(&self) -> Seq<int> {
        entries(self.table)
    }

    /// The committed table, as a column.
    fn column(&self) -> (r: Vec<Fr>)
        ensures
            vals(r@) == self@,
            r@.len() == self@.len(),
            r@.len() <= 0x400_0000,
    {
        proof {
            use_type_invariant(self);
        }
        let mut out: Vec<Fr> = Vec::new();
        append_entries(&self.table, &mut out);
        assert(vals(out@) =~= self@);
        assert(vals(out@).len() == out@.len());
        out
    }
}

/// The bytes that spell the first `k` entries of a table: its length, and the
/// index and bytes of every entry that is not zero.
pub open spec fn table_bytes(table: Seq<int>, k: nat) -> Seq<u8>
    decreases k,
{
    if k == 0 {
        spec_u64_to_le_bytes(table.len() as u64)
    } else if table[k - 1] == 0 {
        table_bytes(table, (k - 1) as nat)
    } else {
        table_bytes(table, (k - 1) as nat) + (spec_u64_to_le_bytes((k - 1) as u64) + fr_bytes(
            table[k - 1],
        ))
    }
}

/// Spell a table.
fn spell_table(table: &Vec<Fr>) -> (r: Vec<u8>)
    requires
        table@.len() <= 0x400_0000,
    ensures
        r@ == table_bytes(vals(table@), table@.len()),
        r@.len() <= u32::MAX,
{
    broadcast use lemma_fr_bytes_len;

    let ghost tv = vals(table@);
    let zero: Fr = Fr::from_u64(0);
    let n: usize = table.len();
    let mut out: Vec<u8> = u64_to_le_bytes(n as u64);
    proof {
        lemma_auto_spec_u64_to_from_le_bytes();
        assert(tv.len() == n);
    }
    let mut i: usize = 0;
    while i < n
        invariant
            i <= n <= 0x400_0000,
            n == table@.len(),
            tv == vals(table@),
            zero@ == 0,
            out@ == table_bytes(tv, i as nat),
            out@.len() <= 8 + 40 * i,
        decreases n - i,
    {
        broadcast use lemma_fr_bytes_len;

        let x: Fr = table[i];
        assert(tv[i as int] == x@);
        if x != zero {
            let mut index: Vec<u8> = u64_to_le_bytes(i as u64);
            let mut value: Vec<u8> = x.to_bytes();
            proof {
                lemma_auto_spec_u64_to_from_le_bytes();
            }
            index.append(&mut value);
            out.append(&mut index);
        }
        i += 1;
    }
    out
}

/// What is kept of a commitment: nothing.
#[derive(Clone, Copy, Debug)]
pub struct ClearNote {}

/// An opening: the number of tables that it was made for.
#[derive(Clone, Copy, Debug)]
pub struct ClearOpening {
    pub tables: usize,
}

/// A source of randomness that nothing is drawn from.
#[derive(Clone, Copy, Debug)]
pub struct ClearRandomness {}

/// The verdict on a claimed value of a table at a little-endian point.
pub open spec fn clear_verdict(
    table: Seq<int>,
    point: Seq<int>,
    value: int,
    opening: ClearOpening,
) -> Result<bool, PcsError> {
    if table.len() != pow2(point.len()) {
        Err(PcsError::PointSize)
    } else {
        Ok(opening.tables == 1 && value == mle(table, point.reverse()))
    }
}

/// The verdict on claimed values of several tables at one point.
pub open spec fn clear_batch_verdict(
    tables: Seq<Seq<int>>,
    point: Seq<int>,
    values: Seq<int>,
    opening: ClearOpening,
) -> Result<bool, PcsError> {
    if exists|i: int| 0 <= i < tables.len() && (#[trigger] tables[i]).len() != pow2(point.len()) {
        Err(PcsError::PointSize)
    } else {
        Ok(
            opening.tables == tables.len() && forall|i: int|
                0 <= i < tables.len() ==> values[i] == mle(#[trigger] tables[i], point.reverse()),
        )
    }
}

/// A point with its coordinates in the other order.
fn reversed(point: &Vec<Fr>) -> (r: Vec<Fr>)
    ensures
        vals(r@) == vals(point@).reverse(),
        r@.len() == point@.len(),
{
    let n: usize = point.len();
    let mut out: Vec<Fr> = Vec::with_capacity(n);
    let mut i: usize = 0;
    while i < n
        invariant
            i <= n,
            n == point@.len(),
            out@.len() == i,
            forall|k: int| 0 <= k < i ==> (#[trigger] out@[k])@ == vals(point@).reverse()[k],
        decreases n - i,
    {
        out.push(point[n - 1 - i]);
        i += 1;
    }
    assert(vals(out@) =~= vals(point@).reverse());
    out
}

/// Whether a table has `2^k` entries.
fn has_pow2_len(t: &Vec<Fr>, k: usize) -> (r: bool)
    ensures
        r == (t@.len() == pow2(k as nat)),
{
    match log2_exact(t.len()) {
        None => false,
        Some(l) => {
            proof {
                lemma_pow2_injective(l as nat, k as nat);
            }
            l == k
        },
    }
}

/// Check a claimed value of a committed table.
fn check_value(com: &ClearCommitment, point: &Vec<Fr>, value: Fr) -> (r: Result<bool, PcsError>)
    ensures
        r == clear_verdict(com@, vals(point@), value@, (ClearOpening { tables: 1 })),
{
    let table: Vec<Fr> = com.column();
    assert(vals(point@).len() == point@.len());
    if !has_pow2_len(&table, point.len()) {
        return Err(PcsError::PointSize);
    }
    let be: Vec<Fr> = reversed(point);
    Ok(value == eval_multilinear_full(table.as_slice(), be.as_slice()))
}

/// The tables of commitments.
pub open spec fn clear_tables(coms: Seq<ClearCommitment>) -> Seq<Seq<int>> {
    Seq::new(coms.len(), |i: int| coms[i]@)
}

impl MlPcs for ClearPcs {
    type CommitterKey = ClearKey;

    type VerifierKey = ClearKey;

    type Commitment = ClearCommitment;

    type State = ClearNote;

    type Proof = ClearOpening;

    type Randomness = ClearRandomness;

    open spec fn keys_match(ck: ClearKey, vk: ClearKey) -> bool {
        true
    }

    open spec fn can_commit(ck: ClearKey, len: nat) -> bool {
        is_pow2(len) && len <= 0x400_0000
    }

    open spec fn committed(
        ck: ClearKey,
        com: ClearCommitment,
        state: ClearNote,
        table: Seq<int>,
    ) -> bool {
        com@ == table
    }

    open spec fn bytes(com: ClearCommitment) -> Seq<u8> {
        table_bytes(com@, com@.len())
    }

    open spec fn verdict(
        vk: ClearKey,
        com: ClearCommitment,
        point: Seq<int>,
        value: int,
        proof: ClearOpening,
        t0: Seq<u8>,
    ) -> Result<bool, PcsError> {
        clear_verdict(com@, point, value, proof)
    }

    open spec fn verdict_state(
        vk: ClearKey,
        com: ClearCommitment,
        point: Seq<int>,
        value: int,
        proof: ClearOpening,
        t0: Seq<u8>,
    ) -> Seq<u8> {
        t0
    }

    open spec fn batch_verdict(
        vk: ClearKey,
        coms: Seq<ClearCommitment>,
        point: Seq<int>,
        values: Seq<int>,
        proof: ClearOpening,
        t0: Seq<u8>,
    ) -> Result<bool, PcsError> {
        clear_batch_verdict(clear_tables(coms), point, values, proof)
    }

    open spec fn batch_verdict_state(
        vk: ClearKey,
        coms: Seq<ClearCommitment>,
        point: Seq<int>,
        values: Seq<int>,
        proof: ClearOpening,
        t0: Seq<u8>,
    ) -> Seq<u8> {
        t0
    }

    fn commit(ck: &ClearKey, table: &Vec<Fr>, rng: &mut ClearRandomness) -> (r: Result<
        (ClearCommitment, ClearNote),
        PcsError,
    >) {
        match log2_exact(table.len()) {
            None => Err(PcsError::UnsupportedLength),
            Some(l) => {
                assert(pow2(l as nat) == table@.len());
                if table.len() > 0x400_0000 {
                    return Err(PcsError::UnsupportedLength);
                }
                let kept: HalvedTable = halved(table, 0, l);
                assert(vals(table@).subrange(0, table@.len() as int) =~= vals(table@));
                Ok((ClearCommitment { table: kept }, ClearNote {  }))
            },
        }
    }

    fn to_bytes(com: &ClearCommitment) -> (r: Vec<u8>) {
        let table: Vec<Fr> = com.column();
        spell_table(&table)
    }

    fn duplicate(com: &ClearCommitment) -> (r: ClearCommitment) {
        proof {
            use_type_invariant(com);
        }
        ClearCommitment { table: copy_table(&com.table) }
    }

    fn open(
        ck: &ClearKey,
        table: &Vec<Fr>,
        com: &ClearCommitment,
        state: &ClearNote,
        point: &Vec<Fr>,
        t: &mut Transcript,
        rng: &mut ClearRandomness,
    ) -> (r: Result<(Fr, ClearOpening), PcsError>) {
        assert(vals(point@).len() == point@.len());
        assert(vals(table@).len() == table@.len());
        let be: Vec<Fr> = reversed(point);
        let value: Fr = eval_multilinear_full(table.as_slice(), be.as_slice());
        Ok((value, ClearOpening { tables: 1 }))
    }

    fn verify(
        vk: &ClearKey,
        com: &ClearCommitment,
        point: &Vec<Fr>,
        value: Fr,
        proof: &ClearOpening,
        t: &mut Transcript,
    ) -> (r: Result<bool, PcsError>) {
        match check_value(com, point, value) {
            Ok(b) => Ok(b && proof.tables == 1),
            Err(e) => Err(e),
        }
    }

    fn open_batched(
        ck: &ClearKey,
        tables: &Vec<&Vec<Fr>>,
        coms: &Vec<&ClearCommitment>,
        states: &Vec<&ClearNote>,
        point: &Vec<Fr>,
        t: &mut Transcript,
        rng: &mut ClearRandomness,
    ) -> (r: Result<(Vec<Fr>, ClearOpening), PcsError>) {
        assert(vals(point@).len() == point@.len());
        let be: Vec<Fr> = reversed(point);
        let mut values: Vec<Fr> = Vec::with_capacity(tables.len());
        let mut i: usize = 0;
        while i < tables.len()
            invariant
                i <= tables@.len(),
                vals(be@) == vals(point@).reverse(),
                be@.len() == point@.len(),
                forall|k: int|
                    0 <= k < tables@.len() ==> (#[trigger] tables@[k])@.len() == pow2(
                        point@.len(),
                    ),
                values@.len() == i,
                forall|k: int|
                    0 <= k < i ==> (#[trigger] values@[k])@ == mle(
                        vals(tables@[k]@),
                        vals(point@).reverse(),
                    ),
            decreases tables@.len() - i,
        {
            assert(tables@[i as int]@.len() == pow2(point@.len()));
            values.push(eval_multilinear_full(tables[i].as_slice(), be.as_slice()));
            i += 1;
        }
        proof {
            let want = Seq::new(
                tables@.len(),
                |k: int| mle(vals(tables@[k]@), vals(point@).reverse()),
            );
            assert(vals(values@) =~= want);
            let all = clear_tables(Seq::new(coms@.len(), |k: int| *coms@[k]));
            if forall|k: int|
                0 <= k < tables@.len() ==> Self::committed(
                    *ck,
                    *coms@[k],
                    *states@[k],
                    vals((#[trigger] tables@[k])@),
                ) {
                assert forall|k: int| 0 <= k < all.len() implies #[trigger] all[k] == vals(
                    tables@[k]@,
                ) && all[k].len() == pow2(vals(point@).len()) by {
                    assert(Self::committed(*ck, *coms@[k], *states@[k], vals(tables@[k]@)));
                    assert(vals(tables@[k]@).len() == tables@[k]@.len());
                }
                assert forall|k: int| 0 <= k < all.len() implies vals(values@)[k] == mle(
                    #[trigger] all[k],
                    vals(point@).reverse(),
                ) by {}
            }
        }
        Ok((values, ClearOpening { tables: tables.len() }))
    }

    fn verify_batched(
        vk: &ClearKey,
        coms: &Vec<&ClearCommitment>,
        point: &Vec<Fr>,
        values: &Vec<Fr>,
        proof: &ClearOpening,
        t: &mut Transcript,
    ) -> (r: Result<bool, PcsError>) {
        let ghost all = clear_tables(Seq::new(coms@.len(), |i: int| *coms@[i]));
        let ghost pt = vals(point@);
        let mut ok: bool = true;
        let mut i: usize = 0;
        while i < coms.len()
            invariant
                i <= coms@.len(),
                coms@.len() == values@.len(),
                all == clear_tables(Seq::new(coms@.len(), |i: int| *coms@[i])),
                pt == vals(point@),
                forall|k: int| 0 <= k < i ==> (#[trigger] all[k]).len() == pow2(pt.len()),
                ok == forall|k: int|
                    0 <= k < i ==> vals(values@)[k] == mle(#[trigger] all[k], pt.reverse()),
            decreases coms@.len() - i,
        {
            assert(all[i as int] == coms@[i as int]@);
            assert(vals(values@)[i as int] == values@[i as int]@);
            match check_value(coms[i], point, values[i]) {
                Ok(b) => {
                    if !b {
                        ok = false;
                        assert(vals(values@)[i as int] != mle(all[i as int], pt.reverse()));
                    }
                },
                Err(e) => {
                    assert(all[i as int].len() != pow2(pt.len()));
                    return Err(e);
                },
            }
            i += 1;
        }
        Ok(ok && proof.tables == coms.len())
    }
}

} // verus!
