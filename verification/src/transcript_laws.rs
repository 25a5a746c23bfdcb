//! What is written to the transcript, and what is read from it.

use crate::bias_accumulator::{BAccEvent, BAccStepProof, b_acc_step_state};
use crate::chain::chain_state;
use crate::chain_init::{ChainInitProof, chain_init_state};
use crate::columns::{lemma_signed_of_residue, lemma_signed_roundtrip, mask};
use crate::commit::{PassCommitments, TensorCommitments};
use crate::field::{fr_bytes, in_field, limb_of, residue, signed_of, vals};
use crate::hidden_identity::{ChainInitFromIdentityProof, identity_init_state};
use crate::openings::{OpeningView, openings_state};
use crate::pcs::{MlPcs, abs_com, batch_open_state, open_state};
use crate::public_binding::signed_code;
use crate::shapes::{matrix_vars, vector_vars};
use crate::transcript::{
    abs_fr, abs_u64, abs_u8, absorbed, after_squeeze, challenged, challenged_n, challenges,
    squeezed,
};
use vstd::prelude::*;

verus! {

/// A 64-bit number is absorbed as the eight bytes that spell it, lowest first.
pub proof fn law_absorbed_number(state: Seq<u8>, x: u64, bytes: Seq<u8>)
    requires
        bytes.len() == 8,
        vstd::bytes::spec_u64_from_le_bytes(bytes) == x,
    ensures
        abs_u64(state, x) == absorbed(state, bytes),
{
    vstd::bytes::lemma_auto_spec_u64_to_from_le_bytes();
}

/// A byte is absorbed as itself.
pub proof fn law_absorbed_byte(state: Seq<u8>, bytes: Seq<u8>)
    requires
        bytes.len() == 1,
    ensures
        abs_u8(state, bytes[0]) == absorbed(state, bytes),
{
    assert(seq![bytes[0]] =~= bytes);
}

/// A field element is absorbed as the 32 bytes that spell it, lowest first:
/// four 64-bit numbers of eight bytes each.
pub proof fn law_absorbed_element(
    state: Seq<u8>,
    x: int,
    b0: Seq<u8>,
    b1: Seq<u8>,
    b2: Seq<u8>,
    b3: Seq<u8>,
)
    requires
        in_field(x),
        b0.len() == 8 && b1.len() == 8 && b2.len() == 8 && b3.len() == 8,
        x == vstd::bytes::spec_u64_from_le_bytes(b0) + 0x1_0000_0000_0000_0000int * (
        vstd::bytes::spec_u64_from_le_bytes(b1) + 0x1_0000_0000_0000_0000int * (
        vstd::bytes::spec_u64_from_le_bytes(b2) + 0x1_0000_0000_0000_0000int
            * vstd::bytes::spec_u64_from_le_bytes(b3))),
    ensures
        abs_fr(state, x) == absorbed(state, b0 + b1 + b2 + b3),
{
    reveal(fr_bytes);
    vstd::bytes::lemma_auto_spec_u64_to_from_le_bytes();
    let (l0, l1, l2, l3) = (
        vstd::bytes::spec_u64_from_le_bytes(b0),
        vstd::bytes::spec_u64_from_le_bytes(b1),
        vstd::bytes::spec_u64_from_le_bytes(b2),
        vstd::bytes::spec_u64_from_le_bytes(b3),
    );
    let r = 0x1_0000_0000_0000_0000int;
    assert(limb_of(x, 0) == l0 && limb_of(x, 1) == l1 && limb_of(x, 2) == l2 && limb_of(x, 3)
        == l3);
    assert(fr_bytes(x) =~= b0 + b1 + b2 + b3);
}

/// A commitment is absorbed as its own bytes.
pub proof fn law_absorbed_commitment<P: MlPcs>(state: Seq<u8>, com: P::Commitment)
    ensures
        abs_com::<P>(state, com) == absorbed(state, P::bytes(com)),
{
}

/// Challenges that are squeezed one at a time: the first is what the state
/// gives, and the others are those of the state behind it.
pub proof fn law_challenges_follow(state: Seq<u8>, k: nat)
    ensures
        challenges(state, 0) == Seq::<int>::empty(),
        challenges(state, k + 1) == seq![squeezed(state, 1)[0]] + challenges(
            after_squeeze(state, 1),
            k,
        ),
        challenged_n(state, 0) == state,
        challenged_n(state, k + 1) == challenged_n(after_squeeze(state, 1), k),
    decreases k,
{
    assert(challenges(state, 0) =~= Seq::<int>::empty());
    lemma_challenged_behind(state, k);
    let rest = challenges(after_squeeze(state, 1), k);
    assert forall|i: int| 0 <= i < k + 1 implies challenges(state, k + 1)[i] == (seq![
        squeezed(state, 1)[0],
    ] + rest)[i] by {
        if i == 0 {
            assert(challenged_n(state, 0) == state);
        } else {
            lemma_challenged_behind(state, (i - 1) as nat);
        }
    }
    assert(challenges(state, k + 1) =~= seq![squeezed(state, 1)[0]] + rest);
}

/// One squeeze and then others are that many squeezes more.
proof fn lemma_challenged_behind(state: Seq<u8>, k: nat)
    ensures
        challenged_n(state, k + 1) == challenged_n(after_squeeze(state, 1), k),
    decreases k,
{
    if k > 0 {
        lemma_challenged_behind(state, (k - 1) as nat);
    } else {
        assert(challenged_n(state, 1) == challenged(challenged_n(state, 0)));
    }
}

/// A residue reads as a signed code exactly where it is that code's residue.
pub proof fn law_readable_codes(x: int, v: i128)
    requires
        in_field(x),
    ensures
        signed_of(x) == Some(v) <==> residue(v as int) == x,
        signed_of(x) is None <==> forall|w: i128| residue(w as int) != x,
{
    lemma_signed_of_residue(x);
    lemma_signed_roundtrip(v);
    assert forall|w: i128| #[trigger] residue(w as int) == x implies signed_of(x) == Some(w) by {
        lemma_signed_roundtrip(w);
    }
}

/// The mask of a layer holds one in the rows of its neurons, and zero in the
/// padding.
pub proof fn law_mask_rows(n: nat, len: nat, i: int)
    requires
        0 <= i < len,
    ensures
        mask(n, len).len() == len,
        i < n ==> mask(n, len)[i] == 1,
        i >= n ==> mask(n, len)[i] == 0,
{
}

/// A signed number is absorbed as its 64 bits in two's complement.
pub proof fn law_signed_code(x: i32)
    ensures
        x >= 0 ==> signed_code(x) == x,
        x < 0 ==> signed_code(x) == x + 0x1_0000_0000_0000_0000int,
{
}

/// The check of a start writes its two commitments and sizes, reads both points,
/// and leaves the transcript where its two openings do.
pub proof fn law_start_leaves<P: MlPcs>(
    vk: P::VerifierKey,
    proof: ChainInitProof<P>,
    pass: PassCommitments<P>,
    coms: TensorCommitments<P>,
    a_n_vars: usize,
    b_n_vars: usize,
    t0: Seq<u8>,
)
    requires
        pass.chain_a@.len() > 0,
        pass.chain_b_acc@.len() > 0,
    ensures
        ({
            let (a, b) = (
                pass.chain_a@[pass.chain_a@.len() - 1],
                pass.chain_b_acc@[pass.chain_b_acc@.len() - 1],
            );
            let t1 = abs_u64(
                abs_u64(
                    absorbed(absorbed(t0, P::bytes(a)), P::bytes(b)),
                    a_n_vars as u64,
                ),
                b_n_vars as u64,
            );
            let t2 = after_squeeze(after_squeeze(t1, a_n_vars as int), b_n_vars as int);
            let t3 = batch_open_state::<P>(
                vk,
                seq![a, coms.spec_c],
                seq![proof.chain_a_eval@, proof.spec_c_eval@],
                vals(proof.r_a@),
                proof.r_a_open,
                a_n_vars as nat,
                t2,
            );
            chain_init_state(vk, proof, pass, coms, a_n_vars, b_n_vars, t0) == batch_open_state::<
                P,
            >(
                vk,
                seq![b, coms.spec_d],
                seq![proof.chain_b_eval@, proof.spec_d_eval@],
                vals(proof.r_b@),
                proof.r_b_open,
                b_n_vars as nat,
                t3,
            )
        }),
{
}

/// The check of a running-bias step writes which step it is, reads its point,
/// and leaves the transcript where its opening does.
pub proof fn law_bias_step_leaves<P: MlPcs>(
    vk: P::VerifierKey,
    proof: BAccStepProof<P>,
    ev: BAccEvent,
    pass: PassCommitments<P>,
    n_vars: usize,
    t0: Seq<u8>,
)
    ensures
        ({
            let kind: u64 = if ev.kind is Linear {
                0
            } else {
                1
            };
            let share = if ev.kind is Linear {
                pass.linear_prod_w@[ev.step as int]
            } else {
                pass.activation_bias_delta@[ev.step as int]
            };
            let t1 = abs_u64(
                abs_u64(abs_u64(abs_u64(t0, kind), ev.layer as u64), ev.step as u64),
                n_vars as u64,
            );
            b_acc_step_state(vk, proof, ev, pass, n_vars, t0) == batch_open_state::<P>(
                vk,
                seq![pass.chain_b_acc@[ev.layer as int], pass.chain_b_acc@[ev.layer + 1], share],
                seq![proof.b_new_eval@, proof.b_old_eval@, proof.delta_eval@],
                vals(proof.r@),
                proof.batched_open,
                n_vars as nat,
                after_squeeze(t1, n_vars as int),
            )
        }),
{
}

/// The check of a hidden pass's start leaves the transcript where its two
/// openings do.
pub proof fn law_identity_start_leaves<P: MlPcs>(
    vk: P::VerifierKey,
    proof: ChainInitFromIdentityProof<P>,
    pass: PassCommitments<P>,
    target: usize,
    n: nat,
    t0: Seq<u8>,
)
    ensures
        ({
            let (a, b) = (pass.chain_a@[target + 1], pass.chain_b_acc@[target + 1]);
            let (an, bn) = (matrix_vars(n, n), vector_vars(n));
            let t1 = abs_u64(
                abs_u64(absorbed(absorbed(t0, P::bytes(a)), P::bytes(b)), an as usize as u64),
                bn as usize as u64,
            );
            let t2 = after_squeeze(after_squeeze(t1, an as int), bn as int);
            let t3 = open_state::<P>(
                vk,
                a,
                vals(proof.r_a@),
                proof.chain_a_eval@,
                proof.chain_a_open,
                an,
                t2,
            );
            identity_init_state(vk, proof, pass, target, n, t0) == open_state::<P>(
                vk,
                b,
                vals(proof.r_b@),
                proof.chain_b_eval@,
                proof.chain_b_open,
                bn,
                t3,
            )
        }),
{
    reveal(identity_init_state);
}

/// Openings of one list leave the transcript one after the other, each where
/// the next one finds it.
pub proof fn law_openings_follow<P: MlPcs>(
    vk: P::VerifierKey,
    claims: Seq<OpeningView<P>>,
    k: nat,
    t0: Seq<u8>,
)
    ensures
        openings_state(vk, claims, 0, t0) == t0,
        openings_state(vk, claims, k + 1, t0) == open_state::<P>(
            vk,
            claims[k as int].commitment,
            claims[k as int].point,
            claims[k as int].value,
            claims[k as int].proof,
            claims[k as int].n_vars,
            openings_state(vk, claims, k, t0),
        ),
{
}

/// Steps of a chain are checked one after the other, each where the one before
/// it left the transcript.
pub proof fn law_steps_follow(next: spec_fn(int, Seq<u8>) -> Seq<u8>, k: nat, t0: Seq<u8>)
    ensures
        chain_state(next, 0, t0) == t0,
        chain_state(next, k + 1, t0) == next(k as int, chain_state(next, k, t0)),
{
}

} // verus!
