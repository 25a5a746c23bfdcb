//! Checks that run one after the other on one transcript.

use crate::errors::{SnarkError, and_also};
use vstd::prelude::*;

verus! {

/// The state after the first `k` checks.
pub open spec fn chain_state(next: spec_fn(int, Seq<u8>) -> Seq<u8>, k: nat, t0: Seq<u8>) -> Seq<u8>
    decreases k,
{
    if k == 0 {
        t0
    } else {
        next(k - 1, chain_state(next, (k - 1) as nat, t0))
    }
}

/// The verdict on the first `k` checks: the first one that fails decides.
pub open spec fn chain_verdict(
    check: spec_fn(int, Seq<u8>) -> Result<(), SnarkError>,
    next: spec_fn(int, Seq<u8>) -> Seq<u8>,
    k: nat,
    t0: Seq<u8>,
) -> Result<(), SnarkError>
    decreases k,
{
    if k == 0 {
        Ok(())
    } else {
        and_also(
            chain_verdict(check, next, (k - 1) as nat, t0),
            and_also(check(k - 1, chain_state(next, (k - 1) as nat, t0)), Ok(())),
        )
    }
}

/// An early failure decides.
pub proof fn lemma_chain_err(
    check: spec_fn(int, Seq<u8>) -> Result<(), SnarkError>,
    next: spec_fn(int, Seq<u8>) -> Seq<u8>,
    j: nat,
    k: nat,
    t0: Seq<u8>,
)
    requires
        j <= k,
        chain_verdict(check, next, j, t0) is Err,
    ensures
        chain_verdict(check, next, k, t0) == chain_verdict(check, next, j, t0),
    decreases k,
{
    if j < k {
        lemma_chain_err(check, next, j, (k - 1) as nat, t0);
    }
}

/// A chain that passes passes each of its checks.
pub proof fn lemma_chain_each(
    check: spec_fn(int, Seq<u8>) -> Result<(), SnarkError>,
    next: spec_fn(int, Seq<u8>) -> Seq<u8>,
    k: nat,
    t0: Seq<u8>,
    i: int,
)
    requires
        chain_verdict(check, next, k, t0) is Ok,
        0 <= i < k,
    ensures
        check(i, chain_state(next, i as nat, t0)) is Ok,
    decreases k,
{
    if i < k - 1 {
        lemma_chain_each(check, next, (k - 1) as nat, t0, i);
    }
}

/// Chains that agree on their first checks agree on what those say.
pub proof fn lemma_chain_prefix(
    check: spec_fn(int, Seq<u8>) -> Result<(), SnarkError>,
    next: spec_fn(int, Seq<u8>) -> Seq<u8>,
    check2: spec_fn(int, Seq<u8>) -> Result<(), SnarkError>,
    next2: spec_fn(int, Seq<u8>) -> Seq<u8>,
    k: nat,
    t0: Seq<u8>,
)
    requires
        forall|i: int, t: Seq<u8>| 0 <= i < k ==> #[trigger] check(i, t) == check2(i, t),
        forall|i: int, t: Seq<u8>| 0 <= i < k ==> #[trigger] next(i, t) == next2(i, t),
    ensures
        chain_state(next, k, t0) == chain_state(next2, k, t0),
        chain_verdict(check, next, k, t0) == chain_verdict(check2, next2, k, t0),
    decreases k,
{
    if k > 0 {
        lemma_chain_prefix(check, next, check2, next2, (k - 1) as nat, t0);
        let t = chain_state(next, (k - 1) as nat, t0);
        assert(check(k - 1, t) == check2(k - 1, t));
        assert(next(k - 1, t) == next2(k - 1, t));
    }
}

} // verus!
