//! Fixed-point scales.

use vstd::prelude::*;

verus! {

/// The scale `c 2^e`: a number `x` is stored as the code `x c 2^e`.
#[derive(Clone, Copy, Debug, PartialEq, Eq, Structural)]
pub struct Scale {
    pub c: i64,
    pub e: i32,
}

/// A scale is not a power of two.
#[derive(Clone, Copy, Debug, PartialEq, Eq, Structural)]
pub struct NotPowerOfTwo {}

impl Scale {
    /// The scale `2^e`.
    pub fn from_pow2(e: i32) -> (r: Scale)
        ensures
            r.c == 1,
            r.e == e,
    {
        Scale { c: 1, e }
    }

    /// Whether the scale is a power of two.
    pub open spec fn spec_is_pow2(&self) -> bool {
        self.c == 1
    }

    /// Whether the scale is a power of two.
    pub fn is_pow2(&self) -> (r: bool)
        ensures
            r == self.spec_is_pow2(),
    {
        self.c == 1
    }

    /// The exponent of a power of two.
    pub fn pow2_exponent(&self) -> (r: Result<i32, NotPowerOfTwo>)
        ensures
            r is Ok <==> self.spec_is_pow2(),
            r matches Ok(e) ==> e == self.e,
    {
        if self.c == 1 {
            Ok(self.e)
        } else {
            Err(NotPowerOfTwo {  })
        }
    }
}

} // verus!
