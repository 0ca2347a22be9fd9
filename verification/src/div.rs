//! Rounding division.

use vstd::prelude::*;

verus! {

/// `a / b`, rounded up.
pub open spec fn div_up(a: int, b: int) -> int
    recommends
        b > 0,
{
    if a % b == 0 { a / b } else { a / b + 1 }
}

/// Division that rounds up.
pub fn div_up_usize(a: usize, b: usize) -> (r: usize)
    requires
        b > 0,
    ensures
        r == div_up(a as int, b as int),
{
    let q: usize = a / b;
    if a % b == 0 {
        q
    } else {
        assert(q < a) by (nonlinear_arith)
            requires
                b > 0,
                a % b != 0,
                q == a / b,
        ;
        q + 1
    }
}

} // verus!
