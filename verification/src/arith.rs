//! Integer helpers for the fixed-point grid: division that rounds down, and
//! the integer square root.

use vstd::arithmetic::div_mod::{
    lemma_fundamental_div_mod, lemma_fundamental_div_mod_converse, lemma_mod_bound,
};
use vstd::prelude::*;

verus! {

/// The quotient of `a` by `n`, rounded toward negative infinity.
pub fn floor_div(a: i128, n: i128) -> (q: i128)
    requires
        n > 0,
    ensures
        q == a as int / n as int,
{
    if a >= 0 {
        a / n
    } else {
        let t: i128 = -(a + 1);
        let qt: i128 = t / n;
        proof {
            let rt = t as int % n as int;
            lemma_fundamental_div_mod(t as int, n as int);
            lemma_mod_bound(t as int, n as int);
            assert(a as int == (-(qt as int) - 1) * n as int + (n as int - rt - 1)) by (nonlinear_arith)
                requires
                    t as int == n as int * (qt as int) + rt,
                    a as int == -(t as int) - 1,
            ;
            lemma_fundamental_div_mod_converse(
                a as int,
                n as int,
                -(qt as int) - 1,
                n as int - rt - 1,
            );
        }
        -qt - 1
    }
}

/// A mean lies between the least and the greatest value that was summed.
pub proof fn lemma_mean_in_range(sum: int, n: int)
    requires
        n > 0,
        n * i32::MIN <= sum <= n * i32::MAX,
    ensures
        i32::MIN <= sum / n <= i32::MAX,
        0 <= sum - n * (sum / n) < n,
{
    let q = sum / n;
    lemma_fundamental_div_mod(sum, n);
    lemma_mod_bound(sum, n);
    assert(i32::MIN <= q <= i32::MAX) by (nonlinear_arith)
        requires
            n > 0,
            n * i32::MIN <= sum <= n * i32::MAX,
            q == sum / n,
            sum == n * (sum / n) + sum % n,
            0 <= sum % n < n,
    ;
}

/// The integer square root: the greatest `r` whose square does not exceed `n`.
pub fn isqrt(n: u64) -> (r: u64)
    ensures
        r * r <= n < (r + 1) * (r + 1),
{
    let mut lo: u64 = 0;
    let mut hi: u64 = 0x1_0000_0000;
    assert(0x1_0000_0000 * 0x1_0000_0000 > u64::MAX) by (nonlinear_arith);
    while hi - lo > 1
        invariant
            lo < hi <= 0x1_0000_0000,
            lo * lo <= n < hi * hi,
        decreases hi - lo,
    {
        let mid: u64 = lo + (hi - lo) / 2;
        assert(mid * mid <= 0x1_0000_0000 * 0x1_0000_0000) by (nonlinear_arith)
            requires
                0 <= mid <= 0x1_0000_0000,
        ;
        if (mid as u128) * (mid as u128) <= n as u128 {
            lo = mid;
        } else {
            hi = mid;
        }
    }
    lo
}

} // verus!
