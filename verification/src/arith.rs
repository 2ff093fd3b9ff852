//! Division that rounds down, and the grid lines next to a coordinate.

use vstd::prelude::*;
use vstd::arithmetic::div_mod::{
    lemma_div_decreases,
    lemma_fundamental_div_mod,
    lemma_fundamental_div_mod_converse,
};

verus! {

/// The largest multiple of `pitch` that is not above `v`.
pub open spec fn grid_floor(v: int, pitch: int) -> int {
    (v / pitch) * pitch
}

/// The smallest multiple of `pitch` that is not below `v`.
pub open spec fn grid_ceil(v: int, pitch: int) -> int {
    -grid_floor(-v, pitch)
}

/// The integer nearest to `a / b`, halves rounded up.
pub open spec fn round_div(a: int, b: int) -> int {
    (2 * a + b) / (2 * b)
}

/// `grid_floor(v, pitch)` is the one multiple of `pitch` in `(v - pitch, v]`.
pub proof fn lemma_grid_floor(v: int, pitch: int)
    requires
        pitch > 0,
    ensures
        grid_floor(v, pitch) % pitch == 0,
        grid_floor(v, pitch) <= v < grid_floor(v, pitch) + pitch,
        v % pitch == 0 ==> grid_floor(v, pitch) == v,
{
    lemma_fundamental_div_mod(v, pitch);
    let q = v / pitch;
    assert(q * pitch == pitch * q) by (nonlinear_arith);
    assert((q * pitch) % pitch == 0) by {
        lemma_fundamental_div_mod_converse(q * pitch, pitch, q, 0);
    }
}

/// `grid_ceil(v, pitch)` is the one multiple of `pitch` in `[v, v + pitch)`.
pub proof fn lemma_grid_ceil(v: int, pitch: int)
    requires
        pitch > 0,
    ensures
        grid_ceil(v, pitch) % pitch == 0,
        v <= grid_ceil(v, pitch) < v + pitch,
        v % pitch == 0 ==> grid_ceil(v, pitch) == v,
        grid_floor(v, pitch) <= grid_ceil(v, pitch),
{
    lemma_grid_floor(-v, pitch);
    lemma_grid_floor(v, pitch);
    let f = grid_floor(-v, pitch);
    let q = (-v) / pitch;
    assert(-f == (-q) * pitch) by (nonlinear_arith)
        requires
            f == q * pitch,
    ;
    lemma_fundamental_div_mod_converse(-f, pitch, -q, 0);
    if v % pitch == 0 {
        let w = v / pitch;
        lemma_fundamental_div_mod(v, pitch);
        assert(-v == (-w) * pitch) by (nonlinear_arith)
            requires
                v == pitch * w,
        ;
        lemma_fundamental_div_mod_converse(-v, pitch, -w, 0);
    }
}

/// Floor of the quotient, for a positive divisor.
pub fn floor_div(a: i128, b: i128) -> (q: i128)
    requires
        b > 0,
    ensures
        q == a / b,
{
    let t: i128 = a / b;
    let r: i128 = a % b;
    proof {
        if a < 0 {
            lemma_fundamental_div_mod(-a, b as int);
            if r < 0 {
                assert(b > 1);
                lemma_div_decreases(-a, b as int);
                assert(a == (t - 1) * b + (r + b)) by (nonlinear_arith)
                    requires
                        -a == b * (-t) + (-r),
                ;
                lemma_fundamental_div_mod_converse(a as int, b as int, t - 1, r + b);
            } else {
                assert(a == t * b + r) by (nonlinear_arith)
                    requires
                        -a == b * (-t) + (-r),
                ;
                lemma_fundamental_div_mod_converse(a as int, b as int, t as int, r as int);
            }
        }
    }
    if r < 0 {
        t - 1
    } else {
        t
    }
}

} // verus!
