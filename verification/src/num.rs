//! Integer arithmetic shared by the search: ordering helpers, division that
//! rounds towards zero, and two's complement wrapping stated over `int`.
use vstd::prelude::*;

verus! {

pub open spec fn max2(a: int, b: int) -> int {
    if a >= b { a } else { b }
}

pub open spec fn min2(a: int, b: int) -> int {
    if a <= b { a } else { b }
}

pub open spec fn abs1(a: int) -> int {
    if a >= 0 { a } else { -a }
}

/// The nearest value to `a` in `lo..=hi`.
pub open spec fn clamp3(a: int, lo: int, hi: int) -> int {
    if a < lo { lo } else if a > hi { hi } else { a }
}

/// Division that rounds towards zero.
pub open spec fn tdiv(a: int, b: int) -> int {
    if a >= 0 { a / b } else { -((-a) / b) }
}

pub open spec fn b2i(b: bool) -> int {
    if b { 1 } else { 0 }
}

pub fn imax(a: i32, b: i32) -> (r: i32)
    ensures
        r == max2(a as int, b as int),
{
    if a >= b { a } else { b }
}

pub fn imin(a: i32, b: i32) -> (r: i32)
    ensures
        r == min2(a as int, b as int),
{
    if a <= b { a } else { b }
}

pub fn iabs(a: i32) -> (r: i32)
    requires
        a > i32::MIN,
    ensures
        r == abs1(a as int),
{
    if a >= 0 { a } else { -a }
}

pub fn iclamp(a: i32, lo: i32, hi: i32) -> (r: i32)
    requires
        lo <= hi,
    ensures
        r == clamp3(a as int, lo as int, hi as int),
{
    if a < lo { lo } else if a > hi { hi } else { a }
}

pub fn idiv(a: i32, b: i32) -> (r: i32)
    requires
        b > 0,
    ensures
        r == tdiv(a as int, b as int),
{
    a / b
}

pub fn int_of(b: bool) -> (r: i32)
    ensures
        r == b2i(b),
{
    if b { 1 } else { 0 }
}

pub fn umin(a: usize, b: usize) -> (r: usize)
    ensures
        r == min2(a as int, b as int),
{
    if a <= b { a } else { b }
}

/// Floor of the base two logarithm, zero for anything below one.
pub open spec fn log2_floor(v: int) -> int
    decreases v,
{
    if v <= 1 { 0 } else { 1 + log2_floor(v / 2) }
}

/// Dividing towards zero never grows a number.
pub proof fn lemma_tdiv_bound(a: int, b: int)
    requires
        b > 0,
    ensures
        abs1(tdiv(a, b)) <= abs1(a),
        a >= 0 ==> 0 <= tdiv(a, b) <= a,
        a <= 0 ==> a <= tdiv(a, b) <= 0,
{
    let m = abs1(a);
    assert(0 <= m / b <= m) by (nonlinear_arith)
        requires
            b > 0,
            m >= 0,
    ;
}

}
