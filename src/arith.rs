use vstd::prelude::*;

verus! {

pub open spec fn abs(a: int) -> int {
    if a < 0 {
        -a
    } else {
        a
    }
}

/// The quotient of `a / b` rounded toward zero (Rust's `/` on integers).
pub open spec fn trunc_div(a: int, b: int) -> int {
    let q = abs(a) / abs(b);
    if (a < 0) != (b < 0) {
        -q
    } else {
        q
    }
}

/// The remainder of `a / b` rounded toward zero (Rust's `%` on integers):
/// the sign of `a`, the magnitude `|a| mod |b|`.
pub open spec fn trunc_rem(a: int, b: int) -> int {
    let m = abs(a) % abs(b);
    if a < 0 {
        -m
    } else {
        m
    }
}

/// `floor(a / b)`.
pub open spec fn floor_div(a: int, b: int) -> int {
    let q = abs(a) / abs(b);
    if (a < 0) != (b < 0) {
        if abs(a) % abs(b) != 0 {
            -(q + 1)
        } else {
            -q
        }
    } else {
        q
    }
}

/// An integer in `[i64::MIN, i64::MAX + 1]` brought into `i64` by wrapping.
pub open spec fn wrap64(x: int) -> i64 {
    if x > i64::MAX {
        i64::MIN
    } else {
        x as i64
    }
}

fn magnitude(a: i64) -> (r: u128)
    ensures
        r == abs(a as int),
{
    if a < 0 {
        (-(a as i128)) as u128
    } else {
        a as u128
    }
}

/// `a / b` rounded toward zero; `i64::MIN / -1` wraps to `i64::MIN`.
pub fn int_div(a: i64, b: i64) -> (r: i64)
    requires
        b != 0,
    ensures
        r == wrap64(trunc_div(a as int, b as int)),
{
    let ma = magnitude(a);
    let mb = magnitude(b);
    let q = ma / mb;
    assert(q <= ma) by (nonlinear_arith)
        requires
            q == ma / mb,
            mb >= 1,
    ;
    let qi: i128 = if (a < 0) != (b < 0) {
        -(q as i128)
    } else {
        q as i128
    };
    if qi > i64::MAX as i128 {
        i64::MIN
    } else {
        qi as i64
    }
}

/// `a % b` with the sign of `a`.
pub fn int_rem(a: i64, b: i64) -> (r: i64)
    requires
        b != 0,
    ensures
        r == trunc_rem(a as int, b as int),
{
    let ma = magnitude(a);
    let mb = magnitude(b);
    let m = ma % mb;
    assert(m < mb);
    if a < 0 {
        -(m as i128) as i64
    } else {
        m as i64
    }
}

/// `floor(a / b)`; `i64::MIN / -1` wraps to `i64::MIN`.
pub fn int_floor_div(a: i64, b: i64) -> (r: i64)
    requires
        b != 0,
    ensures
        r == wrap64(floor_div(a as int, b as int)),
{
    let ma = magnitude(a);
    let mb = magnitude(b);
    let q = ma / mb;
    let m = ma % mb;
    assert(q <= ma) by (nonlinear_arith)
        requires
            q == ma / mb,
            mb >= 1,
    ;
    assert(m != 0 ==> q < ma) by (nonlinear_arith)
        requires
            q == ma / mb,
            m == ma % mb,
            mb >= 1,
    ;
    let qi: i128 = if (a < 0) != (b < 0) {
        if m != 0 {
            -((q + 1) as i128)
        } else {
            -(q as i128)
        }
    } else {
        q as i128
    };
    if qi > i64::MAX as i128 {
        i64::MIN
    } else {
        qi as i64
    }
}

} // verus!
