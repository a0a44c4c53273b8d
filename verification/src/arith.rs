//! Machine arithmetic on 32 bit words, as Rust defines it: division and
//! remainder truncate toward zero, and shifts and rotations act on the two's
//! complement bits.

use vstd::prelude::*;

verus! {

/// Division rounding toward zero, as `/` does on machine integers.
pub open spec fn div_trunc(x: int, y: int) -> int {
    let q = abs(x) / abs(y);
    if (x < 0) != (y < 0) {
        -q
    } else {
        q
    }
}

/// The remainder that goes with `div_trunc`, as `%` gives it: it has the sign
/// of `x`.
pub open spec fn rem_trunc(x: int, y: int) -> int {
    x - y * div_trunc(x, y)
}

pub open spec fn abs(x: int) -> int {
    if x < 0 {
        -x
    } else {
        x
    }
}

/// The remainder has the sign of `x` and is smaller than `y` in size.
pub proof fn lemma_rem_trunc_bound(x: int, y: int)
    requires
        y != 0,
    ensures
        abs(rem_trunc(x, y)) < abs(y),
        x >= 0 ==> rem_trunc(x, y) >= 0,
        x <= 0 ==> rem_trunc(x, y) <= 0,
{
    let ax = abs(x);
    let ay = abs(y);
    let aq = ax / ay;
    let q = div_trunc(x, y);
    assert(ax == ay * aq + ax % ay && 0 <= ax % ay < ay && 0 <= aq) by (nonlinear_arith)
        requires
            ay >= 1,
            ax >= 0,
            aq == ax / ay,
    ;
    if x >= 0 && y > 0 {
        assert(y * q == ay * aq);
    } else if x >= 0 && y < 0 {
        assert(y * q == (-ay) * (-aq));
        assert((-ay) * (-aq) == ay * aq) by (nonlinear_arith);
    } else if x < 0 && y > 0 {
        assert(y * q == ay * (-aq));
        assert(ay * (-aq) == -(ay * aq)) by (nonlinear_arith);
    } else {
        assert(y * q == (-ay) * aq);
        assert((-ay) * aq == -(ay * aq)) by (nonlinear_arith);
    }
}

pub fn div_i32(x: i32, y: i32) -> (r: i32)
    requires
        y != 0,
        !(x == i32::MIN && y == -1),
    ensures
        r == div_trunc(x as int, y as int),
{
    let ax: i64 = if x < 0 {
        -(x as i64)
    } else {
        x as i64
    };
    let ay: i64 = if y < 0 {
        -(y as i64)
    } else {
        y as i64
    };
    let q: i64 = ax / ay;
    assert(0 <= q <= ax && (ay >= 2 ==> 2 * q <= ax)) by (nonlinear_arith)
        requires
            ax >= 0,
            ay >= 1,
            q == ax / ay,
    ;
    if (x < 0) != (y < 0) {
        (-q) as i32
    } else {
        q as i32
    }
}

pub fn rem_i32(x: i32, y: i32) -> (r: i32)
    requires
        y != 0,
        !(x == i32::MIN && y == -1),
    ensures
        r == rem_trunc(x as int, y as int),
{
    let q = div_i32(x, y);
    proof {
        let ax = abs(x as int);
        let ay = abs(y as int);
        let aq = ax / ay;
        assert(ax == ay * aq + ax % ay && 0 <= ax % ay < ay && 0 <= aq) by (nonlinear_arith)
            requires
                ay >= 1,
                ax >= 0,
                aq == ax / ay,
        ;
        if x >= 0 && y > 0 {
            assert(y * q == ay * aq);
        } else if x >= 0 && y < 0 {
            assert(y * q == (-ay) * (-aq));
            assert((-ay) * (-aq) == ay * aq) by (nonlinear_arith);
        } else if x < 0 && y > 0 {
            assert(y * q == ay * (-aq));
            assert(ay * (-aq) == -(ay * aq)) by (nonlinear_arith);
        } else {
            assert(y * q == (-ay) * aq);
            assert((-ay) * aq == -(ay * aq)) by (nonlinear_arith);
        }
        assert(x - y * q == if x < 0 {
            -(ax % ay)
        } else {
            ax % ay
        });
    }
    ((x as i64) - (y as i64) * (q as i64)) as i32
}

/// The bits of `x` rotated right by `n` places (`u32::rotate_right`).
pub open spec fn rotate_right(x: u32, n: u32) -> u32 {
    let k = n % 32;
    if k == 0 {
        x
    } else {
        (x >> k) | (x << ((32 - k) as u32))
    }
}

/// The bits of `x` rotated left by `n` places (`u32::rotate_left`).
pub open spec fn rotate_left(x: u32, n: u32) -> u32 {
    let k = n % 32;
    if k == 0 {
        x
    } else {
        (x << k) | (x >> ((32 - k) as u32))
    }
}

pub fn rotate_right_u32(x: u32, n: u32) -> (r: u32)
    ensures
        r == rotate_right(x, n),
{
    let k = n % 32;
    if k == 0 {
        x
    } else {
        (x >> k) | (x << (32 - k))
    }
}

pub fn rotate_left_u32(x: u32, n: u32) -> (r: u32)
    ensures
        r == rotate_left(x, n),
{
    let k = n % 32;
    if k == 0 {
        x
    } else {
        (x << k) | (x >> (32 - k))
    }
}

} // verus!
