//! Fixed-point conventions shared by the engine.
use vstd::prelude::*;

verus! {

/// The fixed-point value of 1.0 for phases, speeds, gains and coefficients.
pub const UNIT: u64 = 0x1_0000_0000;

/// `UNIT` as a mathematical integer.
pub open spec fn unit() -> int {
    0x1_0000_0000
}

/// `ceil(a / b)` for a non-negative numerator and a positive divisor.
pub open spec fn ceil_div(a: int, b: int) -> int {
    (a + b - 1) / b
}

/// `x` held to the range of `i32`.
pub open spec fn saturate(x: int) -> int {
    if x > i32::MAX {
        i32::MAX as int
    } else if x < i32::MIN {
        i32::MIN as int
    } else {
        x
    }
}

/// Saturating conversion of a wide intermediate result to a sample.
pub fn saturate_i128(x: i128) -> (r: i32)
    ensures
        r == saturate(x as int),
{
    if x > i32::MAX as i128 {
        i32::MAX
    } else if x < i32::MIN as i128 {
        i32::MIN
    } else {
        x as i32
    }
}

/// `floor(n / d)` of a signed numerator by a positive divisor.
pub fn floor_div(n: i128, d: i128) -> (r: i128)
    requires
        d > 0,
        n > i128::MIN,
    ensures
        r == n as int / d as int,
{
    if n >= 0 {
        n / d
    } else {
        let m: i128 = -n;
        let q: i128 = (m - 1) / d;
        proof {
            lemma_floor_of_negative(n as int, d as int);
        }
        -q - 1
    }
}

proof fn lemma_floor_of_negative(n: int, d: int)
    requires
        d > 0,
        n < 0,
    ensures
        n / d == -((-n - 1) / d) - 1,
{
    let q = (-n - 1) / d;
    let r = (-n - 1) % d;
    vstd::arithmetic::div_mod::lemma_fundamental_div_mod(-n - 1, d);
    assert(-n - 1 == d * q + r);
    assert(n == (-q - 1) * d + (d - 1 - r)) by (nonlinear_arith)
        requires
            -n - 1 == d * q + r,
    ;
    assert(0 <= d - 1 - r < d);
    vstd::arithmetic::div_mod::lemma_fundamental_div_mod_converse(n, d, -q - 1, d - 1 - r);
}

} // verus!
