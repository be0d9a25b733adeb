//! Exact integer arithmetic shared by the rest of the library: division that
//! rounds toward zero, clamping into the component range, integer square
//! roots, and comparison of products that do not fit in 128 bits.

use vstd::prelude::*;

verus! {

/// Quotient of `a` by a positive `b`, rounded toward zero.
pub open spec fn trunc_div(a: int, b: int) -> int {
    if a >= 0 {
        a / b
    } else {
        -((-a) / b)
    }
}

/// `v` clamped into the range of a vector component.
pub open spec fn clamp_component(v: int) -> int {
    if v < i32::MIN {
        i32::MIN as int
    } else if v > i32::MAX {
        i32::MAX as int
    } else {
        v
    }
}

/// Whether `r` is the integer part of the square root of `n`.
pub open spec fn is_floor_sqrt(n: int, r: int) -> bool {
    r >= 0 && r * r <= n < (r + 1) * (r + 1)
}

/// The integer part of the square root of a non-negative `n`.
pub open spec fn floor_sqrt(n: int) -> int {
    choose|r: int| is_floor_sqrt(n, r)
}

/// The square root of a non-negative `n`, rounded up.
pub open spec fn ceil_sqrt(n: int) -> int {
    let r = floor_sqrt(n);
    if r * r == n {
        r
    } else {
        r + 1
    }
}

/// A non-negative number has exactly one integer square root.
pub proof fn lemma_floor_sqrt_unique(n: int, a: int, b: int)
    requires
        is_floor_sqrt(n, a),
        is_floor_sqrt(n, b),
    ensures
        a == b,
{
    if a < b {
        assert((a + 1) * (a + 1) <= b * b) by (nonlinear_arith)
            requires
                0 <= a,
                a + 1 <= b,
        ;
    }
    if b < a {
        assert((b + 1) * (b + 1) <= a * a) by (nonlinear_arith)
            requires
                0 <= b,
                b + 1 <= a,
        ;
    }
}

/// Any `r` that squares to at most `n` while `r + 1` squares above it is the
/// value of `floor_sqrt(n)`.
pub proof fn lemma_floor_sqrt_is(n: int, r: int)
    requires
        is_floor_sqrt(n, r),
    ensures
        floor_sqrt(n) == r,
{
    lemma_floor_sqrt_unique(n, r, floor_sqrt(n));
}

/// Every non-negative number has an integer square root.
pub proof fn lemma_floor_sqrt_exists(n: int)
    requires
        n >= 0,
    ensures
        is_floor_sqrt(n, floor_sqrt(n)),
    decreases n,
{
    if n == 0 {
        assert(is_floor_sqrt(0, 0));
    } else {
        lemma_floor_sqrt_exists(n - 1);
        let r = floor_sqrt(n - 1);
        if (r + 1) * (r + 1) <= n {
            assert((r + 1) * (r + 1) == n);
            assert(n < (r + 2) * (r + 2)) by (nonlinear_arith)
                requires
                    (r + 1) * (r + 1) == n,
                    r >= 0,
            ;
            assert(is_floor_sqrt(n, r + 1));
        } else {
            assert(is_floor_sqrt(n, r));
        }
    }
}

/// The square root rounded up is the least number whose square reaches `n`.
pub proof fn lemma_ceil_sqrt(n: int)
    requires
        n >= 0,
    ensures
        ceil_sqrt(n) >= 0,
        ceil_sqrt(n) * ceil_sqrt(n) >= n,
        n > 0 ==> ceil_sqrt(n) >= 1 && (ceil_sqrt(n) - 1) * (ceil_sqrt(n) - 1) < n,
{
    lemma_floor_sqrt_exists(n);
    let r = floor_sqrt(n);
    if r * r == n && n > 0 {
        assert(r >= 1 && (r - 1) * (r - 1) < r * r) by (nonlinear_arith)
            requires
                r * r == n,
                n > 0,
                r >= 0,
        ;
    }
}

/// `trunc_div` never moves away from zero, keeps the sign, and is within one
/// divisor of the exact quotient.
pub proof fn lemma_trunc_div_bounds(a: int, b: int)
    requires
        b > 0,
    ensures
        a >= 0 ==> 0 <= trunc_div(a, b) * b <= a < trunc_div(a, b) * b + b,
        a <= 0 ==> trunc_div(a, b) * b - b < a <= trunc_div(a, b) * b <= 0,
        a >= 0 ==> 0 <= trunc_div(a, b) <= a,
        a <= 0 ==> a <= trunc_div(a, b) <= 0,
        trunc_div(-a, b) == -trunc_div(a, b),
{
    if a >= 0 {
        let q = a / b;
        assert(0 <= q * b <= a < q * b + b && 0 <= q <= a) by (nonlinear_arith)
            requires
                a >= 0,
                b > 0,
                q == a / b,
        ;
    }
    if a <= 0 {
        let m = -a;
        let q = m / b;
        assert(0 <= q * b <= m < q * b + b && 0 <= q <= m) by (nonlinear_arith)
            requires
                m >= 0,
                b > 0,
                q == m / b,
        ;
        assert((-q) * b == -(q * b)) by (nonlinear_arith);
        if a == 0 {
            assert(0int / b == 0) by (nonlinear_arith)
                requires
                    b > 0,
            ;
        }
    }
}

/// `trunc_div` is monotone in its dividend.
pub proof fn lemma_trunc_div_monotone(a1: int, a2: int, b: int)
    requires
        b > 0,
        a1 <= a2,
    ensures
        trunc_div(a1, b) <= trunc_div(a2, b),
{
    lemma_trunc_div_bounds(a1, b);
    lemma_trunc_div_bounds(a2, b);
    let q1 = trunc_div(a1, b);
    let q2 = trunc_div(a2, b);
    if q1 > q2 {
        assert(q1 * b >= q2 * b + b) by (nonlinear_arith)
            requires
                q1 >= q2 + 1,
                b > 0,
        ;
    }
}

/// An exact multiple divides back to its factor.
pub proof fn lemma_trunc_div_multiple(q: int, b: int)
    requires
        b > 0,
    ensures
        trunc_div(q * b, b) == q,
{
    lemma_trunc_div_bounds(q * b, b);
    let t = trunc_div(q * b, b);
    if t > q {
        assert(t * b >= q * b + b) by (nonlinear_arith)
            requires
                t >= q + 1,
                b > 0,
        ;
        assert(q >= 0 ==> q * b >= 0) by (nonlinear_arith)
            requires
                b > 0,
        ;
        assert(q < 0 ==> q * b < 0) by (nonlinear_arith)
            requires
                b > 0,
        ;
    }
    if t < q {
        assert(t * b + b <= q * b) by (nonlinear_arith)
            requires
                t + 1 <= q,
                b > 0,
        ;
        assert(q > 0 ==> q * b > 0) by (nonlinear_arith)
            requires
                b > 0,
        ;
        assert(q <= 0 ==> q * b <= 0) by (nonlinear_arith)
            requires
                b > 0,
        ;
    }
}

/// Clamps a wide value into the range of a vector component.
pub fn saturate(v: i128) -> (r: i32)
    ensures
        r == clamp_component(v as int),
{
    if v < -0x8000_0000 {
        i32::MIN
    } else if v > 0x7fff_ffff {
        i32::MAX
    } else {
        v as i32
    }
}

/// Divides by a positive divisor, rounding toward zero.
pub fn div_toward_zero(a: i128, b: i128) -> (q: i128)
    requires
        b > 0,
    ensures
        q == trunc_div(a as int, b as int),
{
    a / b
}

/// Integer part of the square root.
pub fn integer_sqrt(n: u128) -> (r: u64)
    ensures
        r == floor_sqrt(n as int),
        is_floor_sqrt(n as int, r as int),
{
    let mut lo: u128 = 0;
    let mut hi: u128 = 0x1_0000_0000_0000_0000;
    assert(hi * hi > n) by (nonlinear_arith)
        requires
            hi == 0x1_0000_0000_0000_0000u128,
            n <= u128::MAX,
    ;
    while hi - lo > 1
        invariant
            lo < hi <= 0x1_0000_0000_0000_0000,
            lo * lo <= n < hi * hi,
        decreases hi - lo,
    {
        let mid: u128 = lo + (hi - lo) / 2;
        assert(mid * mid < 0x1_0000_0000_0000_0000 * 0x1_0000_0000_0000_0000) by (nonlinear_arith)
            requires
                0 <= mid < 0x1_0000_0000_0000_0000,
        ;
        if mid * mid <= n {
            lo = mid;
        } else {
            hi = mid;
        }
    }
    proof {
        assert(hi == lo + 1);
        lemma_floor_sqrt_is(n as int, lo as int);
    }
    lo as u64
}

/// Square root rounded up.
pub fn integer_sqrt_ceil(n: u128) -> (r: u128)
    ensures
        r == ceil_sqrt(n as int),
        r <= 0x1_0000_0000_0000_0000,
        r * r >= n,
        n > 0 ==> r >= 1 && (r - 1) * (r - 1) < n,
{
    let f: u64 = integer_sqrt(n);
    let wide: u128 = f as u128;
    assert(wide * wide <= n);
    if wide * wide == n {
        assert(n > 0 ==> wide >= 1 && (wide - 1) * (wide - 1) < wide * wide) by (nonlinear_arith)
            requires
                wide * wide == n,
                wide >= 0,
        ;
        wide
    } else {
        wide + 1
    }
}

/// Largest second factor accepted by [`product_at_least`].
pub const FACTOR_LIMIT: u64 = 0x4000_0000_0000_0000;

/// A product of up to 192 bits, held as `high * 2^64 + low`.
struct WideProduct {
    high: u128,
    low: u64,
}

impl WideProduct {
    spec fn value(self) -> int {
        self.high * 0x1_0000_0000_0000_0000 + self.low
    }

    /// The exact product of `a` and `b`.
    fn of(a: u128, b: u64) -> (p: WideProduct)
        requires
            b <= FACTOR_LIMIT,
        ensures
            p.value() == a * b,
    {
        let upper: u128 = a / 0x1_0000_0000_0000_0000;
        let lower: u128 = a % 0x1_0000_0000_0000_0000;
        let factor: u128 = b as u128;
        assert(upper * factor <= 0xffff_ffff_ffff_ffff * 0x4000_0000_0000_0000) by (nonlinear_arith)
            requires
                0 <= upper <= 0xffff_ffff_ffff_ffff,
                0 <= factor <= 0x4000_0000_0000_0000,
        ;
        assert(lower * factor <= 0xffff_ffff_ffff_ffff * 0x4000_0000_0000_0000) by (nonlinear_arith)
            requires
                0 <= lower <= 0xffff_ffff_ffff_ffff,
                0 <= factor <= 0x4000_0000_0000_0000,
        ;
        let low_part: u128 = lower * factor;
        let high_part: u128 = upper * factor;
        assert(a * b == high_part * 0x1_0000_0000_0000_0000 + low_part) by (nonlinear_arith)
            requires
                a == upper * 0x1_0000_0000_0000_0000 + lower,
                high_part == upper * factor,
                low_part == lower * factor,
                factor == b,
        ;
        WideProduct {
            high: high_part + low_part / 0x1_0000_0000_0000_0000,
            low: (low_part % 0x1_0000_0000_0000_0000) as u64,
        }
    }

    fn at_least(&self, other: &WideProduct) -> (r: bool)
        ensures
            r == (self.value() >= other.value()),
    {
        self.high > other.high || (self.high == other.high && self.low >= other.low)
    }
}

/// Whether `a * b >= c * d`, decided exactly although neither product need
/// fit in 128 bits.
pub fn product_at_least(a: u128, b: u64, c: u128, d: u64) -> (r: bool)
    requires
        b <= FACTOR_LIMIT,
        d <= FACTOR_LIMIT,
    ensures
        r == (a * b >= c * d),
{
    let left = WideProduct::of(a, b);
    let right = WideProduct::of(c, d);
    left.at_least(&right)
}

} // verus!
