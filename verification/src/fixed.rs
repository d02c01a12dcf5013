//! Decimal fixed-point numbers, and the integer arithmetic that defines them.
//!
//! A number is held as a raw integer, the number times `SCALE`. The spec functions of this
//! module say over raw integers what each operation gives; the methods of [`Fixed`] compute
//! exactly that.

use vstd::prelude::*;

verus! {

/// Raw units per whole: a [`Fixed`] whose view is `raw` stands for the number `raw / SCALE`.
pub const SCALE: i64 = 1_000_000;

/// The largest magnitude of a raw value. Results beyond it saturate.
pub const LIMIT: i64 = 1_000_000_000_000_000_000;

/// `x` brought into `[-LIMIT, LIMIT]`.
pub open spec fn saturate(x: int) -> int {
    if x < -LIMIT {
        -(LIMIT as int)
    } else if x > LIMIT {
        LIMIT as int
    } else {
        x
    }
}

/// The quotient of `a` by `b` rounded toward zero; zero where `b` is zero.
pub open spec fn quot(a: int, b: int) -> int {
    if b == 0 {
        0
    } else if b > 0 {
        if a >= 0 {
            a / b
        } else {
            -((-a) / b)
        }
    } else {
        if a >= 0 {
            -(a / (-b))
        } else {
            (-a) / (-b)
        }
    }
}

/// Whether `r` is the largest integer whose square does not exceed `n`.
pub open spec fn is_floor_sqrt(n: int, r: int) -> bool {
    0 <= r && r * r <= n < (r + 1) * (r + 1)
}

/// The largest integer whose square does not exceed `n`; zero for a negative `n`.
pub open spec fn floor_sqrt(n: int) -> int {
    if n <= 0 {
        0
    } else {
        choose|r: int| is_floor_sqrt(n, r)
    }
}

/// The sum of two raw values.
pub open spec fn fx_add(a: int, b: int) -> int {
    saturate(a + b)
}

/// The difference of two raw values.
pub open spec fn fx_sub(a: int, b: int) -> int {
    saturate(a - b)
}

/// The product of two raw values, rounded toward zero.
pub open spec fn fx_mul(a: int, b: int) -> int {
    saturate(quot(a * b, SCALE as int))
}

/// The quotient of two raw values, rounded toward zero. Division by zero saturates by the
/// sign of the dividend, and zero by zero is zero.
pub open spec fn fx_div(a: int, b: int) -> int {
    if b != 0 {
        saturate(quot(a * SCALE, b))
    } else if a > 0 {
        LIMIT as int
    } else if a < 0 {
        -(LIMIT as int)
    } else {
        0
    }
}

/// The square root of a raw value, rounded down; zero for a negative value.
pub open spec fn fx_sqrt(a: int) -> int {
    floor_sqrt(a * SCALE)
}

/// At most one integer is the floor square root of `n`.
pub proof fn lemma_floor_sqrt_unique(n: int, r1: int, r2: int)
    requires
        is_floor_sqrt(n, r1),
        is_floor_sqrt(n, r2),
    ensures
        r1 == r2,
{
    if r1 < r2 {
        assert((r1 + 1) * (r1 + 1) <= r2 * r2) by (nonlinear_arith)
            requires
                0 <= r1 + 1 <= r2,
        ;
    } else if r2 < r1 {
        assert((r2 + 1) * (r2 + 1) <= r1 * r1) by (nonlinear_arith)
            requires
                0 <= r2 + 1 <= r1,
        ;
    }
}

/// Every natural number has a floor square root.
pub proof fn lemma_floor_sqrt_exists(n: nat)
    ensures
        exists|r: int| is_floor_sqrt(n as int, r),
    decreases n,
{
    if n == 0 {
        assert(is_floor_sqrt(0, 0));
    } else {
        let m: int = n - 1;
        lemma_floor_sqrt_exists(m as nat);
        let r = choose|r: int| is_floor_sqrt(m, r);
        if n < (r + 1) * (r + 1) {
            assert(is_floor_sqrt(n as int, r));
        } else {
            assert((r + 2) * (r + 2) > (r + 1) * (r + 1)) by (nonlinear_arith)
                requires
                    0 <= r,
            ;
            assert(is_floor_sqrt(n as int, r + 1));
        }
    }
}

/// `floor_sqrt(n)` is the floor square root of every `n` that is not negative.
pub proof fn lemma_floor_sqrt(n: int)
    requires
        0 <= n,
    ensures
        is_floor_sqrt(n, floor_sqrt(n)),
{
    if n > 0 {
        lemma_floor_sqrt_exists(n as nat);
    }
}

/// A number that passes for the floor square root of `n` is `floor_sqrt(n)`.
pub proof fn lemma_floor_sqrt_is(n: int, r: int)
    requires
        is_floor_sqrt(n, r),
    ensures
        floor_sqrt(n) == r,
{
    assert(0 <= r * r) by (nonlinear_arith);
    lemma_floor_sqrt(n);
    lemma_floor_sqrt_unique(n, r, floor_sqrt(n));
}

/// A number below the square of `bound` has a floor square root below `bound`.
pub proof fn lemma_floor_sqrt_bound(n: int, bound: int)
    requires
        0 <= n < bound * bound,
        0 <= bound,
    ensures
        0 <= floor_sqrt(n) < bound,
{
    lemma_floor_sqrt(n);
    let r = floor_sqrt(n);
    if r >= bound {
        assert(bound * bound <= r * r) by (nonlinear_arith)
            requires
                0 <= bound <= r,
        ;
    }
}

/// The product of two raw values in range stays within `LIMIT * LIMIT`.
pub proof fn lemma_product_bound(a: int, b: int)
    requires
        -LIMIT <= a <= LIMIT,
        -LIMIT <= b <= LIMIT,
    ensures
        -(LIMIT * LIMIT) <= a * b <= LIMIT * LIMIT,
{
    assert(-(LIMIT * LIMIT) <= a * b <= LIMIT * LIMIT) by (nonlinear_arith)
        requires
            -LIMIT <= a <= LIMIT,
            -LIMIT <= b <= LIMIT,
    ;
}

/// Rounding toward zero keeps the order of the dividends, for a positive divisor.
pub proof fn lemma_quot_monotone(x: int, y: int, d: int)
    requires
        x <= y,
        0 < d,
    ensures
        quot(x, d) <= quot(y, d),
{
    if 0 <= x {
        vstd::arithmetic::div_mod::lemma_div_is_ordered(x, y, d);
    } else if y < 0 {
        vstd::arithmetic::div_mod::lemma_div_is_ordered(-y, -x, d);
    } else {
        vstd::arithmetic::div_mod::lemma_div_is_ordered(0, -x, d);
        vstd::arithmetic::div_mod::lemma_div_is_ordered(0, y, d);
    }
}

/// A number whose square does not exceed `n` does not exceed the floor square root of `n`.
pub proof fn lemma_floor_sqrt_at_least(n: int, m: int)
    requires
        0 <= m,
        m * m <= n,
    ensures
        m <= floor_sqrt(n),
{
    assert(0 <= m * m) by (nonlinear_arith);
    lemma_floor_sqrt(n);
    let r = floor_sqrt(n);
    if r < m {
        assert((r + 1) * (r + 1) <= m * m) by (nonlinear_arith)
            requires
                0 <= r + 1 <= m,
        ;
    }
}

/// The quotient of a raw value by one that is at least as large in magnitude lies in
/// `[-1, 1]`.
pub proof fn lemma_div_by_larger(a: int, b: int)
    requires
        -b <= a <= b,
    ensures
        -SCALE <= fx_div(a, b) <= SCALE,
{
    if b > 0 {
        let m: int = if a >= 0 { a } else { -a };
        assert(0 <= m * SCALE <= b * SCALE) by (nonlinear_arith)
            requires
                0 <= m <= b,
        ;
        assert(a * SCALE == m * SCALE || a * SCALE == -(m * SCALE)) by (nonlinear_arith)
            requires
                m == a || m == -a,
        ;
        vstd::arithmetic::div_mod::lemma_div_is_ordered(m * SCALE, b * SCALE, b);
        vstd::arithmetic::div_mod::lemma_div_is_ordered(0, m * SCALE, b);
        assert(b * SCALE == SCALE * b) by (nonlinear_arith);
        vstd::arithmetic::div_mod::lemma_div_multiples_vanish(SCALE as int, b);
    }
}

/// The product of two raw values of `[0, 1]` lies in `[0, 1]`, and does not exceed either.
pub proof fn lemma_mul_of_fractions(a: int, b: int)
    requires
        0 <= a <= SCALE,
        0 <= b <= SCALE,
    ensures
        0 <= fx_mul(a, b) <= a,
        fx_mul(a, b) <= b,
{
    assert(0 <= a * b <= a * SCALE && a * b <= b * SCALE) by (nonlinear_arith)
        requires
            0 <= a <= SCALE,
            0 <= b <= SCALE,
    ;
    vstd::arithmetic::div_mod::lemma_div_is_ordered(0, a * b, SCALE as int);
    vstd::arithmetic::div_mod::lemma_div_is_ordered(a * b, a * SCALE, SCALE as int);
    vstd::arithmetic::div_mod::lemma_div_is_ordered(a * b, b * SCALE, SCALE as int);
}

/// The floor square root of `n`, found by bisection.
pub fn floor_sqrt_u128(n: u128) -> (r: u128)
    ensures
        r == floor_sqrt(n as int),
        is_floor_sqrt(n as int, r as int),
{
    let mut lo: u128 = 0;
    let mut hi: u128 = 0x1_0000_0000_0000_0000;
    assert(0x1_0000_0000_0000_0000int * 0x1_0000_0000_0000_0000int > n) by (nonlinear_arith)
        requires
            n <= 0xffff_ffff_ffff_ffff_ffff_ffff_ffff_ffff,
    ;
    while hi - lo > 1
        invariant
            lo < hi <= 0x1_0000_0000_0000_0000,
            lo * lo <= n < hi * hi,
        decreases hi - lo,
    {
        let mid: u128 = lo + (hi - lo) / 2;
        assert(mid * mid <= 0xffff_ffff_ffff_ffff * 0xffff_ffff_ffff_ffff) by (nonlinear_arith)
            requires
                0 <= mid <= 0xffff_ffff_ffff_ffff,
        ;
        if mid * mid <= n {
            lo = mid;
        } else {
            hi = mid;
        }
    }
    proof {
        lemma_floor_sqrt_is(n as int, lo as int);
    }
    lo
}

/// A signed decimal fixed-point number with six fractional digits.
///
/// Every operation is total: a result beyond `LIMIT` in magnitude saturates, and every
/// rounding goes toward zero.
#[derive(Clone, Copy, Debug, PartialEq, Eq, Structural)]
pub struct Fixed {
    raw: i64,
}

impl View for Fixed {
    type V = int;

    /// The raw value: the number stood for, times `SCALE`.
    closed spec fn view(&self) -> int {
        self.raw as int
    }
}

impl Fixed {
    /// The raw value of every `Fixed` lies within `LIMIT`.
    #[verifier::type_invariant]
    pub closed spec fn in_range(self) -> bool {
        -LIMIT <= self.raw <= LIMIT
    }

    /// Two values with the same view are the same value.
    pub proof fn lemma_view_injective(a: Fixed, b: Fixed)
        ensures
            a@ == b@ <==> a == b,
    {
    }

    /// The value with the given raw value, saturated.
    pub fn from_raw(raw: i64) -> (r: Fixed)
        ensures
            r@ == saturate(raw as int),
    {
        if raw < -LIMIT {
            Fixed { raw: -LIMIT }
        } else if raw > LIMIT {
            Fixed { raw: LIMIT }
        } else {
            Fixed { raw }
        }
    }

    /// The value with the given raw value of double width, saturated.
    pub fn from_wide(wide: i128) -> (r: Fixed)
        ensures
            r@ == saturate(wide as int),
    {
        if wide < -(LIMIT as i128) {
            Fixed { raw: -LIMIT }
        } else if wide > LIMIT as i128 {
            Fixed { raw: LIMIT }
        } else {
            Fixed { raw: wide as i64 }
        }
    }

    /// The whole number `n`, saturated.
    pub fn from_int(n: i64) -> (r: Fixed)
        ensures
            r@ == saturate(n * SCALE),
    {
        let wide: i128 = n as i128;
        Fixed::from_wide(wide * 1_000_000)
    }

    /// The raw value, which never exceeds `LIMIT` in magnitude.
    pub fn raw(self) -> (r: i64)
        ensures
            r == self@,
            -LIMIT <= r <= LIMIT,
    {
        proof {
            use_type_invariant(self);
        }
        self.raw
    }

    /// The sum, saturated.
    pub fn add(self, rhs: Fixed) -> (r: Fixed)
        ensures
            r@ == fx_add(self@, rhs@),
    {
        Fixed::from_raw(self.raw() + rhs.raw())
    }

    /// The difference, saturated.
    pub fn sub(self, rhs: Fixed) -> (r: Fixed)
        ensures
            r@ == fx_sub(self@, rhs@),
    {
        Fixed::from_raw(self.raw() - rhs.raw())
    }

    /// The opposite, which is always exact.
    pub fn neg(self) -> (r: Fixed)
        ensures
            r@ == -self@,
    {
        Fixed::from_raw(-self.raw())
    }

    /// The product, rounded toward zero and saturated.
    pub fn mul(self, rhs: Fixed) -> (r: Fixed)
        ensures
            r@ == fx_mul(self@, rhs@),
    {
        let a: i128 = self.raw() as i128;
        let b: i128 = rhs.raw() as i128;
        proof {
            lemma_product_bound(a as int, b as int);
        }
        Fixed::from_wide((a * b) / 1_000_000)
    }

    /// The quotient, rounded toward zero and saturated. A division by zero gives the largest
    /// value of the sign of `self`, and zero where `self` is zero.
    pub fn div(self, rhs: Fixed) -> (r: Fixed)
        ensures
            r@ == fx_div(self@, rhs@),
    {
        let a: i128 = self.raw() as i128;
        let b: i128 = rhs.raw() as i128;
        if b != 0 {
            let n: i128 = a * 1_000_000;
            let num: u128 = if n < 0 {
                (-n) as u128
            } else {
                n as u128
            };
            let den: u128 = if b < 0 {
                (-b) as u128
            } else {
                b as u128
            };
            let q: i128 = (num / den) as i128;
            Fixed::from_wide(
                if (n < 0) == (b < 0) {
                    q
                } else {
                    -q
                },
            )
        } else if a > 0 {
            Fixed { raw: LIMIT }
        } else if a < 0 {
            Fixed { raw: -LIMIT }
        } else {
            Fixed { raw: 0 }
        }
    }

    /// The square root, rounded down. The square root of a negative value is zero.
    pub fn sqrt(self) -> (r: Fixed)
        ensures
            r@ == fx_sqrt(self@),
    {
        let a: i64 = self.raw();
        if a <= 0 {
            Fixed { raw: 0 }
        } else {
            let n: u128 = (a as u128) * 1_000_000;
            let root: u128 = floor_sqrt_u128(n);
            proof {
                lemma_floor_sqrt_bound(n as int, LIMIT as int);
            }
            Fixed { raw: root as i64 }
        }
    }
}

} // verus!
