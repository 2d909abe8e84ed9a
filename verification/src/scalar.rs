//! Fixed-point numbers: a signed 64-bit raw value read as a multiple of 2^-32.
//!
//! Every operation is total and saturates at the ends of the `i64` range, so
//! that no computation of the renderer can overflow or trap. The largest raw
//! value doubles as "infinitely far" for travel distances.
use vstd::prelude::*;

verus! {

/// Raw value of the number one.
pub const ONE_RAW: i64 = 0x1_0000_0000;

/// Raw value that stands for "infinitely far".
pub const INFINITY_RAW: i64 = 0x7fff_ffff_ffff_ffff;

/// The nearest raw value to `x` that an `i64` can hold.
pub open spec fn saturate(x: int) -> int {
    if x < i64::MIN {
        i64::MIN as int
    } else if x > i64::MAX {
        i64::MAX as int
    } else {
        x
    }
}

/// Absolute value of a mathematical integer.
pub open spec fn magnitude(x: int) -> int {
    if x < 0 {
        -x
    } else {
        x
    }
}

/// Quotient of `n` by `d`, rounded toward zero.
pub open spec fn quotient(n: int, d: int) -> int
    recommends
        d != 0,
{
    if (n < 0) == (d < 0) {
        magnitude(n) / magnitude(d)
    } else {
        -(magnitude(n) / magnitude(d))
    }
}

/// The largest `r` with `r * r <= n`.
pub open spec fn floor_sqrt(n: nat) -> nat
    decreases n,
{
    if n == 0 {
        0
    } else {
        let r = floor_sqrt((n - 1) as nat);
        if (r + 1) * (r + 1) <= n {
            r + 1
        } else {
            r
        }
    }
}

/// `floor_sqrt(n)` squared does not exceed `n`, and the next square does.
pub proof fn lemma_floor_sqrt_bounds(n: nat)
    ensures
        floor_sqrt(n) * floor_sqrt(n) <= n,
        n < (floor_sqrt(n) + 1) * (floor_sqrt(n) + 1),
    decreases n,
{
    if n == 0 {
        assert(floor_sqrt(n) == 0);
        assert((0 + 1) * (0 + 1) == 1) by (nonlinear_arith);
    } else {
        lemma_floor_sqrt_bounds((n - 1) as nat);
        let r = floor_sqrt((n - 1) as nat);
        let s = floor_sqrt(n);
        if (r + 1) * (r + 1) <= n {
            assert(s == r + 1);
            // n - 1 < (r + 1)^2 <= n, so n is that square
            assert(n == (r + 1) * (r + 1));
            assert(n < (s + 1) * (s + 1)) by (nonlinear_arith)
                requires
                    n == s * s,
                    s >= 0,
            ;
        } else {
            assert(s == r);
            assert(n < (r + 1) * (r + 1));
        }
    }
}

/// Only `floor_sqrt(n)` lies between the two bounds.
pub proof fn lemma_floor_sqrt_unique(n: nat, r: nat)
    requires
        r * r <= n,
        n < (r + 1) * (r + 1),
    ensures
        r == floor_sqrt(n),
{
    lemma_floor_sqrt_bounds(n);
    let s = floor_sqrt(n);
    if r < s {
        assert((r + 1) * (r + 1) <= s * s) by (nonlinear_arith)
            requires
                r + 1 <= s,
        ;
    }
    if s < r {
        assert((s + 1) * (s + 1) <= r * r) by (nonlinear_arith)
            requires
                s + 1 <= r,
        ;
    }
}

/// The square root grows with its argument.
pub proof fn lemma_floor_sqrt_monotone(a: nat, b: nat)
    requires
        a <= b,
    ensures
        floor_sqrt(a) <= floor_sqrt(b),
{
    lemma_floor_sqrt_bounds(a);
    lemma_floor_sqrt_bounds(b);
    let r = floor_sqrt(a);
    let s = floor_sqrt(b);
    if s < r {
        assert((s + 1) * (s + 1) <= r * r) by (nonlinear_arith)
            requires
                s + 1 <= r,
        ;
    }
}

fn saturate_wide(x: i128) -> (r: i64)
    ensures
        r == saturate(x as int),
{
    if x < i64::MIN as i128 {
        i64::MIN
    } else if x > i64::MAX as i128 {
        i64::MAX
    } else {
        x as i64
    }
}

pub(crate) fn magnitude_of(x: i64) -> (m: u128)
    ensures
        m == magnitude(x as int),
        m <= 0x8000_0000_0000_0000,
{
    if x < 0 {
        (-(x as i128)) as u128
    } else {
        x as u128
    }
}

pub(crate) fn with_sign(negative: bool, m: u128) -> (r: i64)
    ensures
        r == saturate(
            if negative {
                -(m as int)
            } else {
                m as int
            },
        ),
{
    if m > i64::MAX as u128 {
        if negative {
            i64::MIN
        } else {
            i64::MAX
        }
    } else {
        let v: i64 = m as i64;
        if negative {
            -v
        } else {
            v
        }
    }
}

/// Floor of the square root of `n`.
pub fn integer_sqrt(n: u128) -> (r: u128)
    ensures
        r == floor_sqrt(n as nat),
        r * r <= n,
        n < (r + 1) * (r + 1),
        r < 0x1_0000_0000_0000_0000,
{
    let mut lo: u128 = 0;
    let mut hi: u128 = 0x1_0000_0000_0000_0000;
    assert(n < hi * hi) by (nonlinear_arith)
        requires
            hi == 0x1_0000_0000_0000_0000u128,
            n <= u128::MAX,
    ;
    while hi - lo > 1
        invariant
            lo < hi,
            hi <= 0x1_0000_0000_0000_0000,
            lo * lo <= n,
            n < hi * hi,
        decreases hi - lo,
    {
        let mid: u128 = lo + (hi - lo) / 2;
        assert(mid * mid <= 0xffff_ffff_ffff_ffff * 0xffff_ffff_ffff_ffff) by (nonlinear_arith)
            requires
                mid <= 0xffff_ffff_ffff_ffff,
        ;
        if mid * mid <= n {
            lo = mid;
        } else {
            hi = mid;
        }
    }
    proof {
        assert(hi == lo + 1);
        lemma_floor_sqrt_unique(n as nat, lo as nat);
    }
    lo
}

/// A fixed-point number with 32 fractional bits.
#[derive(Clone, Copy, Debug, PartialEq, Eq, Structural)]
pub struct Scalar {
    pub raw: i64,
}

impl View for Scalar {
    type V = int;

    open spec fn view(&self) -> int {
        self.raw as int
    }
}

impl Scalar {
    /// The number with the given raw value.
    pub open spec fn of(raw: int) -> Scalar {
        Scalar { raw: saturate(raw) as i64 }
    }

    /// Sum, kept within the range.
    pub open spec fn spec_add(self, rhs: Scalar) -> Scalar {
        Scalar::of(self.raw + rhs.raw)
    }

    /// Difference, kept within the range.
    pub open spec fn spec_sub(self, rhs: Scalar) -> Scalar {
        Scalar::of(self.raw - rhs.raw)
    }

    /// The number with the opposite sign; the highest number for the lowest.
    pub open spec fn spec_neg(self) -> Scalar {
        Scalar::of(-self.raw)
    }

    /// The number without its sign; the highest number for the lowest.
    pub open spec fn spec_abs(self) -> Scalar {
        Scalar::of(magnitude(self.raw as int))
    }

    /// Product, rounded toward zero.
    #[verifier::opaque]
    pub open spec fn spec_mul(self, rhs: Scalar) -> Scalar {
        Scalar::of(quotient(self.raw * rhs.raw, ONE_RAW as int))
    }

    /// Division; a zero divisor gives the end of the range on the side of the
    /// dividend's sign, and zero for zero.
    #[verifier::opaque]
    pub open spec fn spec_div(self, rhs: Scalar) -> Scalar {
        if rhs.raw == 0 {
            if self.raw > 0 {
                Scalar { raw: i64::MAX }
            } else if self.raw < 0 {
                Scalar { raw: i64::MIN }
            } else {
                Scalar { raw: 0 }
            }
        } else {
            Scalar::of(quotient(self.raw * ONE_RAW, rhs.raw as int))
        }
    }

    /// Square root, rounded down; zero for a number that is not positive.
    #[verifier::opaque]
    pub open spec fn spec_sqrt(self) -> Scalar {
        if self.raw <= 0 {
            Scalar { raw: 0 }
        } else {
            Scalar::of(floor_sqrt((self.raw * ONE_RAW) as nat) as int)
        }
    }

    /// The whole number `n`.
    pub open spec fn spec_from_int(n: i32) -> Scalar {
        Scalar { raw: (n * ONE_RAW) as i64 }
    }

    /// The count `n`, kept within the range.
    pub open spec fn spec_from_count(n: usize) -> Scalar {
        Scalar::of(n * ONE_RAW)
    }

    /// The fraction of two whole numbers, as the quotient of two raw values.
    pub open spec fn spec_from_ratio(numerator: i64, denominator: i64) -> Scalar {
        Scalar { raw: numerator }.spec_div(Scalar { raw: denominator })
    }

    /// Whether this is the value that stands for "infinitely far".
    pub open spec fn is_infinite(self) -> bool {
        self.raw == INFINITY_RAW
    }

    /// The number `raw / 2^32`.
    pub fn from_raw(raw: i64) -> (r: Scalar)
        ensures
            r.raw == raw,
    {
        Scalar { raw }
    }

    pub fn zero() -> (r: Scalar)
        ensures
            r.raw == 0,
    {
        Scalar { raw: 0 }
    }

    pub fn one() -> (r: Scalar)
        ensures
            r.raw == ONE_RAW,
    {
        Scalar { raw: ONE_RAW }
    }

    /// The distance that no finite hit reaches.
    pub fn infinity() -> (r: Scalar)
        ensures
            r.raw == INFINITY_RAW,
            r.is_infinite(),
    {
        Scalar { raw: INFINITY_RAW }
    }

    /// The whole number `n`, exactly.
    pub fn from_int(n: i32) -> (r: Scalar)
        ensures
            r == Scalar::spec_from_int(n),
            r.raw == n * ONE_RAW,
    {
        Scalar { raw: (n as i64) * ONE_RAW }
    }

    /// The count `n` as a number; the end of the range for a count beyond it.
    pub fn from_count(n: usize) -> (r: Scalar)
        ensures
            r == Scalar::spec_from_count(n),
            r.raw >= 0,
    {
        if n >= 0x8000_0000 {
            Scalar { raw: i64::MAX }
        } else {
            Scalar { raw: (n as i64) * ONE_RAW }
        }
    }

    /// The fraction `numerator / denominator`, rounded toward zero.
    pub fn from_ratio(numerator: i64, denominator: i64) -> (r: Scalar)
        ensures
            r == Scalar::spec_from_ratio(numerator, denominator),
    {
        Scalar { raw: numerator }.div(Scalar { raw: denominator })
    }

    pub fn add(self, rhs: Scalar) -> (r: Scalar)
        ensures
            r == self.spec_add(rhs),
    {
        Scalar { raw: saturate_wide(self.raw as i128 + rhs.raw as i128) }
    }

    pub fn sub(self, rhs: Scalar) -> (r: Scalar)
        ensures
            r == self.spec_sub(rhs),
    {
        Scalar { raw: saturate_wide(self.raw as i128 - rhs.raw as i128) }
    }

    pub fn neg(self) -> (r: Scalar)
        ensures
            r == self.spec_neg(),
    {
        Scalar { raw: saturate_wide(-(self.raw as i128)) }
    }

    pub fn abs(self) -> (r: Scalar)
        ensures
            r == self.spec_abs(),
    {
        let m = magnitude_of(self.raw);
        Scalar { raw: with_sign(false, m) }
    }

    pub fn mul(self, rhs: Scalar) -> (r: Scalar)
        ensures
            r == self.spec_mul(rhs),
            r.raw == saturate(quotient(self.raw * rhs.raw, ONE_RAW as int)),
    {
        reveal(Scalar::spec_mul);
        let a = magnitude_of(self.raw);
        let b = magnitude_of(rhs.raw);
        let negative = (self.raw < 0) != (rhs.raw < 0);
        proof {
            lemma_product_sign(self.raw as int, rhs.raw as int);
            assert(a * b <= 0x8000_0000_0000_0000 * 0x8000_0000_0000_0000) by (nonlinear_arith)
                requires
                    a <= 0x8000_0000_0000_0000,
                    b <= 0x8000_0000_0000_0000,
            ;
        }
        let q: u128 = (a * b) / (ONE_RAW as u128);
        Scalar { raw: with_sign(negative, q) }
    }

    pub fn div(self, rhs: Scalar) -> (r: Scalar)
        ensures
            r == self.spec_div(rhs),
            rhs.raw != 0 ==> r.raw == saturate(quotient(self.raw * ONE_RAW, rhs.raw as int)),
            rhs.raw == 0 ==> r.raw == (if self.raw > 0 {
                i64::MAX
            } else if self.raw < 0 {
                i64::MIN
            } else {
                0
            }),
    {
        reveal(Scalar::spec_div);
        if rhs.raw == 0 {
            if self.raw > 0 {
                Scalar { raw: i64::MAX }
            } else if self.raw < 0 {
                Scalar { raw: i64::MIN }
            } else {
                Scalar { raw: 0 }
            }
        } else {
            let a = magnitude_of(self.raw);
            let b = magnitude_of(rhs.raw);
            let negative = (self.raw < 0) != (rhs.raw < 0);
            proof {
                lemma_product_sign(self.raw as int, ONE_RAW as int);
            }
            let q: u128 = (a * (ONE_RAW as u128)) / b;
            Scalar { raw: with_sign(negative, q) }
        }
    }

    pub fn sqrt(self) -> (r: Scalar)
        ensures
            r == self.spec_sqrt(),
            r.raw >= 0,
            self.raw > 0 ==> r.raw * r.raw <= self.raw * ONE_RAW < (r.raw + 1) * (r.raw + 1),
            self.raw <= 0 ==> r.raw == 0,
    {
        reveal(Scalar::spec_sqrt);
        if self.raw <= 0 {
            Scalar { raw: 0 }
        } else {
            let n: u128 = (self.raw as u128) * (ONE_RAW as u128);
            let root = integer_sqrt(n);
            proof {
                if root >= 0x1_0000_0000_0000 {
                    assert(root * root >= 0x1_0000_0000_0000 * 0x1_0000_0000_0000)
                        by (nonlinear_arith)
                        requires
                            root >= 0x1_0000_0000_0000,
                    ;
                }
            }
            Scalar { raw: root as i64 }
        }
    }
}

/// Zero divided by anything is zero.
pub proof fn lemma_zero_div(k: Scalar)
    ensures
        (Scalar { raw: 0 }).spec_div(k) == (Scalar { raw: 0 }),
{
    reveal(Scalar::spec_div);
    if k.raw != 0 {
        assert(0int * ONE_RAW == 0);
        assert(0int / magnitude(k.raw as int) == 0) by (nonlinear_arith)
            requires
                magnitude(k.raw as int) > 0,
        ;
    }
}

/// The magnitude of a product is the product of the magnitudes, and the
/// product is negative exactly when the signs differ and neither is zero.
pub proof fn lemma_product_sign(a: int, b: int)
    ensures
        magnitude(a * b) == magnitude(a) * magnitude(b),
        (a * b < 0) == ((a < 0) != (b < 0) && a != 0 && b != 0),
{
    assert(magnitude(a * b) == magnitude(a) * magnitude(b)) by (nonlinear_arith)
        requires
            magnitude(a) == if a < 0 { -a } else { a },
            magnitude(b) == if b < 0 { -b } else { b },
            magnitude(a * b) == if a * b < 0 { -(a * b) } else { a * b },
    ;
    assert((a * b < 0) == ((a < 0) != (b < 0) && a != 0 && b != 0)) by (nonlinear_arith);
}

/// For a positive divisor the quotient grows with the dividend.
pub proof fn lemma_quotient_monotone(a: int, b: int, d: int)
    requires
        a <= b,
        d > 0,
    ensures
        quotient(a, d) <= quotient(b, d),
{
    if a >= 0 {
        vstd::arithmetic::div_mod::lemma_div_is_ordered(a, b, d);
    } else if b < 0 {
        vstd::arithmetic::div_mod::lemma_div_is_ordered(-b, -a, d);
    } else {
        vstd::arithmetic::div_mod::lemma_div_pos_is_pos(-a, d);
        vstd::arithmetic::div_mod::lemma_div_pos_is_pos(b, d);
    }
}

/// The quotient of a number that is not negative by a positive one is not
/// negative.
pub proof fn lemma_quotient_non_negative(n: int, d: int)
    requires
        n >= 0,
        d > 0,
    ensures
        quotient(n, d) >= 0,
{
    vstd::arithmetic::div_mod::lemma_div_pos_is_pos(n, d);
}

/// The quotient of a multiple of the divisor is the other factor.
pub proof fn lemma_quotient_of_multiple(x: int, d: int)
    requires
        d > 0,
    ensures
        quotient(x * d, d) == x,
{
    lemma_product_sign(x, d);
    assert(magnitude(x) * d == d * magnitude(x)) by (nonlinear_arith);
    vstd::arithmetic::div_mod::lemma_div_multiples_vanish(magnitude(x), d);
}

/// Dividing by a divisor that is not negative keeps the order.
pub proof fn lemma_div_monotone(a: Scalar, b: Scalar, d: Scalar)
    requires
        a.raw <= b.raw,
        d.raw >= 0,
    ensures
        a.spec_div(d).raw <= b.spec_div(d).raw,
{
    reveal(Scalar::spec_div);
    if d.raw != 0 {
        assert(a.raw * ONE_RAW <= b.raw * ONE_RAW) by (nonlinear_arith)
            requires
                a.raw <= b.raw,
                ONE_RAW > 0,
        ;
        lemma_quotient_monotone(a.raw * ONE_RAW, b.raw * ONE_RAW, d.raw as int);
    }
}

/// A product of two numbers that are not negative is not negative.
pub proof fn lemma_mul_non_negative(a: Scalar, b: Scalar)
    requires
        a.raw >= 0,
        b.raw >= 0,
    ensures
        a.spec_mul(b).raw >= 0,
{
    reveal(Scalar::spec_mul);
    assert(a.raw * b.raw >= 0) by (nonlinear_arith)
        requires
            a.raw >= 0,
            b.raw >= 0,
    ;
    lemma_quotient_non_negative(a.raw * b.raw, ONE_RAW as int);
}

/// A quotient of two numbers that are not negative is not negative.
pub proof fn lemma_div_non_negative(a: Scalar, d: Scalar)
    requires
        a.raw >= 0,
        d.raw >= 0,
    ensures
        a.spec_div(d).raw >= 0,
{
    reveal(Scalar::spec_div);
    if d.raw != 0 {
        assert(a.raw * ONE_RAW >= 0) by (nonlinear_arith)
            requires
                a.raw >= 0,
                ONE_RAW > 0,
        ;
        lemma_quotient_non_negative(a.raw * ONE_RAW, d.raw as int);
    }
}

/// The product grows with its right factor when the left one is not
/// negative.
pub proof fn lemma_mul_monotone(k: Scalar, a: Scalar, b: Scalar)
    requires
        k.raw >= 0,
        a.raw <= b.raw,
    ensures
        k.spec_mul(a).raw <= k.spec_mul(b).raw,
{
    reveal(Scalar::spec_mul);
    assert(k.raw * a.raw <= k.raw * b.raw) by (nonlinear_arith)
        requires
            k.raw >= 0,
            a.raw <= b.raw,
    ;
    lemma_quotient_monotone(k.raw * a.raw, k.raw * b.raw, ONE_RAW as int);
}

/// A square is not negative.
pub proof fn lemma_square_non_negative(a: Scalar)
    ensures
        a.spec_mul(a).raw >= 0,
{
    reveal(Scalar::spec_mul);
    assert(a.raw * a.raw >= 0) by (nonlinear_arith);
    lemma_quotient_non_negative(a.raw * a.raw, ONE_RAW as int);
}

/// One is neutral for the product, on both sides.
pub proof fn lemma_mul_one(a: Scalar)
    ensures
        a.spec_mul(Scalar { raw: ONE_RAW }) == a,
        (Scalar { raw: ONE_RAW }).spec_mul(a) == a,
{
    reveal(Scalar::spec_mul);
    lemma_quotient_of_multiple(a.raw as int, ONE_RAW as int);
    assert(ONE_RAW * a.raw == a.raw * ONE_RAW) by (nonlinear_arith);
}

/// A product with zero is zero, on both sides.
pub proof fn lemma_mul_zero(a: Scalar)
    ensures
        a.spec_mul(Scalar { raw: 0 }) == (Scalar { raw: 0 }),
        (Scalar { raw: 0 }).spec_mul(a) == (Scalar { raw: 0 }),
{
    reveal(Scalar::spec_mul);
    assert(a.raw * 0 == 0 && 0 * a.raw == 0) by (nonlinear_arith);
    lemma_quotient_of_multiple(0, ONE_RAW as int);
    assert(0int * ONE_RAW == 0);
}

} // verus!
