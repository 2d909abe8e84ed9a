//! Free vectors and directions of length one.
use vstd::prelude::*;

use crate::rng::RowRng;
use crate::scalar::{
    floor_sqrt, integer_sqrt, magnitude, magnitude_of, quotient, with_sign, Scalar, ONE_RAW,
};

verus! {

/// Raw magnitude below which `unit` first scales a vector up by 2^32, so that
/// short vectors are normalized as precisely as long ones.
pub const SHORT_RAW: i64 = 0x8000_0000;

/// A vector of three fixed-point components.
#[derive(Clone, Copy, Debug, PartialEq, Eq, Structural)]
pub struct Vec3 {
    pub x: Scalar,
    pub y: Scalar,
    pub z: Scalar,
}

/// A direction: a vector meant to have length one.
#[derive(Clone, Copy, Debug, PartialEq, Eq, Structural)]
pub struct UnitVec3(pub Vec3);

/// Whether all three raw components are below `SHORT_RAW` in magnitude.
pub open spec fn is_short(x: int, y: int, z: int) -> bool {
    magnitude(x) < SHORT_RAW && magnitude(y) < SHORT_RAW && magnitude(z) < SHORT_RAW
}

/// The raw component that `unit` works on: scaled up for a short vector.
pub open spec fn stretched(c: int, short: bool) -> int {
    if short {
        c * ONE_RAW
    } else {
        c
    }
}

/// The raw length that `unit` divides by.
pub open spec fn stretched_len(x: int, y: int, z: int) -> nat {
    let short = is_short(x, y, z);
    let a = stretched(x, short);
    let b = stretched(y, short);
    let c = stretched(z, short);
    floor_sqrt((a * a + b * b + c * c) as nat)
}

/// One raw component of the normalized vector.
pub open spec fn unit_component(c: int, x: int, y: int, z: int) -> int {
    quotient(stretched(c, is_short(x, y, z)) * ONE_RAW, stretched_len(x, y, z) as int)
}

impl Vec3 {
    pub open spec fn spec_add(self, rhs: Vec3) -> Vec3 {
        Vec3 {
            x: self.x.spec_add(rhs.x),
            y: self.y.spec_add(rhs.y),
            z: self.z.spec_add(rhs.z),
        }
    }

    pub open spec fn spec_sub(self, rhs: Vec3) -> Vec3 {
        Vec3 {
            x: self.x.spec_sub(rhs.x),
            y: self.y.spec_sub(rhs.y),
            z: self.z.spec_sub(rhs.z),
        }
    }

    pub open spec fn spec_scale(self, k: Scalar) -> Vec3 {
        Vec3 { x: k.spec_mul(self.x), y: k.spec_mul(self.y), z: k.spec_mul(self.z) }
    }

    pub open spec fn spec_div(self, k: Scalar) -> Vec3 {
        Vec3 { x: self.x.spec_div(k), y: self.y.spec_div(k), z: self.z.spec_div(k) }
    }

    pub open spec fn spec_neg(self) -> Vec3 {
        Vec3 { x: self.x.spec_neg(), y: self.y.spec_neg(), z: self.z.spec_neg() }
    }

    /// Square root of the sum of the squared components, in saturating
    /// fixed-point arithmetic.
    pub open spec fn spec_len(self) -> Scalar {
        self.x.spec_mul(self.x).spec_add(self.y.spec_mul(self.y)).spec_add(
            self.z.spec_mul(self.z),
        ).spec_sqrt()
    }

    pub open spec fn is_zero(self) -> bool {
        self.x.raw == 0 && self.y.raw == 0 && self.z.raw == 0
    }

    /// The vector divided by its exact length; the zero vector stays zero.
    pub open spec fn spec_unit(self) -> UnitVec3 {
        if self.is_zero() {
            UnitVec3(self)
        } else {
            UnitVec3(
                Vec3 {
                    x: Scalar::of(unit_component(self.x@, self.x@, self.y@, self.z@)),
                    y: Scalar::of(unit_component(self.y@, self.x@, self.y@, self.z@)),
                    z: Scalar::of(unit_component(self.z@, self.x@, self.y@, self.z@)),
                },
            )
        }
    }

    pub fn new(x: Scalar, y: Scalar, z: Scalar) -> (r: Vec3)
        ensures
            r == (Vec3 { x, y, z }),
    {
        Vec3 { x, y, z }
    }

    pub fn len(&self) -> (r: Scalar)
        ensures
            r == self.spec_len(),
            r.raw >= 0,
    {
        self.x.mul(self.x).add(self.y.mul(self.y)).add(self.z.mul(self.z)).sqrt()
    }

    pub fn add(self, rhs: Vec3) -> (r: Vec3)
        ensures
            r == self.spec_add(rhs),
    {
        Vec3 { x: self.x.add(rhs.x), y: self.y.add(rhs.y), z: self.z.add(rhs.z) }
    }

    pub fn sub(self, rhs: Vec3) -> (r: Vec3)
        ensures
            r == self.spec_sub(rhs),
    {
        Vec3 { x: self.x.sub(rhs.x), y: self.y.sub(rhs.y), z: self.z.sub(rhs.z) }
    }

    /// The vector with each component multiplied by `k`.
    pub fn scale(self, k: Scalar) -> (r: Vec3)
        ensures
            r == self.spec_scale(k),
    {
        Vec3 { x: k.mul(self.x), y: k.mul(self.y), z: k.mul(self.z) }
    }

    pub fn div(self, k: Scalar) -> (r: Vec3)
        ensures
            r == self.spec_div(k),
    {
        Vec3 { x: self.x.div(k), y: self.y.div(k), z: self.z.div(k) }
    }

    pub fn neg(self) -> (r: Vec3)
        ensures
            r == self.spec_neg(),
    {
        Vec3 { x: self.x.neg(), y: self.y.neg(), z: self.z.neg() }
    }

    /// The direction of this vector: the vector divided by its length. The
    /// result has length one within five raw units, unless the vector is
    /// zero, which stays zero.
    pub fn unit(&self) -> (r: UnitVec3)
        ensures
            r == self.spec_unit(),
            self.is_zero() ==> r.0.is_zero(),
            !self.is_zero() ==> ONE_RAW - 5 <= r.0.spec_len().raw <= ONE_RAW + 2,
            -ONE_RAW <= r.0.x.raw <= ONE_RAW,
            -ONE_RAW <= r.0.y.raw <= ONE_RAW,
            -ONE_RAW <= r.0.z.raw <= ONE_RAW,
    {
        proof {
            lemma_unit_components(*self);
            if !self.is_zero() {
                lemma_unit_has_length_one(*self);
            }
        }
        if self.x.raw == 0 && self.y.raw == 0 && self.z.raw == 0 {
            return UnitVec3(*self);
        }
        let mx = magnitude_of(self.x.raw);
        let my = magnitude_of(self.y.raw);
        let mz = magnitude_of(self.z.raw);
        let short = mx < SHORT_RAW as u128 && my < SHORT_RAW as u128 && mz < SHORT_RAW as u128;
        proof {
            lemma_times_one(mx as int);
            lemma_times_one(my as int);
            lemma_times_one(mz as int);
        }
        let a: u128 = if short { mx * (ONE_RAW as u128) } else { mx };
        let b: u128 = if short { my * (ONE_RAW as u128) } else { my };
        let c: u128 = if short { mz * (ONE_RAW as u128) } else { mz };
        proof {
            let ghost sx = stretched(self.x@, short);
            let ghost sy = stretched(self.y@, short);
            let ghost sz = stretched(self.z@, short);
            lemma_stretched_magnitude(self.x@, short);
            lemma_stretched_magnitude(self.y@, short);
            lemma_stretched_magnitude(self.z@, short);
            lemma_square_bound(a as int);
            lemma_square_bound(b as int);
            lemma_square_bound(c as int);
            lemma_square_of_magnitude(sx);
            lemma_square_of_magnitude(sy);
            lemma_square_of_magnitude(sz);
        }
        let len = integer_sqrt(a * a + b * b + c * c);
        proof {
            lemma_len_positive(a as int, b as int, c as int, len as int);
            crate::scalar::lemma_product_sign(stretched(self.x@, short), ONE_RAW as int);
            crate::scalar::lemma_product_sign(stretched(self.y@, short), ONE_RAW as int);
            crate::scalar::lemma_product_sign(stretched(self.z@, short), ONE_RAW as int);
        }
        UnitVec3(
            Vec3 {
                x: Scalar { raw: with_sign(self.x.raw < 0, a * (ONE_RAW as u128) / len) },
                y: Scalar { raw: with_sign(self.y.raw < 0, b * (ONE_RAW as u128) / len) },
                z: Scalar { raw: with_sign(self.z.raw < 0, c * (ONE_RAW as u128) / len) },
            },
        )
    }
}

proof fn lemma_stretched_magnitude(c: int, short: bool)
    requires
        magnitude(c) <= 0x8000_0000_0000_0000,
        short ==> magnitude(c) < SHORT_RAW,
    ensures
        magnitude(stretched(c, short)) == (if short {
            magnitude(c) * ONE_RAW
        } else {
            magnitude(c)
        }),
        magnitude(stretched(c, short)) <= 0x8000_0000_0000_0000,
        (stretched(c, short) < 0) == (c < 0),
        (stretched(c, short) == 0) == (c == 0),
{
    if short {
        crate::scalar::lemma_product_sign(c, ONE_RAW as int);
        assert(magnitude(c) * ONE_RAW <= 0x8000_0000_0000_0000) by (nonlinear_arith)
            requires
                0 <= magnitude(c) < 0x8000_0000,
                ONE_RAW == 0x1_0000_0000,
        ;
        assert((c * ONE_RAW == 0) == (c == 0)) by (nonlinear_arith)
            requires
                ONE_RAW == 0x1_0000_0000,
        ;
    }
}

proof fn lemma_times_one(m: int)
    requires
        0 <= m <= 0x8000_0000_0000_0000,
    ensures
        0 <= m * ONE_RAW <= 0x8000_0000_0000_0000_0000_0000,
        m * 0x1_0000_0000 == m * ONE_RAW,
{
    assert(0 <= m * ONE_RAW <= 0x8000_0000_0000_0000_0000_0000) by (nonlinear_arith)
        requires
            0 <= m <= 0x8000_0000_0000_0000,
            ONE_RAW == 0x1_0000_0000,
    ;
}

proof fn lemma_square_bound(a: int)
    requires
        0 <= a <= 0x8000_0000_0000_0000,
    ensures
        0 <= a * a <= 0x4000_0000_0000_0000_0000_0000_0000_0000,
{
    assert(0 <= a * a <= 0x8000_0000_0000_0000 * 0x8000_0000_0000_0000) by (nonlinear_arith)
        requires
            0 <= a <= 0x8000_0000_0000_0000,
    ;
}

proof fn lemma_square_of_magnitude(c: int)
    ensures
        magnitude(c) * magnitude(c) == c * c,
{
    assert(magnitude(c) * magnitude(c) == c * c) by (nonlinear_arith)
        requires
            magnitude(c) == c || magnitude(c) == -c,
    ;
}

proof fn lemma_len_positive(a: int, b: int, c: int, len: int)
    requires
        0 <= a,
        0 <= b,
        0 <= c,
        a > 0 || b > 0 || c > 0,
        0 <= len,
        a * a + b * b + c * c < (len + 1) * (len + 1),
    ensures
        len > 0,
{
    assert(a * a + b * b + c * c >= 1) by (nonlinear_arith)
        requires
            0 <= a,
            0 <= b,
            0 <= c,
            a > 0 || b > 0 || c > 0,
    ;
    if len == 0 {
        assert((len + 1) * (len + 1) == 1) by (nonlinear_arith)
            requires
                len == 0,
        ;
    }
}

/// What dividing a magnitude `a` by a length `len` that is at least as large
/// gives: `u = a / len` in fixed point, rounded down.
proof fn lemma_component(a: int, len: int, u: int)
    requires
        0 <= a <= len,
        0 < len,
        u == (a * ONE_RAW) / len,
    ensures
        0 <= u <= ONE_RAW,
        u * len <= a * ONE_RAW,
        a * ONE_RAW < (u + 1) * len,
        (u * len) * (u * len) <= (a * ONE_RAW) * (a * ONE_RAW),
        (a * ONE_RAW) * (a * ONE_RAW) < ((u + 1) * len) * ((u + 1) * len),
{
    let n = a * ONE_RAW;
    assert(0 <= n <= ONE_RAW * len) by (nonlinear_arith)
        requires
            n == a * ONE_RAW,
            0 <= a <= len,
            ONE_RAW > 0,
    ;
    vstd::arithmetic::div_mod::lemma_fundamental_div_mod(n, len);
    vstd::arithmetic::div_mod::lemma_mod_bound(n, len);
    vstd::arithmetic::div_mod::lemma_div_pos_is_pos(n, len);
    assert(len * u == u * len) by (nonlinear_arith);
    assert((u + 1) * len == u * len + len) by (nonlinear_arith);
    if u > ONE_RAW {
        assert(u * len >= (ONE_RAW + 1) * len) by (nonlinear_arith)
            requires
                u >= ONE_RAW + 1,
                len > 0,
        ;
        assert((ONE_RAW + 1) * len == ONE_RAW * len + len) by (nonlinear_arith);
    }
    let p = u * len;
    let q = (u + 1) * len;
    assert(0 <= p) by (nonlinear_arith)
        requires
            p == u * len,
            0 <= u,
            0 < len,
    ;
    assert(p * p <= n * n) by (nonlinear_arith)
        requires
            0 <= p <= n,
    ;
    assert(n * n < q * q) by (nonlinear_arith)
        requires
            0 <= n < q,
    ;
}

/// The squared length of a normalized vector. `a`, `b`, `c` are the
/// magnitudes that were divided, `len` the length that divided them, and
/// `ua`, `ub`, `uc` the quotients.
proof fn lemma_normalized(a: int, b: int, c: int, len: int, ua: int, ub: int, uc: int)
    requires
        0 <= a,
        0 <= b,
        0 <= c,
        0x8000_0000 <= len,
        len * len <= a * a + b * b + c * c,
        a * a + b * b + c * c < (len + 1) * (len + 1),
        ua == (a * ONE_RAW) / len,
        ub == (b * ONE_RAW) / len,
        uc == (c * ONE_RAW) / len,
    ensures
        0 <= ua <= ONE_RAW,
        0 <= ub <= ONE_RAW,
        0 <= uc <= ONE_RAW,
        ONE_RAW * ONE_RAW - 6 * ONE_RAW - 3 <= ua * ua + ub * ub + uc * uc,
        ua * ua + ub * ub + uc * uc <= ONE_RAW * ONE_RAW + 4 * ONE_RAW + 3,
{
    lemma_below_length(a, b, c, len);
    lemma_below_length(b, a, c, len);
    lemma_below_length(c, a, b, len);
    lemma_component(a, len, ua);
    lemma_component(b, len, ub);
    lemma_component(c, len, uc);
    let one = ONE_RAW as int;
    let s = a * a + b * b + c * c;
    let u = ua * ua + ub * ub + uc * uc;
    let ll = len * len;
    let oo = one * one;
    // the squares of the three quotients, scaled back, stay below the squares
    assert((ua * len) * (ua * len) == (ua * ua) * ll) by (nonlinear_arith)
        requires
            ll == len * len,
    ;
    assert((ub * len) * (ub * len) == (ub * ub) * ll) by (nonlinear_arith)
        requires
            ll == len * len,
    ;
    assert((uc * len) * (uc * len) == (uc * uc) * ll) by (nonlinear_arith)
        requires
            ll == len * len,
    ;
    assert((a * one) * (a * one) == (a * a) * oo) by (nonlinear_arith)
        requires
            oo == one * one,
    ;
    assert((b * one) * (b * one) == (b * b) * oo) by (nonlinear_arith)
        requires
            oo == one * one,
    ;
    assert((c * one) * (c * one) == (c * c) * oo) by (nonlinear_arith)
        requires
            oo == one * one,
    ;
    assert(u * ll == (ua * ua) * ll + (ub * ub) * ll + (uc * uc) * ll) by (nonlinear_arith)
        requires
            u == ua * ua + ub * ub + uc * uc,
    ;
    assert(s * oo == (a * a) * oo + (b * b) * oo + (c * c) * oo) by (nonlinear_arith)
        requires
            s == a * a + b * b + c * c,
    ;
    assert(u * ll <= s * oo);
    // upper bound
    let top = (len + 1) * (len + 1);
    assert(s * oo < top * oo) by (nonlinear_arith)
        requires
            s < top,
            oo == one * one,
            one > 0,
    ;
    if u >= (one + 2) * (one + 2) {
        assert(u * ll >= ((one + 2) * (one + 2)) * ll) by (nonlinear_arith)
            requires
                u >= (one + 2) * (one + 2),
                ll == len * len,
        ;
        let x = (one + 2) * len;
        let y = (len + 1) * one;
        assert(x >= y && y >= 0) by (nonlinear_arith)
            requires
                x == (one + 2) * len,
                y == (len + 1) * one,
                2 * len >= one,
                one > 0,
                len > 0,
        ;
        assert(x * x >= y * y) by (nonlinear_arith)
            requires
                x >= y,
                y >= 0,
        ;
        assert(x * x == ((one + 2) * (one + 2)) * ll) by (nonlinear_arith)
            requires
                x == (one + 2) * len,
                ll == len * len,
        ;
        assert(y * y == top * oo) by (nonlinear_arith)
            requires
                y == (len + 1) * one,
                top == (len + 1) * (len + 1),
                oo == one * one,
        ;
        assert(false);
    }
    assert((one + 2) * (one + 2) == oo + 4 * one + 4) by (nonlinear_arith)
        requires
            oo == one * one,
    ;
    // lower bound
    let v = (ua + 1) * (ua + 1) + (ub + 1) * (ub + 1) + (uc + 1) * (uc + 1);
    assert(((ua + 1) * len) * ((ua + 1) * len) == ((ua + 1) * (ua + 1)) * ll) by (nonlinear_arith)
        requires
            ll == len * len,
    ;
    assert(((ub + 1) * len) * ((ub + 1) * len) == ((ub + 1) * (ub + 1)) * ll) by (nonlinear_arith)
        requires
            ll == len * len,
    ;
    assert(((uc + 1) * len) * ((uc + 1) * len) == ((uc + 1) * (uc + 1)) * ll) by (nonlinear_arith)
        requires
            ll == len * len,
    ;
    assert(v * ll == ((ua + 1) * (ua + 1)) * ll + ((ub + 1) * (ub + 1)) * ll + ((uc + 1) * (uc
        + 1)) * ll) by (nonlinear_arith)
        requires
            v == (ua + 1) * (ua + 1) + (ub + 1) * (ub + 1) + (uc + 1) * (uc + 1),
    ;
    assert(s * oo < v * ll);
    assert(ll * oo <= s * oo) by (nonlinear_arith)
        requires
            ll <= s,
            oo == one * one,
    ;
    assert(oo < v) by (nonlinear_arith)
        requires
            ll * oo < v * ll,
            ll == len * len,
            len > 0,
    ;
    assert(v == u + 2 * (ua + ub + uc) + 3) by (nonlinear_arith)
        requires
            v == (ua + 1) * (ua + 1) + (ub + 1) * (ub + 1) + (uc + 1) * (uc + 1),
            u == ua * ua + ub * ub + uc * uc,
    ;
}

/// A component is no longer than the whole vector.
proof fn lemma_below_length(a: int, b: int, c: int, len: int)
    requires
        0 <= a,
        0 <= len,
        a * a + b * b + c * c < (len + 1) * (len + 1),
    ensures
        a <= len,
{
    assert(b * b >= 0 && c * c >= 0) by (nonlinear_arith);
    if a > len {
        assert(a * a >= (len + 1) * (len + 1)) by (nonlinear_arith)
            requires
                a >= len + 1,
                len >= 0,
        ;
    }
}

/// A raw value that is not zero is at least one in magnitude once it is
/// scaled up.
proof fn lemma_scaled_up(c: int)
    ensures
        magnitude(c * ONE_RAW) >= ONE_RAW || c == 0,
{
    let scaled = c * ONE_RAW;
    assert(magnitude(scaled) >= ONE_RAW || c == 0) by (nonlinear_arith)
        requires
            scaled == c * ONE_RAW,
            ONE_RAW == 0x1_0000_0000,
            magnitude(scaled) == if scaled < 0 {
                -scaled
            } else {
                scaled
            },
    ;
}

/// The length that `unit` divides by is at least 2^31, unless the vector is
/// zero.
proof fn lemma_stretched_len_is_long(x: int, y: int, z: int)
    requires
        x != 0 || y != 0 || z != 0,
    ensures
        stretched_len(x, y, z) >= SHORT_RAW,
{
    let short = is_short(x, y, z);
    let a = stretched(x, short);
    let b = stretched(y, short);
    let c = stretched(z, short);
    let s = a * a + b * b + c * c;
    assert(a * a >= 0 && b * b >= 0 && c * c >= 0) by (nonlinear_arith);
    // one of the three is at least 2^31 in magnitude
    let m = if magnitude(a) >= SHORT_RAW {
        a
    } else if magnitude(b) >= SHORT_RAW {
        b
    } else {
        c
    };
    if short {
        lemma_scaled_up(x);
        lemma_scaled_up(y);
        lemma_scaled_up(z);
    }
    assert(magnitude(m) >= SHORT_RAW);
    assert(m * m >= SHORT_RAW * SHORT_RAW) by (nonlinear_arith)
        requires
            magnitude(m) >= SHORT_RAW,
            magnitude(m) == m || magnitude(m) == -m,
            SHORT_RAW > 0,
    ;
    assert(s >= SHORT_RAW * SHORT_RAW);
    assert(SHORT_RAW * SHORT_RAW < (SHORT_RAW + 1) * (SHORT_RAW + 1)) by (nonlinear_arith)
        requires
            SHORT_RAW > 0,
    ;
    crate::scalar::lemma_floor_sqrt_unique((SHORT_RAW * SHORT_RAW) as nat, SHORT_RAW as nat);
    crate::scalar::lemma_floor_sqrt_monotone((SHORT_RAW * SHORT_RAW) as nat, s as nat);
}

/// The raw sum of the squares of the components.
pub open spec fn raw_square_sum(v: Vec3) -> int {
    v.x@ * v.x@ + v.y@ * v.y@ + v.z@ * v.z@
}

/// No component of a normalized vector exceeds one in magnitude.
pub proof fn lemma_unit_components(v: Vec3)
    ensures
        -ONE_RAW <= v.spec_unit().0.x.raw <= ONE_RAW,
        -ONE_RAW <= v.spec_unit().0.y.raw <= ONE_RAW,
        -ONE_RAW <= v.spec_unit().0.z.raw <= ONE_RAW,
{
    if !v.is_zero() {
        lemma_unit_parts(v);
    }
}

/// The parts of a normalized vector: each raw component is, up to its sign,
/// the quotient that `lemma_normalized` speaks of.
proof fn lemma_unit_parts(v: Vec3)
    requires
        !v.is_zero(),
    ensures
        -ONE_RAW <= v.spec_unit().0.x.raw <= ONE_RAW,
        -ONE_RAW <= v.spec_unit().0.y.raw <= ONE_RAW,
        -ONE_RAW <= v.spec_unit().0.z.raw <= ONE_RAW,
        ONE_RAW * ONE_RAW - 6 * ONE_RAW - 3 <= raw_square_sum(v.spec_unit().0),
        raw_square_sum(v.spec_unit().0) <= ONE_RAW * ONE_RAW + 4 * ONE_RAW + 3,
{
    let (x, y, z) = (v.x@, v.y@, v.z@);
    let short = is_short(x, y, z);
    let sx = stretched(x, short);
    let sy = stretched(y, short);
    let sz = stretched(z, short);
    let a = magnitude(sx);
    let b = magnitude(sy);
    let c = magnitude(sz);
    let len = stretched_len(x, y, z) as int;
    lemma_stretched_len_is_long(x, y, z);
    lemma_square_of_magnitude(sx);
    lemma_square_of_magnitude(sy);
    lemma_square_of_magnitude(sz);
    assert(sx * sx >= 0 && sy * sy >= 0 && sz * sz >= 0) by (nonlinear_arith);
    crate::scalar::lemma_floor_sqrt_bounds((sx * sx + sy * sy + sz * sz) as nat);
    let ua = (a * ONE_RAW) / len;
    let ub = (b * ONE_RAW) / len;
    let uc = (c * ONE_RAW) / len;
    lemma_normalized(a, b, c, len, ua, ub, uc);
    crate::scalar::lemma_product_sign(sx, ONE_RAW as int);
    crate::scalar::lemma_product_sign(sy, ONE_RAW as int);
    crate::scalar::lemma_product_sign(sz, ONE_RAW as int);
    let u = v.spec_unit().0;
    assert(u.x@ == ua || u.x@ == -ua);
    assert(u.y@ == ub || u.y@ == -ub);
    assert(u.z@ == uc || u.z@ == -uc);
    assert(u.x@ * u.x@ == ua * ua) by (nonlinear_arith)
        requires
            u.x@ == ua || u.x@ == -ua,
    ;
    assert(u.y@ * u.y@ == ub * ub) by (nonlinear_arith)
        requires
            u.y@ == ub || u.y@ == -ub,
    ;
    assert(u.z@ * u.z@ == uc * uc) by (nonlinear_arith)
        requires
            u.z@ == uc || u.z@ == -uc,
    ;
}

/// The square of a component of magnitude at most one, in fixed point.
proof fn lemma_square_in_fixed_point(c: Scalar)
    requires
        -ONE_RAW <= c.raw <= ONE_RAW,
    ensures
        0 <= c.spec_mul(c).raw <= ONE_RAW,
        c.raw * c.raw - ONE_RAW < c.spec_mul(c).raw * ONE_RAW <= c.raw * c.raw,
{
    reveal(Scalar::spec_mul);
    let n = c.raw * c.raw;
    assert(0 <= n <= ONE_RAW * ONE_RAW) by (nonlinear_arith)
        requires
            n == c.raw * c.raw,
            -ONE_RAW <= c.raw <= ONE_RAW,
    ;
    vstd::arithmetic::div_mod::lemma_fundamental_div_mod(n, ONE_RAW as int);
    vstd::arithmetic::div_mod::lemma_mod_bound(n, ONE_RAW as int);
    vstd::arithmetic::div_mod::lemma_div_pos_is_pos(n, ONE_RAW as int);
    vstd::arithmetic::div_mod::lemma_div_is_ordered(n, ONE_RAW * ONE_RAW, ONE_RAW as int);
    vstd::arithmetic::div_mod::lemma_div_multiples_vanish(ONE_RAW as int, ONE_RAW as int);
    assert(ONE_RAW * (n / (ONE_RAW as int)) == (n / (ONE_RAW as int)) * ONE_RAW)
        by (nonlinear_arith);
}

/// The unit-vector law: a vector that is not zero is normalized to length
/// one. The squared raw length of the result differs from the square of one
/// by less than seven raw units of one, and `len` gives a length within five
/// raw units of one, which is about a billionth.
pub proof fn lemma_unit_has_length_one(v: Vec3)
    requires
        !v.is_zero(),
    ensures
        ONE_RAW * ONE_RAW - 6 * ONE_RAW - 3 <= raw_square_sum(v.spec_unit().0),
        raw_square_sum(v.spec_unit().0) <= ONE_RAW * ONE_RAW + 4 * ONE_RAW + 3,
        ONE_RAW - 5 <= v.spec_unit().0.spec_len().raw <= ONE_RAW + 2,
{
    lemma_unit_parts(v);
    let u = v.spec_unit().0;
    lemma_square_in_fixed_point(u.x);
    lemma_square_in_fixed_point(u.y);
    lemma_square_in_fixed_point(u.z);
    let one = ONE_RAW as int;
    let total = u.x.spec_mul(u.x).spec_add(u.y.spec_mul(u.y)).spec_add(u.z.spec_mul(u.z));
    let t = total.raw as int;
    assert(t == u.x.spec_mul(u.x).raw + u.y.spec_mul(u.y).raw + u.z.spec_mul(u.z).raw);
    let n = t * one;
    assert(n == u.x.spec_mul(u.x).raw * one + u.y.spec_mul(u.y).raw * one + u.z.spec_mul(
        u.z,
    ).raw * one) by (nonlinear_arith)
        requires
            n == t * one,
            t == u.x.spec_mul(u.x).raw + u.y.spec_mul(u.y).raw + u.z.spec_mul(u.z).raw,
    ;
    assert(one * one == 0x1_0000_0000_0000_0000) by (nonlinear_arith)
        requires
            one == 0x1_0000_0000,
    ;
    assert(one * one - 9 * one <= n <= one * one + 4 * one + 3);
    assert(t > 0) by (nonlinear_arith)
        requires
            n == t * one,
            n > 0,
            one > 0,
    ;
    reveal(Scalar::spec_sqrt);
    let r = crate::scalar::floor_sqrt(n as nat) as int;
    crate::scalar::lemma_floor_sqrt_bounds(n as nat);
    if r < one - 5 {
        assert((r + 1) * (r + 1) <= (one - 5) * (one - 5)) by (nonlinear_arith)
            requires
                0 <= r + 1 <= one - 5,
        ;
        assert((one - 5) * (one - 5) == one * one - 10 * one + 25) by (nonlinear_arith);
    }
    if r > one + 2 {
        assert(r * r >= (one + 3) * (one + 3)) by (nonlinear_arith)
            requires
                r >= one + 3,
                one > 0,
        ;
        assert((one + 3) * (one + 3) == one * one + 6 * one + 9) by (nonlinear_arith);
    }
    assert(total.spec_sqrt().raw == r);
}

/// Reversing a vector keeps its length, where no component is the lowest
/// number that there is.
pub proof fn lemma_neg_keeps_length(v: Vec3)
    requires
        v.x.raw > i64::MIN,
        v.y.raw > i64::MIN,
        v.z.raw > i64::MIN,
    ensures
        v.spec_neg().spec_len() == v.spec_len(),
        v.spec_neg().spec_neg() == v,
{
    reveal(Scalar::spec_mul);
    assert((-v.x.raw) * (-v.x.raw) == v.x.raw * v.x.raw) by (nonlinear_arith);
    assert((-v.y.raw) * (-v.y.raw) == v.y.raw * v.y.raw) by (nonlinear_arith);
    assert((-v.z.raw) * (-v.z.raw) == v.z.raw * v.z.raw) by (nonlinear_arith);
}

impl UnitVec3 {
    /// The opposite direction.
    pub open spec fn spec_neg(self) -> UnitVec3 {
        UnitVec3(self.0.spec_neg())
    }

    /// The direction that three draws from `[-1, 1)` give.
    pub open spec fn spec_from_draws(x: i64, y: i64, z: i64) -> UnitVec3 {
        (Vec3 { x: Scalar { raw: x }, y: Scalar { raw: y }, z: Scalar { raw: z } }).spec_unit()
    }

    /// Takes `v` as a direction without normalizing it.
    pub fn unchecked_from(v: &Vec3) -> (r: UnitVec3)
        ensures
            r.0 == *v,
    {
        UnitVec3(*v)
    }

    pub fn get(&self) -> (r: &Vec3)
        ensures
            *r == self.0,
    {
        &self.0
    }

    pub fn neg(&self) -> (r: UnitVec3)
        ensures
            r == self.spec_neg(),
    {
        UnitVec3(self.0.neg())
    }

    /// The direction of a vector drawn from the cube `[-1, 1)^3`.
    pub fn random(rng: &mut RowRng) -> (r: UnitVec3)
        ensures
            final(rng).seed() == old(rng).seed(),
            final(rng).log().len() == old(rng).log().len() + 3,
            final(rng).log().take(old(rng).log().len() as int) == old(rng).log(),
            r == UnitVec3::spec_from_draws(
                final(rng).log()[old(rng).log().len() as int],
                final(rng).log()[old(rng).log().len() + 1 as int],
                final(rng).log()[old(rng).log().len() + 2 as int],
            ),
            forall|k: int|
                old(rng).log().len() <= k < final(rng).log().len() ==> -ONE_RAW
                    <= #[trigger] final(rng).log()[k] < ONE_RAW,
    {
        let x = rng.signed_unit();
        let y = rng.signed_unit();
        let z = rng.signed_unit();
        let v = Vec3 { x, y, z };
        v.unit()
    }
}

} // verus!
