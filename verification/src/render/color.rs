//! Colours: three channels that are not clamped while light is summed.
use vstd::prelude::*;

use crate::scalar::{Scalar, ONE_RAW};

verus! {

/// A colour with a red, a green and a blue channel.
#[derive(Clone, Copy, Debug, PartialEq, Eq, Structural)]
pub struct Color {
    pub r: Scalar,
    pub g: Scalar,
    pub b: Scalar,
}

impl Color {
    pub open spec fn spec_grey(value: Scalar) -> Color {
        Color { r: value, g: value, b: value }
    }

    pub open spec fn spec_black() -> Color {
        Color::spec_grey(Scalar { raw: 0 })
    }

    pub open spec fn spec_white() -> Color {
        Color::spec_grey(Scalar { raw: ONE_RAW })
    }

    /// Channel by channel sum.
    pub open spec fn spec_add(self, rhs: Color) -> Color {
        Color { r: self.r.spec_add(rhs.r), g: self.g.spec_add(rhs.g), b: self.b.spec_add(rhs.b) }
    }

    /// Channel by channel product.
    pub open spec fn spec_mul(self, rhs: Color) -> Color {
        Color { r: self.r.spec_mul(rhs.r), g: self.g.spec_mul(rhs.g), b: self.b.spec_mul(rhs.b) }
    }

    /// Every channel multiplied by `k`.
    pub open spec fn spec_scale(self, k: Scalar) -> Color {
        Color { r: k.spec_mul(self.r), g: k.spec_mul(self.g), b: k.spec_mul(self.b) }
    }

    /// Every channel divided by `k`.
    pub open spec fn spec_div(self, k: Scalar) -> Color {
        Color { r: self.r.spec_div(k), g: self.g.spec_div(k), b: self.b.spec_div(k) }
    }

    /// No channel is negative.
    pub open spec fn non_negative(self) -> bool {
        self.r.raw >= 0 && self.g.raw >= 0 && self.b.raw >= 0
    }

    pub fn new(r: Scalar, g: Scalar, b: Scalar) -> (c: Color)
        ensures
            c == (Color { r, g, b }),
    {
        Color { r, g, b }
    }

    pub fn grey(value: Scalar) -> (c: Color)
        ensures
            c == Color::spec_grey(value),
    {
        Color { r: value, g: value, b: value }
    }

    pub fn black() -> (c: Color)
        ensures
            c == Color::spec_black(),
    {
        Color::grey(Scalar::zero())
    }

    pub fn white() -> (c: Color)
        ensures
            c == Color::spec_white(),
    {
        Color::grey(Scalar::one())
    }

    pub fn add(self, rhs: Color) -> (c: Color)
        ensures
            c == self.spec_add(rhs),
    {
        Color { r: self.r.add(rhs.r), g: self.g.add(rhs.g), b: self.b.add(rhs.b) }
    }

    pub fn mul(self, rhs: Color) -> (c: Color)
        ensures
            c == self.spec_mul(rhs),
    {
        Color { r: self.r.mul(rhs.r), g: self.g.mul(rhs.g), b: self.b.mul(rhs.b) }
    }

    pub fn scale(self, k: Scalar) -> (c: Color)
        ensures
            c == self.spec_scale(k),
    {
        Color { r: k.mul(self.r), g: k.mul(self.g), b: k.mul(self.b) }
    }

    pub fn div(self, k: Scalar) -> (c: Color)
        ensures
            c == self.spec_div(k),
    {
        Color { r: self.r.div(k), g: self.g.div(k), b: self.b.div(k) }
    }
}

} // verus!
