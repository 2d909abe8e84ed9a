//! Surface colours as functions of the hit.
use vstd::prelude::*;

use crate::render::color::Color;
use crate::render::hittable::Hit;
use crate::scalar::{Scalar, ONE_RAW};
use crate::trig::{sin_half_turns, spec_sin_half_turns, HALF_RAW};
use crate::types::normal::Normal;

verus! {

/// How a surface gets its colour.
#[derive(Clone, Copy, Debug, PartialEq, Eq, Structural)]
pub enum Colorer {
    /// A blend of two colours by the height of the outward normal.
    ZGradient { bottom: Color, top: Color },
    /// One colour everywhere.
    Solid(Color),
    /// Stripes that follow the stored normal.
    Bubblegum,
}

/// The weight of the top colour: `(z + 1) / 2`.
pub open spec fn spec_gradient_weight(z: Scalar) -> Scalar {
    (Scalar { raw: HALF_RAW }).spec_mul(z.spec_add(Scalar { raw: ONE_RAW }))
}

/// One channel of the stripes: `sin(pi c) + 1`, before halving.
pub open spec fn spec_stripe(c: Scalar) -> Scalar {
    spec_sin_half_turns(c).spec_add(Scalar { raw: ONE_RAW })
}

impl Colorer {
    /// Whether no colour that the colorer holds has a negative channel.
    pub open spec fn is_non_negative(self) -> bool {
        match self {
            Colorer::ZGradient { bottom, top } => bottom.non_negative() && top.non_negative(),
            Colorer::Solid(color) => color.non_negative(),
            Colorer::Bubblegum => true,
        }
    }

    /// The colour at a hit with the given normal.
    pub open spec fn spec_color(self, normal: Normal) -> Color {
        match self {
            Colorer::ZGradient { bottom, top } => {
                let t = spec_gradient_weight(normal.spec_outward().0.z);
                top.spec_scale(t).spec_add(
                    bottom.spec_scale((Scalar { raw: ONE_RAW }).spec_sub(t)),
                )
            },
            Colorer::Solid(color) => color,
            Colorer::Bubblegum => {
                let n = normal.stored().0;
                let stripes = Color { r: spec_stripe(n.x), g: spec_stripe(n.y), b: spec_stripe(n.z) };
                stripes.spec_scale(Scalar { raw: HALF_RAW })
            },
        }
    }

    pub fn color(&self, hit: &Hit) -> (c: Color)
        ensures
            c == self.spec_color(hit.normal),
    {
        match self {
            Colorer::ZGradient { bottom, top } => {
                let z = hit.normal.outward().get().z;
                let t = Scalar::from_raw(HALF_RAW).mul(z.add(Scalar::one()));
                top.scale(t).add(bottom.scale(Scalar::one().sub(t)))
            },
            Colorer::Solid(color) => *color,
            Colorer::Bubblegum => {
                let n = match &hit.normal {
                    Normal::Inward(v) => v,
                    Normal::Outward(v) => v,
                };
                let v = n.get();
                Color::new(stripe(v.x), stripe(v.y), stripe(v.z)).scale(Scalar::from_raw(HALF_RAW))
            },
        }
    }
}

/// A colorer without negative colours gives no negative channel. For a
/// gradient this holds where the outward normal's z component lies between
/// minus one and one, as it does for every normalized direction.
pub proof fn lemma_color_non_negative(colorer: Colorer, normal: Normal)
    requires
        colorer.is_non_negative(),
        colorer is ZGradient ==> -ONE_RAW <= normal.spec_outward().0.z.raw <= ONE_RAW,
    ensures
        colorer.spec_color(normal).non_negative(),
{
    let one = Scalar { raw: ONE_RAW };
    let half = Scalar { raw: HALF_RAW };
    match colorer {
        Colorer::ZGradient { bottom, top } => {
            let z = normal.spec_outward().0.z;
            let w = z.spec_add(one);
            let t = spec_gradient_weight(z);
            crate::scalar::lemma_mul_non_negative(half, w);
            crate::scalar::lemma_mul_monotone(half, w, Scalar { raw: crate::trig::TWO_RAW });
            assert(half.spec_mul(Scalar { raw: crate::trig::TWO_RAW }) == one) by {
                reveal(Scalar::spec_mul);
                assert(HALF_RAW * crate::trig::TWO_RAW == ONE_RAW * ONE_RAW) by (nonlinear_arith)
                    requires
                        2 * HALF_RAW == ONE_RAW,
                        crate::trig::TWO_RAW == 2 * ONE_RAW,
                ;
                crate::scalar::lemma_quotient_of_multiple(ONE_RAW as int, ONE_RAW as int);
            }
            let rest = one.spec_sub(t);
            crate::scalar::lemma_mul_non_negative(t, top.r);
            crate::scalar::lemma_mul_non_negative(t, top.g);
            crate::scalar::lemma_mul_non_negative(t, top.b);
            crate::scalar::lemma_mul_non_negative(rest, bottom.r);
            crate::scalar::lemma_mul_non_negative(rest, bottom.g);
            crate::scalar::lemma_mul_non_negative(rest, bottom.b);
        },
        Colorer::Solid(color) => {},
        Colorer::Bubblegum => {
            let n = normal.stored().0;
            crate::trig::lemma_sine_range(n.x@);
            crate::trig::lemma_sine_range(n.y@);
            crate::trig::lemma_sine_range(n.z@);
            crate::scalar::lemma_mul_non_negative(half, spec_stripe(n.x));
            crate::scalar::lemma_mul_non_negative(half, spec_stripe(n.y));
            crate::scalar::lemma_mul_non_negative(half, spec_stripe(n.z));
        },
    }
}

fn stripe(c: Scalar) -> (r: Scalar)
    ensures
        r == spec_stripe(c),
{
    sin_half_turns(c).add(Scalar::one())
}

} // verus!
