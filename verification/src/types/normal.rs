//! Surface normals, tagged by the side that the ray met.
use vstd::prelude::*;

use crate::types::vec3::UnitVec3;

verus! {

/// A surface normal with the side that the ray met. `Outward` holds the
/// direction that faces the ray. `Inward` holds the opposite one: the ray met
/// the surface from behind, and `outward` reverses the direction.
#[derive(Clone, Copy, Debug, PartialEq, Eq, Structural)]
pub enum Normal {
    Inward(UnitVec3),
    Outward(UnitVec3),
}

impl Normal {
    /// The direction as it is stored, whatever the tag.
    pub open spec fn stored(self) -> UnitVec3 {
        match self {
            Normal::Inward(v) => v,
            Normal::Outward(v) => v,
        }
    }

    pub open spec fn is_inward(self) -> bool {
        self is Inward
    }

    /// The direction that faces the incoming ray.
    pub open spec fn spec_outward(self) -> UnitVec3 {
        match self {
            Normal::Inward(v) => v.spec_neg(),
            Normal::Outward(v) => v,
        }
    }

    pub fn outward(&self) -> (r: UnitVec3)
        ensures
            r == self.spec_outward(),
    {
        match self {
            Normal::Inward(v) => v.neg(),
            Normal::Outward(v) => *v,
        }
    }
}

} // verus!
