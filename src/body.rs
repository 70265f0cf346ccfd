use vstd::prelude::*;

verus! {

/// Largest magnitude a coordinate or a velocity component may take.
pub const COORD_LIMIT: i64 = 1073741824;

/// Largest mass a body may carry.
pub const MASS_LIMIT: i64 = 65536;

/// A circular body on the plane. Its handle is its index in the body store.
/// Positions and velocities are fixed-point integers in a unit of the
/// caller's choosing; `z` is the second planar axis.
#[derive(Clone, Copy, Debug, PartialEq, Eq, Structural)]
pub struct Body {
    pub x: i64,
    pub z: i64,
    pub vx: i64,
    pub vz: i64,
    pub radius: i64,
    pub mass: i64,
    pub controlled: bool,
}

pub open spec fn in_coord_range(v: int) -> bool {
    -COORD_LIMIT <= v <= COORD_LIMIT
}

impl Body {
    /// Every field within its representable range, radius and mass positive.
    pub open spec fn wf(&self) -> bool {
        &&& in_coord_range(self.x as int)
        &&& in_coord_range(self.z as int)
        &&& in_coord_range(self.vx as int)
        &&& in_coord_range(self.vz as int)
        &&& 1 <= self.radius <= COORD_LIMIT
        &&& 1 <= self.mass <= MASS_LIMIT
    }

    /// A body at rest with the given position, radius and mass; `None` when a
    /// value lies outside the ranges that `wf` admits.
    pub fn new(x: i64, z: i64, radius: i64, mass: i64) -> (r: Option<Body>)
        ensures
            r is Some <==> (in_coord_range(x as int) && in_coord_range(z as int) && 1 <= radius
                <= COORD_LIMIT && 1 <= mass <= MASS_LIMIT),
            r matches Some(b) ==> b.wf() && b.x == x && b.z == z && b.vx == 0 && b.vz == 0
                && b.radius == radius && b.mass == mass && !b.controlled,
    {
        if -COORD_LIMIT <= x && x <= COORD_LIMIT && -COORD_LIMIT <= z && z <= COORD_LIMIT && 1
            <= radius && radius <= COORD_LIMIT && 1 <= mass && mass <= MASS_LIMIT {
            Some(Body { x, z, vx: 0, vz: 0, radius, mass, controlled: false })
        } else {
            None
        }
    }
}

/// Every body of the store is well formed.
pub open spec fn store_wf(s: Seq<Body>) -> bool {
    forall|i: int| 0 <= i < s.len() ==> #[trigger] s[i].wf()
}

} // verus!
