use vstd::prelude::*;
use crate::body::{COORD_LIMIT, MASS_LIMIT};

verus! {

/// Largest number of buckets along one side of the grid: the largest `B`
/// whose `B * B` cell indices fit a 32-bit `usize`.
pub const MAX_BUCKETS: usize = 65535;

/// Simulation parameters: the domain is the square `[-D, D] x [-D, D]` with
/// `D = half_extent`, covered by `buckets x buckets` grid cells. Velocities
/// are multiplied by `friction_num / friction_den` once per step.
#[derive(Clone, Copy, Debug, PartialEq, Eq, Structural)]
pub struct Config {
    pub half_extent: i64,
    pub buckets: usize,
    pub friction_num: i64,
    pub friction_den: i64,
}

impl Config {
    pub open spec fn wf(&self) -> bool {
        &&& 1 <= self.half_extent <= COORD_LIMIT
        &&& 1 <= self.buckets <= MAX_BUCKETS
        &&& 1 <= self.friction_den <= MASS_LIMIT
        &&& 0 <= self.friction_num <= self.friction_den
    }

    /// Checks the parameters once, at setup: `None` for a non-positive or
    /// too large extent, a bucket count of zero or above `MAX_BUCKETS`, or a
    /// friction factor outside `[0, 1]`.
    pub fn new(half_extent: i64, buckets: usize, friction_num: i64, friction_den: i64) -> (r:
        Option<Config>)
        ensures
            r is Some <==> (1 <= half_extent <= COORD_LIMIT && 1 <= buckets <= MAX_BUCKETS && 1
                <= friction_den <= MASS_LIMIT && 0 <= friction_num <= friction_den),
            r matches Some(c) ==> c.wf() && c.half_extent == half_extent && c.buckets == buckets
                && c.friction_num == friction_num && c.friction_den == friction_den,
    {
        if 1 <= half_extent && half_extent <= COORD_LIMIT && 1 <= buckets && buckets <= MAX_BUCKETS
            && 1 <= friction_den && friction_den <= MASS_LIMIT && 0 <= friction_num
            && friction_num <= friction_den {
            Some(Config { half_extent, buckets, friction_num, friction_den })
        } else {
            None
        }
    }
}

} // verus!
