use vstd::prelude::*;
use crate::body::{Body, COORD_LIMIT, in_coord_range, store_wf};

verus! {

/// Clamp against a lower wall at `lo`: the position is raised to `lo` and an
/// outward (negative) velocity is zeroed.
pub open spec fn wall_low(p: int, v: int, lo: int) -> (int, int) {
    if p < lo {
        (lo, if v < 0 { 0 } else { v })
    } else {
        (p, v)
    }
}

/// Clamp against an upper wall at `hi`: the position is lowered to `hi` and an
/// outward (positive) velocity is zeroed.
pub open spec fn wall_high(p: int, v: int, hi: int) -> (int, int) {
    if p > hi {
        (hi, if v > 0 { 0 } else { v })
    } else {
        (p, v)
    }
}

/// The body after containment in `[-d, d] x [-d, d]`: the `-x` wall, the
/// `+x` wall, the `+z` wall and the `-z` wall, in that order, each at one
/// radius from the domain's edge.
pub open spec fn contained(b: Body, d: int) -> Body {
    let r = b.radius as int;
    let x1 = wall_low(b.x as int, b.vx as int, -d + r);
    let x2 = wall_high(x1.0, x1.1, d - r);
    let z1 = wall_high(b.z as int, b.vz as int, d - r);
    let z2 = wall_low(z1.0, z1.1, -d + r);
    Body { x: x2.0 as i64, vx: x2.1 as i64, z: z2.0 as i64, vz: z2.1 as i64, ..b }
}

/// Boundary containment of every body in a domain of half-extent `d`.
pub fn contain(bodies: &mut Vec<Body>, d: i64)
    requires
        store_wf(old(bodies)@),
        1 <= d <= COORD_LIMIT,
    ensures
        final(bodies)@.len() == old(bodies)@.len(),
        forall|i: int|
            0 <= i < old(bodies)@.len() ==> #[trigger] final(bodies)@[i] == contained(
                old(bodies)@[i],
                d as int,
            ),
        store_wf(final(bodies)@),
{
    let n = bodies.len();
    let mut i: usize = 0;
    while i < n
        invariant
            1 <= d <= COORD_LIMIT,
            n == bodies@.len(),
            n == old(bodies)@.len(),
            i <= n,
            store_wf(old(bodies)@),
            store_wf(bodies@),
            forall|k: int| 0 <= k < i ==> #[trigger] bodies@[k] == contained(old(bodies)@[k], d as int),
            forall|k: int| i <= k < n ==> #[trigger] bodies@[k] == old(bodies)@[k],
        decreases n - i,
    {
        let mut b = bodies[i];
        assert(b.wf());
        let r = b.radius;
        if b.x < -d + r {
            b.x = -d + r;
            if b.vx < 0 {
                b.vx = 0;
            }
        }
        if b.x > d - r {
            b.x = d - r;
            if b.vx > 0 {
                b.vx = 0;
            }
        }
        if b.z > d - r {
            b.z = d - r;
            if b.vz > 0 {
                b.vz = 0;
            }
        }
        if b.z < -d + r {
            b.z = -d + r;
            if b.vz < 0 {
                b.vz = 0;
            }
        }
        assert(b == contained(old(bodies)@[i as int], d as int));
        bodies.set(i, b);
        i = i + 1;
    }
}

/// Position after `dt` ticks at velocity `v`, saturated at the edge of the
/// representable range.
pub open spec fn advance(p: int, v: int, dt: int) -> int {
    let t = p + v * dt;
    if t < -COORD_LIMIT {
        -COORD_LIMIT as int
    } else if t > COORD_LIMIT {
        COORD_LIMIT as int
    } else {
        t
    }
}

pub open spec fn integrated(b: Body, dt: int) -> Body {
    Body {
        x: advance(b.x as int, b.vx as int, dt) as i64,
        z: advance(b.z as int, b.vz as int, dt) as i64,
        ..b
    }
}

fn advance_exec(p: i64, v: i64, dt: u32) -> (r: i64)
    requires
        in_coord_range(p as int),
        in_coord_range(v as int),
    ensures
        r == advance(p as int, v as int, dt as int),
{
    assert(-COORD_LIMIT * 0x1_0000_0000 <= (v as int) * (dt as int) <= COORD_LIMIT
        * 0x1_0000_0000) by (nonlinear_arith)
        requires in_coord_range(v as int), 0 <= dt <= 0xffff_ffff;
    let t: i64 = p + v * (dt as i64);
    if t < -COORD_LIMIT {
        -COORD_LIMIT
    } else if t > COORD_LIMIT {
        COORD_LIMIT
    } else {
        t
    }
}

/// Explicit Euler step: `position += velocity * dt` for every body.
pub fn integrate(bodies: &mut Vec<Body>, dt: u32)
    requires
        store_wf(old(bodies)@),
    ensures
        final(bodies)@.len() == old(bodies)@.len(),
        forall|i: int|
            0 <= i < old(bodies)@.len() ==> #[trigger] final(bodies)@[i] == integrated(
                old(bodies)@[i],
                dt as int,
            ),
        store_wf(final(bodies)@),
{
    let n = bodies.len();
    let mut i: usize = 0;
    while i < n
        invariant
            n == bodies@.len(),
            n == old(bodies)@.len(),
            i <= n,
            store_wf(old(bodies)@),
            store_wf(bodies@),
            forall|k: int| 0 <= k < i ==> #[trigger] bodies@[k] == integrated(old(bodies)@[k], dt as int),
            forall|k: int| i <= k < n ==> #[trigger] bodies@[k] == old(bodies)@[k],
        decreases n - i,
    {
        let mut b = bodies[i];
        assert(b.wf());
        b.x = advance_exec(b.x, b.vx, dt);
        b.z = advance_exec(b.z, b.vz, dt);
        bodies.set(i, b);
        i = i + 1;
    }
}

/// `v * num / den`, rounded toward zero, so a factor below one never
/// reverses or enlarges a velocity.
pub open spec fn scaled(v: int, num: int, den: int) -> int {
    if v >= 0 {
        v * num / den
    } else {
        -((-v) * num / den)
    }
}

fn scaled_exec(v: i64, num: i64, den: i64) -> (r: i64)
    requires
        in_coord_range(v as int),
        1 <= den <= crate::body::MASS_LIMIT,
        0 <= num <= den,
    ensures
        r == scaled(v as int, num as int, den as int),
        in_coord_range(r as int),
{
    let m: u64 = if v >= 0 {
        v as u64
    } else {
        (-v) as u64
    };
    assert(0 <= (m as int) * (num as int) <= (m as int) * (den as int)) by (nonlinear_arith)
        requires 0 <= num <= den, m >= 0;
    assert((m as int) * (den as int) <= COORD_LIMIT * crate::body::MASS_LIMIT) by (nonlinear_arith)
        requires 0 <= m <= COORD_LIMIT, den <= crate::body::MASS_LIMIT;
    let q: u64 = m * (num as u64) / (den as u64);
    assert(q <= m) by (nonlinear_arith)
        requires
            q as int == (m as int * num as int) / (den as int),
            m as int * num as int <= m as int * den as int,
            den >= 1,
    ;
    if v >= 0 {
        q as i64
    } else {
        -(q as i64)
    }
}

/// Friction: each velocity multiplied by `num / den` (at most one), toward zero.
pub open spec fn slowed(b: Body, num: int, den: int) -> Body {
    Body { vx: scaled(b.vx as int, num, den) as i64, vz: scaled(b.vz as int, num, den) as i64, ..b }
}

/// Multiplies every velocity by the friction factor `num / den`.
pub fn apply_friction(bodies: &mut Vec<Body>, num: i64, den: i64)
    requires
        store_wf(old(bodies)@),
        1 <= den <= crate::body::MASS_LIMIT,
        0 <= num <= den,
    ensures
        final(bodies)@.len() == old(bodies)@.len(),
        forall|i: int|
            0 <= i < old(bodies)@.len() ==> #[trigger] final(bodies)@[i] == slowed(
                old(bodies)@[i],
                num as int,
                den as int,
            ),
        store_wf(final(bodies)@),
{
    let n = bodies.len();
    let mut i: usize = 0;
    while i < n
        invariant
            n == bodies@.len(),
            n == old(bodies)@.len(),
            i <= n,
            1 <= den <= crate::body::MASS_LIMIT,
            0 <= num <= den,
            store_wf(old(bodies)@),
            store_wf(bodies@),
            forall|k: int|
                0 <= k < i ==> #[trigger] bodies@[k] == slowed(old(bodies)@[k], num as int, den as int),
            forall|k: int| i <= k < n ==> #[trigger] bodies@[k] == old(bodies)@[k],
        decreases n - i,
    {
        let mut b = bodies[i];
        assert(b.wf());
        b.vx = scaled_exec(b.vx, num, den);
        b.vz = scaled_exec(b.vz, num, den);
        bodies.set(i, b);
        i = i + 1;
    }
}

/// The body with its velocity overwritten by `(vx, vz)` if it is controlled.
pub open spec fn steered(b: Body, vx: int, vz: int) -> Body {
    if b.controlled {
        Body { vx: vx as i64, vz: vz as i64, ..b }
    } else {
        b
    }
}

/// Overwrites the velocity of every controlled body with `(vx, vz)`; the
/// others are left as they were.
pub fn steer_controlled(bodies: &mut Vec<Body>, vx: i64, vz: i64)
    requires
        store_wf(old(bodies)@),
        in_coord_range(vx as int),
        in_coord_range(vz as int),
    ensures
        final(bodies)@.len() == old(bodies)@.len(),
        forall|i: int|
            0 <= i < old(bodies)@.len() ==> #[trigger] final(bodies)@[i] == steered(
                old(bodies)@[i],
                vx as int,
                vz as int,
            ),
        store_wf(final(bodies)@),
{
    let n = bodies.len();
    let mut i: usize = 0;
    while i < n
        invariant
            n == bodies@.len(),
            n == old(bodies)@.len(),
            i <= n,
            in_coord_range(vx as int),
            in_coord_range(vz as int),
            store_wf(old(bodies)@),
            store_wf(bodies@),
            forall|k: int|
                0 <= k < i ==> #[trigger] bodies@[k] == steered(old(bodies)@[k], vx as int, vz as int),
            forall|k: int| i <= k < n ==> #[trigger] bodies@[k] == old(bodies)@[k],
        decreases n - i,
    {
        let mut b = bodies[i];
        assert(b.wf());
        if b.controlled {
            b.vx = vx;
            b.vz = vz;
        }
        assert(b.wf());
        bodies.set(i, b);
        i = i + 1;
    }
}

} // verus!
