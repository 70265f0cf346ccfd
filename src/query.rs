use vstd::prelude::*;
use crate::arith::{isqrt, root};
use crate::body::{Body, COORD_LIMIT, store_wf};
use crate::config::Config;

verus! {

/// Read-only view for drawing: each body's centre and radius, by handle.
pub fn circles(bodies: &Vec<Body>) -> (out: Vec<(i64, i64, i64)>)
    ensures
        out@.len() == bodies@.len(),
        forall|k: int|
            0 <= k < out@.len() ==> #[trigger] out@[k] == (bodies@[k].x, bodies@[k].z, bodies@[k].radius),
{
    let mut out: Vec<(i64, i64, i64)> = Vec::new();
    let mut k: usize = 0;
    while k < bodies.len()
        invariant
            k <= bodies@.len(),
            out@.len() == k,
            forall|m: int|
                0 <= m < k ==> #[trigger] out@[m] == (bodies@[m].x, bodies@[m].z, bodies@[m].radius),
        decreases bodies@.len() - k,
    {
        let b = &bodies[k];
        out.push((b.x, b.z, b.radius));
        k = k + 1;
    }
    out
}

/// Cell boundaries along one axis, for drawing the grid: `B + 1` lines at
/// `-D + k * 2D / B`, rounded down, from `-D` to `D`.
pub fn cell_boundaries(cfg: &Config) -> (out: Vec<i64>)
    requires
        cfg.wf(),
    ensures
        out@.len() == cfg.buckets + 1,
        forall|k: int|
            0 <= k <= cfg.buckets ==> #[trigger] out@[k] == -cfg.half_extent + k * (2
                * cfg.half_extent) / (cfg.buckets as int),
{
    let b = cfg.buckets;
    let d = cfg.half_extent;
    let mut out: Vec<i64> = Vec::new();
    let mut k: usize = 0;
    while k <= b
        invariant
            cfg.wf(),
            b == cfg.buckets,
            d == cfg.half_extent,
            k <= b + 1,
            out@.len() == k,
            forall|m: int|
                0 <= m < k ==> #[trigger] out@[m] == -d + m * (2 * d) / (b as int),
        decreases b + 1 - k,
    {
        assert(0 <= (k as int) * (2 * d as int) <= 65536 * 2 * COORD_LIMIT) by (nonlinear_arith)
            requires k <= 65536, 0 <= d <= COORD_LIMIT;
        let off: i64 = (k as i64) * (2 * d) / (b as i64);
        assert(off <= 65536 * 2 * COORD_LIMIT) by (nonlinear_arith)
            requires off == (k as int) * (2 * d as int) / (b as int), b >= 1, (k as int) * (2 * d as int) <= 65536 * 2 * COORD_LIMIT;
        out.push(-d + off);
        k = k + 1;
    }
    out
}

/// Velocity from directional input: `(right - left, down - up)` scaled to
/// length `speed`, each component rounded toward zero; zero when the keys
/// cancel. On a diagonal each component is `root(speed^2 / 2)`, the largest
/// `m` with `2 m^2 <= speed^2`.
pub open spec fn input_velocity_spec(up: bool, down: bool, left: bool, right: bool, speed: int) -> (int, int) {
    let dx = (if right { 1int } else { 0 }) - (if left { 1int } else { 0 });
    let dz = (if down { 1int } else { 0 }) - (if up { 1int } else { 0 });
    if dx != 0 && dz != 0 {
        let m = root(speed * speed / 2);
        (dx * m, dz * m)
    } else {
        (dx * speed, dz * speed)
    }
}

fn signed(dir: i64, v: i64) -> (r: i64)
    requires
        -1 <= dir <= 1,
        0 <= v <= COORD_LIMIT,
    ensures
        r == dir * v,
        -COORD_LIMIT <= r <= COORD_LIMIT,
{
    if dir > 0 {
        assert(dir * v == v) by (nonlinear_arith)
            requires dir == 1;
        v
    } else if dir < 0 {
        assert(dir * v == -v) by (nonlinear_arith)
            requires dir == -1;
        -v
    } else {
        assert(dir * v == 0) by (nonlinear_arith)
            requires dir == 0;
        0
    }
}

pub fn input_velocity(up: bool, down: bool, left: bool, right: bool, speed: i64) -> (r: (i64, i64))
    requires
        0 <= speed <= COORD_LIMIT,
    ensures
        r.0 == input_velocity_spec(up, down, left, right, speed as int).0,
        r.1 == input_velocity_spec(up, down, left, right, speed as int).1,
        -COORD_LIMIT <= r.0 <= COORD_LIMIT,
        -COORD_LIMIT <= r.1 <= COORD_LIMIT,
{
    let dx: i64 = (if right { 1 } else { 0 }) - (if left { 1 } else { 0 });
    let dz: i64 = (if down { 1 } else { 0 }) - (if up { 1 } else { 0 });
    if dx != 0 && dz != 0 {
        assert(0 <= (speed as int) * (speed as int) <= COORD_LIMIT * COORD_LIMIT) by (nonlinear_arith)
            requires 0 <= speed <= COORD_LIMIT;
        let m: u64 = isqrt(((speed as u64) * (speed as u64)) / 2);
        assert(m <= speed) by (nonlinear_arith)
            requires m * m <= (speed as int) * (speed as int) / 2, m >= 0, speed >= 0;
        (signed(dx, m as i64), signed(dz, m as i64))
    } else {
        (signed(dx, speed), signed(dz, speed))
    }
}

} // verus!
