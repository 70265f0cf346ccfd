use vstd::prelude::*;
use vstd::arithmetic::div_mod::lemma_fundamental_div_mod_converse;
use crate::arith::{abs, lemma_floor_bounds, lemma_sep_mag, sep_mag};
use crate::body::{Body, COORD_LIMIT, store_wf};
use crate::broad::{Tag, candidate, nb, nb_ok, off_x, off_z, tag_pair, tag_valid};
use crate::config::Config;
use crate::contact::{
    Contact, closing, dist_sq, dv_a, dv_b, fits, normal_sq, normal_x, normal_z, overlaps,
    resolved_a, resolved_b, response_den, sq, target_x, target_z,
};
use crate::grid::{Grid, cell_coord, cell_of};
use crate::motion::{contained, wall_high, wall_low};

verus! {

/// Resolving an overlapping pair on its own leaves the two centres at least
/// the sum of the radii apart: the separation removes the whole penetration,
/// and overshoots by less than two units.
pub proof fn law_separation_removes_penetration(ha: int, hb: int, a: Body, b: Body, c: Contact)
    requires
        a.wf(),
        b.wf(),
        overlaps(a, b),
        c.wf(),
        c.describes(ha, hb, a, b),
        fits(a, b, c),
    ensures
        dist_sq(resolved_a(a, b, c), resolved_b(a, b, c)) >= sq(a.radius + b.radius),
        dist_sq(resolved_a(a, b, c), resolved_b(a, b, c)) < sq(a.radius + b.radius + 2),
{
    let ra = resolved_a(a, b, c);
    let rb = resolved_b(a, b, c);
    let tx = target_x(a, b);
    let tz = target_z(a, b);
    assert(rb.x - ra.x == tx);
    assert(rb.z - ra.z == tz);
    let n = normal_x(a, b);
    let m = normal_z(a, b);
    let s = a.radius + b.radius;
    let nn = normal_sq(a, b);
    assert(nn == n * n + m * m);
    assert(nn >= 1) by (nonlinear_arith)
        requires nn == n * n + m * m, !(n == 0 && m == 0);
    assert(sq(n * s) >= 0 && sq(m * s) >= 0) by (nonlinear_arith);
    lemma_sep_mag(sq(n * s), nn);
    lemma_sep_mag(sq(m * s), nn);
    let big_x = sep_mag(sq(n * s), nn);
    let big_z = sep_mag(sq(m * s), nn);
    assert(tx * tx == big_x * big_x) by (nonlinear_arith)
        requires tx == big_x || tx == -big_x;
    assert(tz * tz == big_z * big_z) by (nonlinear_arith)
        requires tz == big_z || tz == -big_z;
    assert(sq(n * s) + sq(m * s) == nn * (s * s)) by (nonlinear_arith)
        requires nn == n * n + m * m;
    assert(nn * (big_x * big_x + big_z * big_z) >= nn * (s * s)) by (nonlinear_arith)
        requires
            nn * (big_x * big_x) >= sq(n * s),
            nn * (big_z * big_z) >= sq(m * s),
            sq(n * s) + sq(m * s) == nn * (s * s),
    ;
    assert(big_x * big_x + big_z * big_z >= s * s) by (nonlinear_arith)
        requires nn * (big_x * big_x + big_z * big_z) >= nn * (s * s), nn >= 1;
    let u = if big_x == 0 { 0 } else { big_x - 1 };
    let w = if big_z == 0 { 0 } else { big_z - 1 };
    assert(nn * (u * u) <= sq(n * s)) by (nonlinear_arith)
        requires
            u == 0 || (u == big_x - 1 && nn * ((big_x - 1) * (big_x - 1)) < sq(n * s)),
            sq(n * s) >= 0,
    ;
    assert(nn * (w * w) <= sq(m * s)) by (nonlinear_arith)
        requires
            w == 0 || (w == big_z - 1 && nn * ((big_z - 1) * (big_z - 1)) < sq(m * s)),
            sq(m * s) >= 0,
    ;
    assert(u * u + w * w <= s * s) by (nonlinear_arith)
        requires
            nn * (u * u) <= sq(n * s),
            nn * (w * w) <= sq(m * s),
            sq(n * s) + sq(m * s) == nn * (s * s),
            nn >= 1,
    ;
    assert(u <= s && w <= s) by (nonlinear_arith)
        requires u * u + w * w <= s * s, u >= 0, w >= 0, s >= 0;
    assert(big_x * big_x + big_z * big_z < (s + 2) * (s + 2)) by (nonlinear_arith)
        requires
            big_x <= u + 1,
            big_z <= w + 1,
            big_x >= 0,
            big_z >= 0,
            u >= 0,
            w >= 0,
            u <= s,
            w <= s,
            u * u + w * w <= s * s,
    ;
}

/// `ma * floor(mb * x / den) - mb * floor(ma * x / den)` lies strictly
/// between `-ma` and `mb`, and is zero for equal masses.
proof fn lemma_floor_pair(ma: int, mb: int, x: int, den: int)
    requires
        ma >= 1,
        mb >= 1,
        den >= 1,
    ensures
        -ma < ma * ((mb * x) / den) - mb * ((ma * x) / den) < mb,
        ma == mb ==> ma * ((mb * x) / den) - mb * ((ma * x) / den) == 0,
{
    let fa = (mb * x) / den;
    let fb = (ma * x) / den;
    lemma_floor_bounds(mb * x, den);
    lemma_floor_bounds(ma * x, den);
    assert(den * (ma * fa) <= ma * mb * x < den * (ma * fa) + ma * den) by (nonlinear_arith)
        requires den * fa <= mb * x < den * fa + den, ma >= 1;
    assert(den * (mb * fb) <= ma * mb * x < den * (mb * fb) + mb * den) by (nonlinear_arith)
        requires den * fb <= ma * x < den * fb + den, mb >= 1;
    let p = ma * fa - mb * fb;
    assert(den * p == den * (ma * fa) - den * (mb * fb)) by (nonlinear_arith)
        requires p == ma * fa - mb * fb;
    assert(-ma < p < mb) by (nonlinear_arith)
        requires
            den * p > -(ma * den),
            den * p < mb * den,
            den >= 1,
    ;
}

/// `floor(k * m / den) * n - floor(k * n / den) * m` is less than `|n| + |m|`
/// in magnitude: rounding each component down turns a change along `(n, m)`
/// by less than `|n| + |m|` off that direction.
proof fn lemma_floor_cross(k: int, n: int, m: int, den: int)
    requires
        den >= 1,
    ensures
        abs(((k * m) / den) * n - ((k * n) / den) * m) < abs(n) + abs(m) || (n == 0 && m == 0),
{
    let fx = (k * n) / den;
    let fz = (k * m) / den;
    lemma_floor_bounds(k * n, den);
    lemma_floor_bounds(k * m, den);
    let r1 = k * n - den * fx;
    let r2 = k * m - den * fz;
    let t = fz * n - fx * m;
    assert(den * t == r1 * m - r2 * n) by (nonlinear_arith)
        requires r1 == k * n - den * fx, r2 == k * m - den * fz, t == fz * n - fx * m;
    assert(abs(r1 * m - r2 * n) <= (den - 1) * (abs(n) + abs(m))) by (nonlinear_arith)
        requires 0 <= r1 < den, 0 <= r2 < den;
    if !(n == 0 && m == 0) {
        assert(abs(t) < abs(n) + abs(m)) by (nonlinear_arith)
            requires
                abs(den * t) <= (den - 1) * (abs(n) + abs(m)),
                den >= 1,
                abs(n) + abs(m) >= 1,
                den * t == r1 * m - r2 * n,
        ;
    }
}

/// Momentum of the pair along the contact normal (in the normal's own scale).
pub open spec fn normal_momentum(a: Body, b: Body, c: Contact) -> int {
    a.mass * (a.vx * c.nx + a.vz * c.nz) + b.mass * (b.vx * c.nx + b.vz * c.nz)
}

/// The inelastic merge conserves the pair's momentum along the normal: exactly
/// for equal masses, and otherwise up to the rounding of the integer
/// velocities, less than `(ma + mb) * (|nx| + |nz|)` in the normal's scale.
pub proof fn law_normal_momentum_conserved(a: Body, b: Body, c: Contact)
    requires
        a.wf(),
        b.wf(),
        c.wf(),
        fits(a, b, c),
    ensures
        abs(normal_momentum(resolved_a(a, b, c), resolved_b(a, b, c), c) - normal_momentum(
            a,
            b,
            c,
        )) < (a.mass + b.mass) * (abs(c.nx as int) + abs(c.nz as int)),
        a.mass == b.mass ==> normal_momentum(resolved_a(a, b, c), resolved_b(a, b, c), c)
            == normal_momentum(a, b, c),
{
    let ma = a.mass as int;
    let mb = b.mass as int;
    let nx = c.nx as int;
    let nz = c.nz as int;
    let w = closing(a, b, c);
    let den = response_den(a, b, c);
    assert(den >= 1) by (nonlinear_arith)
        requires den == (ma + mb) * (nx * nx + nz * nz), ma >= 1, mb >= 1, !(nx == 0 && nz == 0);
    assert(mb * w * nx == mb * (w * nx) && ma * w * nx == ma * (w * nx) && mb * w * nz == mb * (w
        * nz) && ma * w * nz == ma * (w * nz)) by (nonlinear_arith);
    lemma_floor_pair(ma, mb, w * nx, den);
    lemma_floor_pair(ma, mb, w * nz, den);
    assert(dv_a(a, b, c, nx) == (mb * (w * nx)) / den);
    assert(dv_a(a, b, c, nz) == (mb * (w * nz)) / den);
    assert(dv_b(a, b, c, nx) == -((ma * (w * nx)) / den));
    assert(dv_b(a, b, c, nz) == -((ma * (w * nz)) / den));
    let dax = dv_a(a, b, c, nx);
    let daz = dv_a(a, b, c, nz);
    let dbx = dv_b(a, b, c, nx);
    let dbz = dv_b(a, b, c, nz);
    let px = ma * dax + mb * dbx;
    let pz = ma * daz + mb * dbz;
    assert(px == ma * ((mb * (w * nx)) / den) - mb * ((ma * (w * nx)) / den)) by (nonlinear_arith)
        requires dax == (mb * (w * nx)) / den, dbx == -((ma * (w * nx)) / den), px == ma * dax + mb * dbx;
    assert(pz == ma * ((mb * (w * nz)) / den) - mb * ((ma * (w * nz)) / den)) by (nonlinear_arith)
        requires daz == (mb * (w * nz)) / den, dbz == -((ma * (w * nz)) / den), pz == ma * daz + mb * dbz;
    let ra = resolved_a(a, b, c);
    let rb = resolved_b(a, b, c);
    let avx = a.vx as int;
    let avz = a.vz as int;
    let bvx = b.vx as int;
    let bvz = b.vz as int;
    assert(ra.vx == avx + dax && ra.vz == avz + daz && rb.vx == bvx + dbx && rb.vz == bvz + dbz);
    assert(ra.mass == ma && rb.mass == mb);
    let m0 = normal_momentum(a, b, c);
    let m1 = normal_momentum(ra, rb, c);
    assert(m0 == ma * (avx * nx + avz * nz) + mb * (bvx * nx + bvz * nz));
    assert(m1 == ma * ((avx + dax) * nx + (avz + daz) * nz) + mb * ((bvx + dbx) * nx + (bvz + dbz)
        * nz));
    assert(ma * ((avx + dax) * nx + (avz + daz) * nz) == ma * (avx * nx + avz * nz) + ma * (dax
        * nx + daz * nz)) by (nonlinear_arith);
    assert(mb * ((bvx + dbx) * nx + (bvz + dbz) * nz) == mb * (bvx * nx + bvz * nz) + mb * (dbx
        * nx + dbz * nz)) by (nonlinear_arith);
    assert(ma * (dax * nx + daz * nz) == (ma * dax) * nx + (ma * daz) * nz) by (nonlinear_arith);
    assert(mb * (dbx * nx + dbz * nz) == (mb * dbx) * nx + (mb * dbz) * nz) by (nonlinear_arith);
    assert(px * nx == (ma * dax) * nx + (mb * dbx) * nx) by (nonlinear_arith)
        requires px == ma * dax + mb * dbx;
    assert(pz * nz == (ma * daz) * nz + (mb * dbz) * nz) by (nonlinear_arith)
        requires pz == ma * daz + mb * dbz;
    assert(m1 - m0 == px * nx + pz * nz);
    assert(abs(px * nx + pz * nz) < (ma + mb) * (abs(nx) + abs(nz))) by (nonlinear_arith)
        requires -ma < px < mb, -ma < pz < mb, abs(nx) + abs(nz) >= 1, ma >= 1, mb >= 1;
    if ma == mb {
        assert(px == 0 && pz == 0);
        assert(px * nx + pz * nz == 0) by (nonlinear_arith)
            requires px == 0, pz == 0;
    }
}

/// Velocity component across the normal, `v x n` (in the normal's own scale).
pub open spec fn tangential(vx: int, vz: int, c: Contact) -> int {
    vz * c.nx - vx * c.nz
}

/// A resolved contact leaves each body's tangential velocity as it was, up to
/// the rounding of the integer velocities: the change is less than
/// `|nx| + |nz|` in the normal's scale.
pub proof fn law_tangential_velocity_kept(a: Body, b: Body, c: Contact)
    requires
        a.wf(),
        b.wf(),
        c.wf(),
        fits(a, b, c),
    ensures
        abs(tangential(resolved_a(a, b, c).vx as int, resolved_a(a, b, c).vz as int, c)
            - tangential(a.vx as int, a.vz as int, c)) < abs(c.nx as int) + abs(c.nz as int),
        abs(tangential(resolved_b(a, b, c).vx as int, resolved_b(a, b, c).vz as int, c)
            - tangential(b.vx as int, b.vz as int, c)) < abs(c.nx as int) + abs(c.nz as int),
{
    let ma = a.mass as int;
    let mb = b.mass as int;
    let nx = c.nx as int;
    let nz = c.nz as int;
    let w = closing(a, b, c);
    let den = response_den(a, b, c);
    assert(den >= 1) by (nonlinear_arith)
        requires den == (ma + mb) * (nx * nx + nz * nz), ma >= 1, mb >= 1, !(nx == 0 && nz == 0);
    lemma_floor_cross(mb * w, nx, nz, den);
    lemma_floor_cross(ma * w, nx, nz, den);
    let ra = resolved_a(a, b, c);
    let rb = resolved_b(a, b, c);
    let fax = dv_a(a, b, c, nx);
    let faz = dv_a(a, b, c, nz);
    let fbx = (ma * w * nx) / den;
    let fbz = (ma * w * nz) / den;
    assert(fax == (mb * w * nx) / den && faz == (mb * w * nz) / den);
    assert(dv_b(a, b, c, nx) == -fbx && dv_b(a, b, c, nz) == -fbz);
    let ta0 = tangential(a.vx as int, a.vz as int, c);
    let ta1 = tangential(ra.vx as int, ra.vz as int, c);
    let tb0 = tangential(b.vx as int, b.vz as int, c);
    let tb1 = tangential(rb.vx as int, rb.vz as int, c);
    assert(ta0 == a.vz * nx - a.vx * nz && ta1 == ra.vz * nx - ra.vx * nz);
    assert(tb0 == b.vz * nx - b.vx * nz && tb1 == rb.vz * nx - rb.vx * nz);
    assert(ra.vx == a.vx + fax && ra.vz == a.vz + faz);
    assert(rb.vx == b.vx - fbx && rb.vz == b.vz - fbz);
    assert(ta1 - ta0 == faz * nx - fax * nz) by (nonlinear_arith)
        requires
            ra.vx == a.vx + fax,
            ra.vz == a.vz + faz,
            ta0 == a.vz * nx - a.vx * nz,
            ta1 == ra.vz * nx - ra.vx * nz,
    ;
    assert(tb1 - tb0 == -(fbz * nx - fbx * nz)) by (nonlinear_arith)
        requires
            rb.vx == b.vx - fbx,
            rb.vz == b.vz - fbz,
            tb0 == b.vz * nx - b.vx * nz,
            tb1 == rb.vz * nx - rb.vx * nz,
    ;
    assert(mb * w * nx == (mb * w) * nx && mb * w * nz == (mb * w) * nz);
}

/// Boundary containment is idempotent: containing an already contained body
/// changes neither its position nor its velocity. This needs the body to fit
/// in the domain (`radius <= d`): a wider body is pushed back and forth
/// between the two walls.
pub proof fn law_containment_idempotent(b: Body, d: int)
    requires
        b.wf(),
        1 <= d <= COORD_LIMIT,
        b.radius <= d,
    ensures
        contained(contained(b, d), d) == contained(b, d),
{
    let r = b.radius as int;
    let x1 = wall_low(b.x as int, b.vx as int, -d + r);
    let x2 = wall_high(x1.0, x1.1, d - r);
    let z1 = wall_high(b.z as int, b.vz as int, d - r);
    let z2 = wall_low(z1.0, z1.1, -d + r);
    let c1 = contained(b, d);
    assert(c1.x as int == x2.0 && c1.vx as int == x2.1 && c1.z as int == z2.0 && c1.vz as int
        == z2.1);
    let y1 = wall_low(c1.x as int, c1.vx as int, -d + r);
    let y2 = wall_high(y1.0, y1.1, d - r);
    let w1 = wall_high(c1.z as int, c1.vz as int, d - r);
    let w2 = wall_low(w1.0, w1.1, -d + r);
    assert(y2 == x2);
    assert(w2 == z2);
}

/// Two positions less than one cell width apart (`|p - q| <= 2d / b`) fall
/// in the same or in adjacent cell coordinates.
proof fn lemma_cell_coord_close(p: int, q: int, d: int, b: int)
    requires
        d >= 1,
        b >= 1,
        -2 * d <= (p - q) * b <= 2 * d,
    ensures
        -1 <= cell_coord(p, d, b) - cell_coord(q, d, b) <= 1,
{
    let up = (p + d) * b;
    let uq = (q + d) * b;
    assert(up - uq == (p - q) * b) by (nonlinear_arith)
        requires up == (p + d) * b, uq == (q + d) * b;
    lemma_floor_bounds(up, 2 * d);
    lemma_floor_bounds(uq, 2 * d);
    let rp = up / (2 * d);
    let rq = uq / (2 * d);
    assert(-1 <= rp - rq <= 1) by (nonlinear_arith)
        requires
            2 * d * rp <= up < 2 * d * rp + 2 * d,
            2 * d * rq <= uq < 2 * d * rq + 2 * d,
            -2 * d <= up - uq <= 2 * d,
            d >= 1,
    ;
}

/// The broad phase never misses a pair of bodies less than one cell width
/// apart on each axis (so every overlapping pair when no body is wider than
/// a cell): the pair is a candidate of the frame's grid. The broad phase
/// emits each candidate exactly once (see `find_candidate_pairs`).
pub proof fn law_broad_phase_complete(bodies: Seq<Body>, cfg: Config, g: Grid, i: int, j: int)
    requires
        cfg.wf(),
        store_wf(bodies),
        g.wf(),
        g.partitions(bodies, cfg),
        0 <= i < j < bodies.len() <= usize::MAX,
        -2 * cfg.half_extent <= (bodies[i].x - bodies[j].x) * cfg.buckets <= 2 * cfg.half_extent,
        -2 * cfg.half_extent <= (bodies[i].z - bodies[j].z) * cfg.buckets <= 2 * cfg.half_extent,
    ensures
        candidate(g, i, j),
{
    let d = cfg.half_extent as int;
    let b = cfg.buckets as int;
    let bi = bodies[i];
    let bj = bodies[j];
    lemma_cell_coord_close(bi.x as int, bj.x as int, d, b);
    lemma_cell_coord_close(bi.z as int, bj.z as int, d, b);
    let xi = cell_coord(bi.x as int, d, b);
    let zi = cell_coord(bi.z as int, d, b);
    let xj = cell_coord(bj.x as int, d, b);
    let zj = cell_coord(bj.z as int, d, b);
    let ox = xj - xi;
    let oz = zj - zi;
    let k = (oz + 1) * 3 + (ox + 1);
    let p = if k == 4 {
        0
    } else if k < 4 {
        k + 1
    } else {
        k
    };
    assert(off_x(p) == ox && off_z(p) == oz);
    let c = cell_of(bi, cfg);
    let e = cell_of(bj, cfg);
    assert(c == xi + zi * b);
    lemma_fundamental_div_mod_converse(c, b, zi, xi);
    assert(nb_ok(b, c, p));
    assert(nb(b, c, p) == e);
    crate::grid::lemma_cell_of_range(bi, cfg);
    crate::grid::lemma_cell_of_range(bj, cfg);
    assert(g.cell(c).contains(i as usize));
    assert(g.cell(e).contains(j as usize));
    let ii = choose|ii: int| 0 <= ii < g.cell(c).len() && g.cell(c)[ii] == i as usize;
    let jj = choose|jj: int| 0 <= jj < g.cell(e).len() && g.cell(e)[jj] == j as usize;
    let t: Tag = (c, p, ii, jj);
    assert(0 <= c < g.cells@.len());
    assert(0 <= p < 9);
    assert(nb_ok(g.buckets as int, c, p));
    assert(nb(g.buckets as int, c, p) == e);
    assert(0 <= ii < g.cell(c).len());
    assert(0 <= jj < g.cell(e).len());
    assert(g.cell(c)[ii] < g.cell(e)[jj]);
    assert(tag_valid(g, t));
    assert(tag_pair(g, t) == (i as usize, j as usize));
}

} // verus!
