use vstd::prelude::*;
use crate::arith::{floor_div, lemma_sep_mag, sep_mag, sep_mag_exec};
use crate::body::{Body, in_coord_range, store_wf};

verus! {

pub open spec fn sq(v: int) -> int {
    v * v
}

/// Squared distance between the centres of two bodies.
pub open spec fn dist_sq(a: Body, b: Body) -> int {
    sq(b.x - a.x) + sq(b.z - a.z)
}

/// The two circles intrude into each other: `distance < radiusA + radiusB`.
pub open spec fn overlaps(a: Body, b: Body) -> bool {
    dist_sq(a, b) < sq(a.radius + b.radius)
}

/// Direction of the contact normal, unnormalised: from `a` towards `b`, or
/// the canonical `(1, 0)` when the centres coincide.
pub open spec fn normal_x(a: Body, b: Body) -> int {
    if a.x == b.x && a.z == b.z {
        1
    } else {
        b.x - a.x
    }
}

pub open spec fn normal_z(a: Body, b: Body) -> int {
    if a.x == b.x && a.z == b.z {
        0
    } else {
        b.z - a.z
    }
}

/// Squared length of the normal direction.
pub open spec fn normal_sq(a: Body, b: Body) -> int {
    sq(normal_x(a, b)) + sq(normal_z(a, b))
}

pub open spec fn with_sign(n: int, t: int) -> int {
    if n < 0 {
        -t
    } else {
        t
    }
}

/// Offset from `a` to `b` once separated: the unit normal scaled to the sum
/// of the radii, `s * n / |n|`, each component rounded away from zero to the
/// next integer, so that no penetration is left and less than one unit per
/// component is added.
pub open spec fn target_x(a: Body, b: Body) -> int {
    with_sign(
        normal_x(a, b),
        sep_mag(sq(normal_x(a, b) * (a.radius + b.radius)), normal_sq(a, b)),
    )
}

pub open spec fn target_z(a: Body, b: Body) -> int {
    with_sign(
        normal_z(a, b),
        sep_mag(sq(normal_z(a, b) * (a.radius + b.radius)), normal_sq(a, b)),
    )
}

/// One component of the separated offset, for normal component `n`, sum of
/// radii `s` and squared normal length `nn`.
fn target_component(n: i64, s: i64, nn: u64) -> (t: i128)
    requires
        -0x8000_0000 <= n <= 0x8000_0000,
        2 <= s <= 0x8000_0000,
        nn >= 1,
        n * n <= nn,
    ensures
        t == with_sign(n as int, sep_mag(sq(n * s), nn as int)),
        -s <= t <= s,
{
    assert(-0x4000_0000_0000_0000 <= (n as int) * (s as int) <= 0x4000_0000_0000_0000)
        by (nonlinear_arith)
        requires -0x8000_0000 <= n <= 0x8000_0000, 2 <= s <= 0x8000_0000;
    let ns: i128 = n as i128 * s as i128;
    let m_abs: u128 = if ns < 0 {
        (-ns) as u128
    } else {
        ns as u128
    };
    assert(m_abs * m_abs == sq(n * s) && m_abs * m_abs <= 0x1000_0000_0000_0000_0000_0000_0000_0000)
        by (nonlinear_arith)
        requires m_abs == ns || m_abs == -ns, ns == n * s, -0x4000_0000_0000_0000 <= ns <= 0x4000_0000_0000_0000;
    let mag: u128 = sep_mag_exec(m_abs * m_abs, nn);
    proof {
        lemma_sep_mag(sq(n * s), nn as int);
        assert(sq(n * s) <= nn * (s * s)) by (nonlinear_arith)
            requires n * n <= nn, sq(n * s) == (n * s) * (n * s);
        if mag > 0 {
            assert((mag - 1) * (mag - 1) < s * s) by (nonlinear_arith)
                requires nn * ((mag - 1) * (mag - 1)) < sq(n * s), sq(n * s) <= nn * (s * s), nn >= 1;
            assert(mag <= s) by (nonlinear_arith)
                requires (mag - 1) * (mag - 1) < s * s, mag >= 1, s >= 0;
        }
    }
    if n < 0 {
        -(mag as i128)
    } else {
        mag as i128
    }
}

/// One overlap found by the narrow phase: handles `a < b`, the normal
/// direction `(nx, nz)` and the correction `(push_x, push_z)` that takes the
/// offset from `a` to `b` out of penetration (the normal times the
/// penetration depth, in the normal's own scale).
#[derive(Clone, Copy, Debug, PartialEq, Eq, Structural)]
pub struct Contact {
    pub a: usize,
    pub b: usize,
    pub nx: i64,
    pub nz: i64,
    pub push_x: i64,
    pub push_z: i64,
}

/// Largest magnitude of a normal component.
pub const NORMAL_LIMIT: i64 = 0x1_0000_0000;

/// Largest magnitude of a correction component.
pub const PUSH_LIMIT: i64 = 0x4000_0000_8000_0000;

impl Contact {
    pub open spec fn wf(&self) -> bool {
        &&& !(self.nx == 0 && self.nz == 0)
        &&& -NORMAL_LIMIT <= self.nx <= NORMAL_LIMIT
        &&& -NORMAL_LIMIT <= self.nz <= NORMAL_LIMIT
        &&& -PUSH_LIMIT <= self.push_x <= PUSH_LIMIT
        &&& -PUSH_LIMIT <= self.push_z <= PUSH_LIMIT
    }

    /// The contact the narrow phase records for bodies `a` (handle `ha`) and
    /// `b` (handle `hb`).
    pub open spec fn describes(&self, ha: int, hb: int, a: Body, b: Body) -> bool {
        &&& self.a == ha
        &&& self.b == hb
        &&& self.nx == normal_x(a, b)
        &&& self.nz == normal_z(a, b)
        &&& self.push_x == target_x(a, b) - (b.x - a.x)
        &&& self.push_z == target_z(a, b) - (b.z - a.z)
    }
}

/// The contact recorded for bodies `a` (handle `ha`) and `b` (handle `hb`).
pub open spec fn contact_for(ha: usize, hb: usize, a: Body, b: Body) -> Contact {
    Contact {
        a: ha,
        b: hb,
        nx: normal_x(a, b) as i64,
        nz: normal_z(a, b) as i64,
        push_x: (target_x(a, b) - (b.x - a.x)) as i64,
        push_z: (target_z(a, b) - (b.z - a.z)) as i64,
    }
}

/// Narrow phase for handles `ha` and `hb`: `Some` exactly when the two
/// bodies overlap, with the contact that `describes` them.
pub fn narrow_phase(bodies: &Vec<Body>, ha: usize, hb: usize) -> (r: Option<Contact>)
    requires
        store_wf(bodies@),
        ha < bodies@.len(),
        hb < bodies@.len(),
    ensures
        r is Some <==> overlaps(bodies@[ha as int], bodies@[hb as int]),
        r matches Some(c) ==> c.wf() && c.describes(
            ha as int,
            hb as int,
            bodies@[ha as int],
            bodies@[hb as int],
        ) && c == contact_for(ha, hb, bodies@[ha as int], bodies@[hb as int]),
{
    let a = bodies[ha];
    let b = bodies[hb];
    assert(a.wf() && b.wf());
    let dx: i64 = b.x - a.x;
    let dz: i64 = b.z - a.z;
    let s: i64 = a.radius + b.radius;
    assert((dx as int) * (dx as int) <= 0x4000_0000_0000_0000 && (dz as int) * (dz as int)
        <= 0x4000_0000_0000_0000 && (s as int) * (s as int) <= 0x4000_0000_0000_0000 && 0 <= (
    dx as int) * (dx as int) && 0 <= (dz as int) * (dz as int)) by (nonlinear_arith)
        requires
            -0x8000_0000 <= dx <= 0x8000_0000,
            -0x8000_0000 <= dz <= 0x8000_0000,
            2 <= s <= 0x8000_0000,
    ;
    let dd: i128 = (dx as i128) * (dx as i128) + (dz as i128) * (dz as i128);
    let ss: i128 = (s as i128) * (s as i128);
    if dd >= ss {
        return None;
    }
    let (nx, nz): (i64, i64) = if dx == 0 && dz == 0 {
        (1, 0)
    } else {
        (dx, dz)
    };
    assert(0 <= (nx as int) * (nx as int) + (nz as int) * (nz as int) <= 0x8000_0000_0000_0000)
        by (nonlinear_arith)
        requires
            -0x8000_0000 <= nx <= 0x8000_0000,
            -0x8000_0000 <= nz <= 0x8000_0000,
    ;
    let nn: u64 = ((nx as i128) * (nx as i128) + (nz as i128) * (nz as i128)) as u64;
    assert(nn == sq(normal_x(a, b)) + sq(normal_z(a, b)));
    proof {
        if !(nx == 0 && nz == 0) {
            assert(nn >= 1) by (nonlinear_arith)
                requires nn == nx * nx + nz * nz, !(nx == 0 && nz == 0);
        }
        assert(nx * nx <= nn && nz * nz <= nn) by (nonlinear_arith)
            requires nn == nx * nx + nz * nz;
    }
    let tx: i128 = target_component(nx, s, nn);
    let tz: i128 = target_component(nz, s, nn);
    assert(tx == target_x(a, b));
    assert(tz == target_z(a, b));
    Some(
        Contact {
            a: ha,
            b: hb,
            nx,
            nz,
            push_x: (tx - dx as i128) as i64,
            push_z: (tz - dz as i128) as i64,
        },
    )
}

} // verus!

verus! {

/// Share of the correction carried by `a` along one axis: `push * mb / (ma + mb)`,
/// rounded down; `b` carries the rest.
pub open spec fn share(push: int, a: Body, b: Body) -> int {
    push * b.mass / (a.mass + b.mass)
}

/// Relative velocity of `b` with respect to `a`, projected on the normal
/// (in the normal's own scale).
pub open spec fn closing(a: Body, b: Body, c: Contact) -> int {
    (b.vx - a.vx) * c.nx + (b.vz - a.vz) * c.nz
}

/// `(ma + mb) * |n|^2`, the common denominator of the velocity response.
pub open spec fn response_den(a: Body, b: Body, c: Contact) -> int {
    (a.mass + b.mass) * (sq(c.nx as int) + sq(c.nz as int))
}

/// Change of `a`'s velocity along one axis with normal component `n`:
/// `n * mb * closing / ((ma + mb) * |n|^2)`, rounded down.
pub open spec fn dv_a(a: Body, b: Body, c: Contact, n: int) -> int {
    b.mass * closing(a, b, c) * n / response_den(a, b, c)
}

/// Change of `b`'s velocity: the mirror image of `dv_a`, with `ma` in place of `mb`.
pub open spec fn dv_b(a: Body, b: Body, c: Contact, n: int) -> int {
    -(a.mass * closing(a, b, c) * n / response_den(a, b, c))
}

pub open spec fn new_ax(a: Body, b: Body, c: Contact) -> int {
    a.x - share(c.push_x as int, a, b)
}

pub open spec fn new_az(a: Body, b: Body, c: Contact) -> int {
    a.z - share(c.push_z as int, a, b)
}

pub open spec fn new_bx(a: Body, b: Body, c: Contact) -> int {
    b.x + c.push_x - share(c.push_x as int, a, b)
}

pub open spec fn new_bz(a: Body, b: Body, c: Contact) -> int {
    b.z + c.push_z - share(c.push_z as int, a, b)
}

pub open spec fn new_avx(a: Body, b: Body, c: Contact) -> int {
    a.vx + dv_a(a, b, c, c.nx as int)
}

pub open spec fn new_avz(a: Body, b: Body, c: Contact) -> int {
    a.vz + dv_a(a, b, c, c.nz as int)
}

pub open spec fn new_bvx(a: Body, b: Body, c: Contact) -> int {
    b.vx + dv_b(a, b, c, c.nx as int)
}

pub open spec fn new_bvz(a: Body, b: Body, c: Contact) -> int {
    b.vz + dv_b(a, b, c, c.nz as int)
}

/// Every coordinate and velocity the resolution produces is representable.
pub open spec fn fits(a: Body, b: Body, c: Contact) -> bool {
    &&& in_coord_range(new_ax(a, b, c))
    &&& in_coord_range(new_az(a, b, c))
    &&& in_coord_range(new_bx(a, b, c))
    &&& in_coord_range(new_bz(a, b, c))
    &&& in_coord_range(new_avx(a, b, c))
    &&& in_coord_range(new_avz(a, b, c))
    &&& in_coord_range(new_bvx(a, b, c))
    &&& in_coord_range(new_bvz(a, b, c))
}

/// Body `a` after the contact is resolved.
pub open spec fn resolved_a(a: Body, b: Body, c: Contact) -> Body {
    Body {
        x: new_ax(a, b, c) as i64,
        z: new_az(a, b, c) as i64,
        vx: new_avx(a, b, c) as i64,
        vz: new_avz(a, b, c) as i64,
        ..a
    }
}

/// Body `b` after the contact is resolved.
pub open spec fn resolved_b(a: Body, b: Body, c: Contact) -> Body {
    Body {
        x: new_bx(a, b, c) as i64,
        z: new_bz(a, b, c) as i64,
        vx: new_bvx(a, b, c) as i64,
        vz: new_bvz(a, b, c) as i64,
        ..b
    }
}

/// Both handles name distinct bodies of a store of `len` bodies.
pub open spec fn live(c: Contact, len: int) -> bool {
    c.a < len && c.b < len && c.a != c.b
}

/// Resolves one contact: separates the two bodies along the normal, the
/// correction split in inverse proportion to their masses, and replaces
/// both normal velocity components by the centre-of-mass one, tangential
/// components kept. A contact whose handles are stale, or whose result
/// would leave the representable range, is skipped and the store is left
/// as it was; the result says whether the contact was applied.
pub fn resolve_contact(bodies: &mut Vec<Body>, c: &Contact) -> (applied: bool)
    requires
        store_wf(old(bodies)@),
        c.wf(),
    ensures
        applied == (live(*c, old(bodies)@.len() as int) && fits(
            old(bodies)@[c.a as int],
            old(bodies)@[c.b as int],
            *c,
        )),
        applied ==> final(bodies)@ == old(bodies)@.update(
            c.a as int,
            resolved_a(old(bodies)@[c.a as int], old(bodies)@[c.b as int], *c),
        ).update(c.b as int, resolved_b(old(bodies)@[c.a as int], old(bodies)@[c.b as int], *c)),
        !applied ==> final(bodies)@ == old(bodies)@,
        store_wf(final(bodies)@),
{
    if c.a >= bodies.len() || c.b >= bodies.len() || c.a == c.b {
        return false;
    }
    let a = bodies[c.a];
    let b = bodies[c.b];
    assert(a.wf() && b.wf());
    let ma: i128 = a.mass as i128;
    let mb: i128 = b.mass as i128;
    let msum: i128 = ma + mb;
    assert(-0x4000_0000_8000_0000 * 0x10000 <= (c.push_x as int) * (mb as int)
        <= 0x4000_0000_8000_0000 * 0x10000 && -0x4000_0000_8000_0000 * 0x10000 <= (
    c.push_z as int) * (mb as int) <= 0x4000_0000_8000_0000 * 0x10000) by (nonlinear_arith)
        requires
            -0x4000_0000_8000_0000 <= c.push_x <= 0x4000_0000_8000_0000,
            -0x4000_0000_8000_0000 <= c.push_z <= 0x4000_0000_8000_0000,
            1 <= mb <= 0x10000,
    ;
    let sx: i128 = floor_div(c.push_x as i128 * mb, msum);
    let sz: i128 = floor_div(c.push_z as i128 * mb, msum);
    let nx: i128 = c.nx as i128;
    let nz: i128 = c.nz as i128;
    let dvx: i128 = b.vx as i128 - a.vx as i128;
    let dvz: i128 = b.vz as i128 - a.vz as i128;
    assert(-0x8000_0000 * 0x1_0000_0000 <= (dvx as int) * (nx as int) <= 0x8000_0000
        * 0x1_0000_0000 && -0x8000_0000 * 0x1_0000_0000 <= (dvz as int) * (nz as int)
        <= 0x8000_0000 * 0x1_0000_0000 && 0 <= (nx as int) * (nx as int) <= 0x1_0000_0000
        * 0x1_0000_0000 && 0 <= (nz as int) * (nz as int) <= 0x1_0000_0000 * 0x1_0000_0000)
        by (nonlinear_arith)
        requires
            -0x8000_0000 <= dvx <= 0x8000_0000,
            -0x8000_0000 <= dvz <= 0x8000_0000,
            -0x1_0000_0000 <= nx <= 0x1_0000_0000,
            -0x1_0000_0000 <= nz <= 0x1_0000_0000,
    ;
    let w: i128 = dvx * nx + dvz * nz;
    let nn: i128 = nx * nx + nz * nz;
    assert(nn >= 1) by (nonlinear_arith)
        requires nn == nx * nx + nz * nz, !(nx == 0 && nz == 0);
    assert(msum * nn <= 0x20000 * 0x2_0000_0000_0000_0000 && msum * nn >= 1) by (nonlinear_arith)
        requires 2 <= msum <= 0x20000, 1 <= nn <= 0x2_0000_0000_0000_0000;
    let den: i128 = msum * nn;
    assert(-0x10000 * 0x1_0000_0000_0000_0000 <= (mb as int) * (w as int) <= 0x10000
        * 0x1_0000_0000_0000_0000 && -0x10000 * 0x1_0000_0000_0000_0000 <= (ma as int) * (
    w as int) <= 0x10000 * 0x1_0000_0000_0000_0000) by (nonlinear_arith)
        requires
            -0x1_0000_0000_0000_0000 <= w <= 0x1_0000_0000_0000_0000,
            1 <= ma <= 0x10000,
            1 <= mb <= 0x10000,
    ;
    let kb: i128 = mb * w;
    let ka: i128 = ma * w;
    assert(-0x10000 * 0x1_0000_0000_0000_0000 * 0x1_0000_0000 <= (kb as int) * (nx as int)
        <= 0x10000 * 0x1_0000_0000_0000_0000 * 0x1_0000_0000 && -0x10000
        * 0x1_0000_0000_0000_0000 * 0x1_0000_0000 <= (kb as int) * (nz as int) <= 0x10000
        * 0x1_0000_0000_0000_0000 * 0x1_0000_0000 && -0x10000 * 0x1_0000_0000_0000_0000
        * 0x1_0000_0000 <= (ka as int) * (nx as int) <= 0x10000 * 0x1_0000_0000_0000_0000
        * 0x1_0000_0000 && -0x10000 * 0x1_0000_0000_0000_0000 * 0x1_0000_0000 <= (ka as int) * (
    nz as int) <= 0x10000 * 0x1_0000_0000_0000_0000 * 0x1_0000_0000) by (nonlinear_arith)
        requires
            -0x10000 * 0x1_0000_0000_0000_0000 <= kb <= 0x10000 * 0x1_0000_0000_0000_0000,
            -0x10000 * 0x1_0000_0000_0000_0000 <= ka <= 0x10000 * 0x1_0000_0000_0000_0000,
            -0x1_0000_0000 <= nx <= 0x1_0000_0000,
            -0x1_0000_0000 <= nz <= 0x1_0000_0000,
    ;
    let dax: i128 = floor_div(kb * nx, den);
    let daz: i128 = floor_div(kb * nz, den);
    let dbx: i128 = floor_div(ka * nx, den);
    let dbz: i128 = floor_div(ka * nz, den);
    proof {
        assert(sx == share(c.push_x as int, a, b));
        assert(sz == share(c.push_z as int, a, b));
        assert(w == closing(a, b, *c));
        assert(den == response_den(a, b, *c));
        assert((kb * nx) as int == b.mass * closing(a, b, *c) * c.nx) by (nonlinear_arith)
            requires kb == mb * w, mb == b.mass, w == closing(a, b, *c), nx == c.nx;
        assert((kb * nz) as int == b.mass * closing(a, b, *c) * c.nz) by (nonlinear_arith)
            requires kb == mb * w, mb == b.mass, w == closing(a, b, *c), nz == c.nz;
        assert((ka * nx) as int == a.mass * closing(a, b, *c) * c.nx) by (nonlinear_arith)
            requires ka == ma * w, ma == a.mass, w == closing(a, b, *c), nx == c.nx;
        assert((ka * nz) as int == a.mass * closing(a, b, *c) * c.nz) by (nonlinear_arith)
            requires ka == ma * w, ma == a.mass, w == closing(a, b, *c), nz == c.nz;
    }
    let ax: i128 = a.x as i128 - sx;
    let az: i128 = a.z as i128 - sz;
    let bx: i128 = b.x as i128 + c.push_x as i128 - sx;
    let bz: i128 = b.z as i128 + c.push_z as i128 - sz;
    let avx: i128 = a.vx as i128 + dax;
    let avz: i128 = a.vz as i128 + daz;
    let bvx: i128 = b.vx as i128 - dbx;
    let bvz: i128 = b.vz as i128 - dbz;
    let lim: i128 = crate::body::COORD_LIMIT as i128;
    if ax < -lim || ax > lim || az < -lim || az > lim || bx < -lim || bx > lim || bz < -lim || bz
        > lim || avx < -lim || avx > lim || avz < -lim || avz > lim || bvx < -lim || bvx > lim
        || bvz < -lim || bvz > lim {
        return false;
    }
    let na = Body { x: ax as i64, z: az as i64, vx: avx as i64, vz: avz as i64, ..a };
    let nb = Body { x: bx as i64, z: bz as i64, vx: bvx as i64, vz: bvz as i64, ..b };
    bodies.set(c.a, na);
    bodies.set(c.b, nb);
    true
}

} // verus!
