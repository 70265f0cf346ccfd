use vstd::prelude::*;
use crate::arith::{isqrt, root};
use crate::body::COORD_LIMIT;

verus! {

/// Side of the smallest square lattice with room for `n` points.
pub open spec fn lattice_side(n: int) -> int {
    if root(n) * root(n) < n {
        root(n) + 1
    } else {
        root(n)
    }
}

/// Position of point `k` of a centred square lattice of side `side` and
/// spacing `spacing`, filled row by row.
pub open spec fn lattice_point(k: int, side: int, spacing: int) -> (int, int) {
    let half = (side - 1) * spacing / 2;
    ((k % side) * spacing - half, (k / side) * spacing - half)
}

/// `v` holds the `count` points of the lattice, in order.
pub open spec fn is_lattice(v: Seq<(i64, i64)>, count: int, spacing: int) -> bool {
    &&& v.len() == count
    &&& forall|k: int|
        0 <= k < count ==> #[trigger] v[k].0 == lattice_point(k, lattice_side(count), spacing).0
            && v[k].1 == lattice_point(k, lattice_side(count), spacing).1
}

/// Starting positions for `count` bodies on a square lattice centred on the
/// origin, row by row; `None` when the lattice would not fit the
/// representable range.
pub fn lattice_positions(count: u32, spacing: i64) -> (r: Option<Vec<(i64, i64)>>)
    requires
        0 <= spacing,
    ensures
        r is Some <==> (lattice_side(count as int) - 1) * spacing <= COORD_LIMIT,
        r matches Some(v) ==> is_lattice(v@, count as int, spacing as int),
{
    let s: u64 = isqrt(count as u64);
    assert(s <= 0xffff) by (nonlinear_arith)
        requires s * s <= count, count <= 0xffff_ffff, s >= 0;
    let side: u64 = if s * s < count as u64 {
        s + 1
    } else {
        s
    };
    assert(side == lattice_side(count as int));
    assert(side <= 0x1_0000) by (nonlinear_arith)
        requires s * s <= count, count <= 0xffff_ffff, side <= s + 1, s >= 0;
    if count == 0 {
        assert(s == 0) by (nonlinear_arith)
            requires s * s <= count, count == 0, s >= 0;
        assert((lattice_side(count as int) - 1) * spacing <= COORD_LIMIT) by (nonlinear_arith)
            requires lattice_side(count as int) == 0, spacing >= 0;
        return Some(Vec::new());
    }
    assert(side >= 1) by (nonlinear_arith)
        requires count >= 1, count < (s + 1) * (s + 1), side == s || side == s + 1, s * s < count ==> side == s + 1;
    if spacing > COORD_LIMIT && side > 1 {
        assert((side - 1) * spacing > COORD_LIMIT) by (nonlinear_arith)
            requires side >= 2, spacing > COORD_LIMIT;
        return None;
    }
    if side > 1 && spacing > 0 && (side - 1) as i64 > COORD_LIMIT / spacing {
        assert((side - 1) * spacing > COORD_LIMIT) by (nonlinear_arith)
            requires (side - 1) > COORD_LIMIT / spacing, spacing >= 1;
        return None;
    }
    assert((side - 1) * spacing <= COORD_LIMIT) by (nonlinear_arith)
        requires
            side == 1 || spacing == 0 || (side - 1) <= COORD_LIMIT / spacing,
            spacing <= COORD_LIMIT || side <= 1,
            spacing >= 0,
            side >= 1,
    ;
    assert(count <= side * side) by (nonlinear_arith)
        requires count < (s + 1) * (s + 1), side == s || side == s + 1, s * s < count ==> side == s + 1, s >= 0;
    let side_i: i64 = side as i64;
    let half: i64 = (side_i - 1) * spacing / 2;
    let mut out: Vec<(i64, i64)> = Vec::new();
    let mut k: u32 = 0;
    while k < count
        invariant
            k <= count,
            out@.len() == k,
            side_i == lattice_side(count as int),
            1 <= side_i <= 0x1_0000,
            0 <= spacing,
            (side_i - 1) * spacing <= COORD_LIMIT,
            half == (side_i - 1) * spacing / 2,
            count <= side_i * side_i,
            forall|m: int|
                0 <= m < k ==> #[trigger] out@[m].0 == lattice_point(m, side_i as int, spacing as int).0
                    && out@[m].1 == lattice_point(m, side_i as int, spacing as int).1,
        decreases count - k,
    {
        let col: i64 = (k as i64) % side_i;
        let row: i64 = (k as i64) / side_i;
        assert(col * spacing <= (side_i - 1) * spacing) by (nonlinear_arith)
            requires 0 <= col < side_i, spacing >= 0;
        assert(row < side_i) by (nonlinear_arith)
            requires row as int == (k as int) / (side_i as int), k < count, count <= side_i * side_i, side_i >= 1;
        assert(row * spacing <= (side_i - 1) * spacing) by (nonlinear_arith)
            requires 0 <= row < side_i, spacing >= 0;
        out.push((col * spacing - half, row * spacing - half));
        k = k + 1;
    }
    assert(out@.len() == count);
    assert(out@.len() == count as int);
    assert forall|k: int| 0 <= k < count implies #[trigger] out@[k].0 == lattice_point(
        k,
        lattice_side(count as int),
        spacing as int,
    ).0 && out@[k].1 == lattice_point(k, lattice_side(count as int), spacing as int).1 by {
        assert(out@[k].0 == lattice_point(k, side_i as int, spacing as int).0);
    }
    assert(is_lattice(out@, count as int, spacing as int));
    Some(out)
}

} // verus!
