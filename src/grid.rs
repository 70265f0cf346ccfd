use vstd::prelude::*;
use crate::body::{Body, store_wf, in_coord_range};
use crate::config::Config;

verus! {

/// Cell coordinate along one axis: `floor((p + D) / (2D / B))`, clamped to
/// `[0, B - 1]`.
pub open spec fn cell_coord(p: int, d: int, b: int) -> int {
    let raw = (p + d) * b / (2 * d);
    if raw < 0 {
        0
    } else if raw > b - 1 {
        b - 1
    } else {
        raw
    }
}

/// Index of the cell that holds body `body`: `cellX + cellZ * B`.
pub open spec fn cell_of(body: Body, cfg: Config) -> int {
    cell_coord(body.x as int, cfg.half_extent as int, cfg.buckets as int) + cell_coord(
        body.z as int,
        cfg.half_extent as int,
        cfg.buckets as int,
    ) * cfg.buckets
}

/// The uniform grid of one frame: `cells[cx + cz * buckets]` lists, in
/// ascending order, the handles of the bodies in that cell.
pub struct Grid {
    pub cells: Vec<Vec<usize>>,
    pub buckets: usize,
}

impl Grid {
    pub open spec fn cell(&self, c: int) -> Seq<usize> {
        self.cells@[c]@
    }

    /// The shape every grid has: `buckets * buckets` cells, each strictly
    /// ascending, and no handle in two cells.
    pub open spec fn wf(&self) -> bool {
        &&& 1 <= self.buckets <= crate::config::MAX_BUCKETS
        &&& self.cells@.len() == self.buckets * self.buckets
        &&& forall|c: int, i: int, j: int|
            0 <= c < self.cells@.len() && 0 <= i < j < self.cell(c).len() ==> #[trigger] self.cell(c)[i]
                < #[trigger] self.cell(c)[j]
        &&& forall|c1: int, c2: int, i: int, j: int|
            0 <= c1 < self.cells@.len() && 0 <= c2 < self.cells@.len() && 0 <= i < self.cell(
                c1,
            ).len() && 0 <= j < self.cell(c2).len() && #[trigger] self.cell(c1)[i]
                == #[trigger] self.cell(c2)[j] ==> c1 == c2 && i == j
    }

    /// The grid is exactly the partition of the store's handles by `cell_of`.
    pub open spec fn partitions(&self, bodies: Seq<Body>, cfg: Config) -> bool {
        &&& self.buckets == cfg.buckets
        &&& self.cells@.len() == cfg.buckets * cfg.buckets
        &&& forall|c: int, k: int|
            0 <= c < self.cells@.len() && 0 <= k < self.cell(c).len() ==> #[trigger] self.cell(
                c,
            )[k] < bodies.len() && cell_of(bodies[self.cell(c)[k] as int], cfg) == c
        &&& forall|h: int|
            0 <= h < bodies.len() ==> #[trigger] self.cell(cell_of(bodies[h], cfg)).contains(
                h as usize,
            )
    }
}

/// Every body falls in one of the `B * B` cells.
pub proof fn lemma_cell_of_range(body: Body, cfg: Config)
    requires
        cfg.wf(),
    ensures
        0 <= cell_of(body, cfg) < cfg.buckets * cfg.buckets,
{
    let b = cfg.buckets as int;
    let cx = cell_coord(body.x as int, cfg.half_extent as int, b);
    let cz = cell_coord(body.z as int, cfg.half_extent as int, b);
    assert(0 <= cx + cz * b < b * b) by (nonlinear_arith)
        requires 0 <= cx < b, 0 <= cz < b;
}

/// `cell_coord` computed on machine integers.
pub fn cell_coord_exec(p: i64, cfg: &Config) -> (r: usize)
    requires
        cfg.wf(),
        in_coord_range(p as int),
    ensures
        r as int == cell_coord(p as int, cfg.half_extent as int, cfg.buckets as int),
        r < cfg.buckets,
{
    let t: i64 = p + cfg.half_extent;
    if t < 0 {
        proof {
            let d = cfg.half_extent as int;
            let b = cfg.buckets as int;
            assert((t as int) * b < 0) by (nonlinear_arith)
                requires t < 0, b >= 1;
            assert((t as int) * b / (2 * d) < 0) by (nonlinear_arith)
                requires (t as int) * b < 0, d >= 1;
        }
        0
    } else {
        assert((t as int) * (cfg.buckets as int) <= 0x1_0000_0000 * 65535) by (nonlinear_arith)
            requires 0 <= t <= 0x1_0000_0000, cfg.buckets <= 65535;
        let num: u64 = (t as u64) * (cfg.buckets as u64);
        let raw: u64 = num / (2 * cfg.half_extent as u64);
        if raw > (cfg.buckets - 1) as u64 {
            cfg.buckets - 1
        } else {
            raw as usize
        }
    }
}

/// Builds the grid of one frame: each body goes, by handle, into the cell
/// `cell_of` gives, bodies of one cell in ascending handle order.
pub fn build_grid(bodies: &Vec<Body>, cfg: &Config) -> (g: Grid)
    requires
        cfg.wf(),
        store_wf(bodies@),
    ensures
        g.wf(),
        g.partitions(bodies@, *cfg),
{
    let b = cfg.buckets;
    let mut cells: Vec<Vec<usize>> = Vec::new();
    assert(b * b <= 65535 * 65535) by (nonlinear_arith)
        requires b <= 65535;
    let mut c: usize = 0;
    while c < b * b
        invariant
            b * b <= 65535 * 65535,
            cfg.wf(),
            b == cfg.buckets,
            c <= b * b,
            cells@.len() == c,
            forall|k: int| 0 <= k < c ==> (#[trigger] cells@[k])@.len() == 0,
        decreases b * b - c,
    {
        cells.push(Vec::new());
        c = c + 1;
    }
    let mut h: usize = 0;
    while h < bodies.len()
        invariant
            cfg.wf(),
            store_wf(bodies@),
            b == cfg.buckets,
            h <= bodies@.len(),
            cells@.len() == b * b,
            b * b <= 65535 * 65535,
            forall|c: int, k: int|
                0 <= c < cells@.len() && 0 <= k < cells@[c]@.len() ==> #[trigger] cells@[c]@[k]
                    < h && cell_of(bodies@[cells@[c]@[k] as int], *cfg) == c,
            forall|c: int, i: int, j: int|
                0 <= c < cells@.len() && 0 <= i < j < cells@[c]@.len() ==> #[trigger] cells@[c]@[i]
                    < #[trigger] cells@[c]@[j],
            forall|g: int|
                0 <= g < h ==> #[trigger] cells@[cell_of(bodies@[g], *cfg)]@.contains(g as usize),
        decreases bodies@.len() - h,
    {
        let body = &bodies[h];
        assert(body.wf());
        let cx = cell_coord_exec(body.x, cfg);
        let cz = cell_coord_exec(body.z, cfg);
        assert(cx + cz * b < b * b && cz * b <= b * b) by (nonlinear_arith)
            requires cx < b, cz < b;
        proof { lemma_cell_of_range(*body, *cfg); }
        let idx: usize = cx + cz * b;
        let ghost old_cells = cells@;
        cells[idx].push(h);
        proof {
            assert forall|g: int| 0 <= g < h + 1 implies #[trigger] cells@[cell_of(
                bodies@[g],
                *cfg,
            )]@.contains(g as usize) by {
                lemma_cell_of_range(bodies@[g], *cfg);
                let cg = cell_of(bodies@[g], *cfg);
                if g < h {
                    assert(old_cells[cg]@.contains(g as usize));
                    let k = choose|k: int|
                        0 <= k < old_cells[cg]@.len() && old_cells[cg]@[k] == g as usize;
                    if cg == idx {
                        assert(cells@[cg]@ == old_cells[cg]@.push(h));
                    } else {
                        assert(cells@[cg] == old_cells[cg]);
                    }
                    assert(cells@[cg]@[k] == g as usize);
                } else {
                    assert(cg == idx);
                    assert(cells@[cg]@ == old_cells[cg]@.push(h));
                    assert(cells@[cg]@[old_cells[cg]@.len() as int] == h as usize);
                }
            }
        }
        h = h + 1;
    }
    let g = Grid { cells, buckets: b };
    proof {
        assert forall|c1: int, c2: int, i: int, j: int|
            0 <= c1 < g.cells@.len() && 0 <= c2 < g.cells@.len() && 0 <= i < g.cell(c1).len() && 0
                <= j < g.cell(c2).len() && #[trigger] g.cell(c1)[i] == #[trigger] g.cell(c2)[j]
            implies c1 == c2 && i == j by {
            if i < j && c1 == c2 {
                assert(g.cell(c1)[i] < g.cell(c1)[j]);
            }
            if j < i && c1 == c2 {
                assert(g.cell(c1)[j] < g.cell(c1)[i]);
            }
        }
    }
    g
}

} // verus!
