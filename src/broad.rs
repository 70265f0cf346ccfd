use vstd::prelude::*;
use crate::config::MAX_BUCKETS;
use crate::grid::Grid;
use vstd::arithmetic::div_mod::lemma_fundamental_div_mod;

verus! {

/// Position in the enumeration of candidate pairs: cell, phase (`0` is the
/// cell itself, `1..=8` its neighbours), index in the cell, index in the
/// other cell.
pub type Tag = (int, int, int, int);

/// Neighbour visited in phase `p`, numbered row by row over the 3 x 3 block
/// around the cell (`4` is the cell itself): the cell first, then the eight
/// others from the `(-1, -1)` corner to the `(1, 1)` corner.
pub open spec fn block_slot(p: int) -> int {
    if p == 0 {
        4
    } else if p <= 4 {
        p - 1
    } else {
        p
    }
}

pub open spec fn off_x(p: int) -> int {
    let k = block_slot(p);
    if k == 0 || k == 3 || k == 6 {
        -1
    } else if k == 1 || k == 4 || k == 7 {
        0
    } else {
        1
    }
}

pub open spec fn off_z(p: int) -> int {
    let k = block_slot(p);
    if k < 3 {
        -1
    } else if k < 6 {
        0
    } else {
        1
    }
}

/// The neighbour of cell `c` in phase `p` lies inside the `b x b` grid.
pub open spec fn nb_ok(b: int, c: int, p: int) -> bool {
    &&& 0 <= c % b + off_x(p) < b
    &&& 0 <= c / b + off_z(p) < b
}

/// Index of the neighbour of cell `c` in phase `p`.
pub open spec fn nb(b: int, c: int, p: int) -> int {
    (c % b + off_x(p)) + (c / b + off_z(p)) * b
}

pub open spec fn tag_valid(g: Grid, t: Tag) -> bool {
    &&& 0 <= t.0 < g.cells@.len()
    &&& 0 <= t.1 < 9
    &&& nb_ok(g.buckets as int, t.0, t.1)
    &&& 0 <= t.2 < g.cell(t.0).len()
    &&& 0 <= t.3 < g.cell(nb(g.buckets as int, t.0, t.1)).len()
    &&& g.cell(t.0)[t.2] < g.cell(nb(g.buckets as int, t.0, t.1))[t.3]
}

pub open spec fn tag_pair(g: Grid, t: Tag) -> (usize, usize) {
    (g.cell(t.0)[t.2], g.cell(nb(g.buckets as int, t.0, t.1))[t.3])
}

pub open spec fn lex_lt(t: Tag, u: Tag) -> bool {
    ||| t.0 < u.0
    ||| (t.0 == u.0 && t.1 < u.1)
    ||| (t.0 == u.0 && t.1 == u.1 && t.2 < u.2)
    ||| (t.0 == u.0 && t.1 == u.1 && t.2 == u.2 && t.3 < u.3)
}

/// `pairs` is the broad phase's enumeration of the grid's candidate pairs:
/// one valid tag per pair, tags in ascending lexicographic order, and every
/// valid tag's pair listed.
pub open spec fn enumerates(g: Grid, pairs: Seq<(usize, usize)>) -> bool {
    &&& forall|t: Tag| #[trigger] tag_valid(g, t) ==> pairs.contains(tag_pair(g, t))
    &&& exists|tags: Seq<Tag>|
        {
            &&& tags.len() == pairs.len()
            &&& forall|k: int|
                0 <= k < tags.len() ==> tag_valid(g, #[trigger] tags[k]) && pairs[k] == tag_pair(
                    g,
                    tags[k],
                )
            &&& forall|k1: int, k2: int|
                0 <= k1 < k2 < tags.len() ==> lex_lt(#[trigger] tags[k1], #[trigger] tags[k2])
        }
}

/// `(a, b)` is a candidate pair of the grid: `a < b`, and `b` lies in the
/// cell of `a` or in one of its eight neighbours.
pub open spec fn candidate(g: Grid, a: int, b: int) -> bool {
    exists|t: Tag| #[trigger] tag_valid(g, t) && tag_pair(g, t) == (a as usize, b as usize)
}

proof fn lemma_digits(b: int, x1: int, z1: int, x2: int, z2: int)
    requires
        b >= 1,
        0 <= x1 < b,
        0 <= x2 < b,
        x1 + z1 * b == x2 + z2 * b,
    ensures
        x1 == x2,
        z1 == z2,
{
    assert(z1 == z2) by (nonlinear_arith)
        requires b >= 1, 0 <= x1 < b, 0 <= x2 < b, x1 + z1 * b == x2 + z2 * b;
}

pub proof fn lemma_nb_range(b: int, c: int, p: int)
    requires
        1 <= b,
        0 <= c < b * b,
        nb_ok(b, c, p),
    ensures
        0 <= nb(b, c, p) < b * b,
{
    let x = c % b + off_x(p);
    let z = c / b + off_z(p);
    assert(0 <= x + z * b < b * b) by (nonlinear_arith)
        requires 0 <= x < b, 0 <= z < b;
}

/// Distinct valid tags name distinct pairs.
proof fn lemma_tag_injective(g: Grid, t: Tag, u: Tag)
    requires
        g.wf(),
        tag_valid(g, t),
        tag_valid(g, u),
        tag_pair(g, t) == tag_pair(g, u),
    ensures
        t == u,
{
    let b = g.buckets as int;
    lemma_nb_range(b, t.0, t.1);
    lemma_nb_range(b, u.0, u.1);
    assert(g.cell(t.0)[t.2] == g.cell(u.0)[u.2]);
    assert(t.0 == u.0 && t.2 == u.2);
    let nt = nb(b, t.0, t.1);
    let nu = nb(b, u.0, u.1);
    assert(g.cell(nt)[t.3] == g.cell(nu)[u.3]);
    assert(nt == nu && t.3 == u.3);
    lemma_digits(b, t.0 % b + off_x(t.1), t.0 / b + off_z(t.1), u.0 % b + off_x(u.1), u.0 / b
        + off_z(u.1));
    assert(t.1 == u.1);
}

/// Cell `c`'s coordinates, and its neighbour in phase `p` if inside the grid.
fn neighbor(b: usize, c: usize, p: usize) -> (r: (bool, usize))
    requires
        1 <= b <= MAX_BUCKETS,
        c < b * b,
        p < 9,
    ensures
        r.0 == nb_ok(b as int, c as int, p as int),
        r.0 ==> r.1 == nb(b as int, c as int, p as int) && r.1 < b * b,
{
    let cx = c % b;
    let cz = c / b;
    assert(cz < b) by (nonlinear_arith)
        requires cz == c / b, c < b * b, b >= 1;
    let k: usize = if p == 0 {
        4
    } else if p <= 4 {
        p - 1
    } else {
        p
    };
    let ox: i64 = if k == 0 || k == 3 || k == 6 {
        -1
    } else if k == 1 || k == 4 || k == 7 {
        0
    } else {
        1
    };
    let oz: i64 = if k < 3 {
        -1
    } else if k < 6 {
        0
    } else {
        1
    };
    let x: i64 = cx as i64 + ox;
    let z: i64 = cz as i64 + oz;
    if x < 0 || x >= b as i64 || z < 0 || z >= b as i64 {
        return (false, 0);
    }
    proof {
        lemma_nb_range(b as int, c as int, p as int);
    }
    let xu: usize = x as usize;
    let zu: usize = z as usize;
    assert(xu + zu * b < b * b && zu * b < b * b && b * b <= 65535 * 65535) by (nonlinear_arith)
        requires 0 <= xu < b, 0 <= zu < b, b <= 65535;
    (true, xu + zu * b)
}

/// Broad phase: every pair of handles `(a, b)` with `a < b` whose cells are
/// the same or adjacent, each exactly once. Pairs come cell by cell in
/// ascending cell index; within a cell, first those inside the cell, then
/// those with each neighbour, row by row; within that, in the cells' order.
pub fn find_candidate_pairs(g: &Grid) -> (out: Vec<(usize, usize)>)
    requires
        g.wf(),
    ensures
        forall|k: int| 0 <= k < out@.len() ==> (#[trigger] out@[k]).0 < out@[k].1,
        forall|a: usize, b: usize| #[trigger] out@.contains((a, b)) <==> candidate(*g, a as int, b as int),
        out@.no_duplicates(),
        enumerates(*g, out@),
{
    let bk = g.buckets;
    assert(bk * bk <= MAX_BUCKETS * MAX_BUCKETS) by (nonlinear_arith)
        requires bk <= MAX_BUCKETS;
    let n_cells = bk * bk;
    let mut out: Vec<(usize, usize)> = Vec::new();
    let ghost mut tags: Seq<Tag> = Seq::empty();
    let mut c: usize = 0;
    while c < n_cells
        invariant
            g.wf(),
            bk == g.buckets,
            n_cells == bk * bk,
            n_cells == g.cells@.len(),
            c <= n_cells,
            out@.len() == tags.len(),
            forall|k: int|
                0 <= k < tags.len() ==> tag_valid(*g, #[trigger] tags[k]) && out@[k] == tag_pair(
                    *g,
                    tags[k],
                ) && lex_lt(tags[k], (c as int, 0, 0, 0)),
            forall|t: Tag|
                #[trigger] tag_valid(*g, t) && lex_lt(t, (c as int, 0, 0, 0)) ==> out@.contains(
                    tag_pair(*g, t),
                ),
            out@.no_duplicates(),
            forall|k1: int, k2: int|
                0 <= k1 < k2 < tags.len() ==> lex_lt(#[trigger] tags[k1], #[trigger] tags[k2]),
        decreases n_cells - c,
    {
        let mut p: usize = 0;
        while p < 9
            invariant
                g.wf(),
                bk == g.buckets,
                n_cells == bk * bk,
                n_cells == g.cells@.len(),
                c < n_cells,
                p <= 9,
                out@.len() == tags.len(),
                forall|k: int|
                    0 <= k < tags.len() ==> tag_valid(*g, #[trigger] tags[k]) && out@[k]
                        == tag_pair(*g, tags[k]) && lex_lt(tags[k], (c as int, p as int, 0, 0)),
                forall|t: Tag|
                    #[trigger] tag_valid(*g, t) && lex_lt(t, (c as int, p as int, 0, 0))
                        ==> out@.contains(tag_pair(*g, t)),
                out@.no_duplicates(),
            forall|k1: int, k2: int|
                0 <= k1 < k2 < tags.len() ==> lex_lt(#[trigger] tags[k1], #[trigger] tags[k2]),
            decreases 9 - p,
        {
            let (ok, nbi) = neighbor(bk, c, p);
            if ok {
                let cell = &g.cells[c];
                let other = &g.cells[nbi];
                let mut i: usize = 0;
                while i < cell.len()
                    invariant
                        g.wf(),
                        bk == g.buckets,
                        n_cells == bk * bk,
                        n_cells == g.cells@.len(),
                        c < n_cells,
                        p < 9,
                        nb_ok(bk as int, c as int, p as int),
                        nbi == nb(bk as int, c as int, p as int),
                        nbi < n_cells,
                        cell@ == g.cell(c as int),
                        other@ == g.cell(nbi as int),
                        i <= cell@.len(),
                        out@.len() == tags.len(),
                        forall|k: int|
                            0 <= k < tags.len() ==> tag_valid(*g, #[trigger] tags[k]) && out@[k]
                                == tag_pair(*g, tags[k]) && lex_lt(
                                tags[k],
                                (c as int, p as int, i as int, 0),
                            ),
                        forall|t: Tag|
                            #[trigger] tag_valid(*g, t) && lex_lt(
                                t,
                                (c as int, p as int, i as int, 0),
                            ) ==> out@.contains(tag_pair(*g, t)),
                        out@.no_duplicates(),
                    forall|k1: int, k2: int|
                        0 <= k1 < k2 < tags.len() ==> lex_lt(#[trigger] tags[k1], #[trigger] tags[k2]),
                    decreases cell@.len() - i,
                {
                    let mut j: usize = 0;
                    while j < other.len()
                        invariant
                            g.wf(),
                            bk == g.buckets,
                            n_cells == bk * bk,
                            n_cells == g.cells@.len(),
                            c < n_cells,
                            p < 9,
                            nb_ok(bk as int, c as int, p as int),
                            nbi == nb(bk as int, c as int, p as int),
                            nbi < n_cells,
                            cell@ == g.cell(c as int),
                            other@ == g.cell(nbi as int),
                            i < cell@.len(),
                            j <= other@.len(),
                            out@.len() == tags.len(),
                            forall|k: int|
                                0 <= k < tags.len() ==> tag_valid(*g, #[trigger] tags[k])
                                    && out@[k] == tag_pair(*g, tags[k]) && lex_lt(
                                    tags[k],
                                    (c as int, p as int, i as int, j as int),
                                ),
                            forall|t: Tag|
                                #[trigger] tag_valid(*g, t) && lex_lt(
                                    t,
                                    (c as int, p as int, i as int, j as int),
                                ) ==> out@.contains(tag_pair(*g, t)),
                            out@.no_duplicates(),
                        forall|k1: int, k2: int|
                            0 <= k1 < k2 < tags.len() ==> lex_lt(#[trigger] tags[k1], #[trigger] tags[k2]),
                        decreases other@.len() - j,
                    {
                        let ha = cell[i];
                        let hb = other[j];
                        let ghost cur: Tag = (c as int, p as int, i as int, j as int);
                        let ghost old_out = out@;
                        let ghost old_tags = tags;
                        if ha < hb {
                            assert(tag_valid(*g, cur));
                            assert(tag_pair(*g, cur) == (ha, hb));
                            proof {
                                assert forall|k: int| 0 <= k < old_out.len() implies old_out[k]
                                    != (ha, hb) by {
                                    assert(tag_valid(*g, old_tags[k]));
                                    if old_out[k] == (ha, hb) {
                                        lemma_tag_injective(*g, old_tags[k], cur);
                                    }
                                }
                            }
                            out.push((ha, hb));
                            proof {
                                tags = tags.push(cur);
                                assert(out@[out@.len() - 1] == (ha, hb));
                                assert forall|t: Tag|
                                    #[trigger] tag_valid(*g, t) && lex_lt(
                                        t,
                                        (c as int, p as int, i as int, j + 1),
                                    ) implies out@.contains(tag_pair(*g, t)) by {
                                    if t == cur {
                                        assert(out@[out@.len() - 1] == tag_pair(*g, t));
                                    } else {
                                        assert(old_out.contains(tag_pair(*g, t)));
                                        let k = choose|k: int|
                                            0 <= k < old_out.len() && old_out[k] == tag_pair(
                                                *g,
                                                t,
                                            );
                                        assert(out@[k] == old_out[k]);
                                    }
                                }
                                assert(out@.no_duplicates()) by {
                                    assert forall|x: int, y: int|
                                        0 <= x < out@.len() && 0 <= y < out@.len() && x != y
                                        implies out@[x] != out@[y] by {
                                        if x < old_out.len() && y < old_out.len() {
                                            assert(old_out[x] != old_out[y]);
                                        }
                                    }
                                }
                            }
                        } else {
                            assert(!tag_valid(*g, cur));
                        }
                        j = j + 1;
                    }
                    proof {
                        assert forall|t: Tag|
                            #[trigger] tag_valid(*g, t) && lex_lt(
                                t,
                                (c as int, p as int, i + 1, 0),
                            ) implies lex_lt(t, (c as int, p as int, i as int, j as int)) by {}
                    }
                    i = i + 1;
                }
            } else {
                proof {
                    assert forall|t: Tag|
                        #[trigger] tag_valid(*g, t) && lex_lt(t, (c as int, p + 1, 0, 0)) implies lex_lt(
                        t,
                        (c as int, p as int, 0, 0),
                    ) by {}
                }
            }
            proof {
                assert forall|t: Tag|
                    #[trigger] tag_valid(*g, t) && lex_lt(t, (c as int, p + 1, 0, 0))
                        implies out@.contains(tag_pair(*g, t)) by {
                    if ok {
                        assert(lex_lt(t, (c as int, p as int, g.cell(c as int).len() as int, 0)));
                    }
                }
            }
            p = p + 1;
        }
        c = c + 1;
    }
    proof {
        assert forall|a: usize, b: usize| #[trigger]
            out@.contains((a, b)) implies candidate(*g, a as int, b as int) by {
            let k = choose|k: int| 0 <= k < out@.len() && out@[k] == (a, b);
            assert(tag_valid(*g, tags[k]));
        }
        assert forall|a: usize, b: usize|
            candidate(*g, a as int, b as int) implies #[trigger] out@.contains((a, b)) by {
            let t = choose|t: Tag| #[trigger] tag_valid(*g, t) && tag_pair(*g, t) == (a, b);
            assert(lex_lt(t, (c as int, 0, 0, 0)));
        }
        assert forall|k: int| 0 <= k < out@.len() implies (#[trigger] out@[k]).0 < out@[k].1 by {
            assert(tag_valid(*g, tags[k]));
        }
        assert forall|t: Tag| #[trigger] tag_valid(*g, t) implies out@.contains(tag_pair(*g, t)) by {
            assert(lex_lt(t, (c as int, 0, 0, 0)));
        }
        assert(enumerates(*g, out@));
    }
    out
}

} // verus!
