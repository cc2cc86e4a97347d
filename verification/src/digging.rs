//! The cascading reveal: an iterative, stack-based flood fill. Digging an
//! untouched tile reveals it; a revealed tile with no bomb nearby spreads
//! the reveal to its neighbours. The revealed region is characterised
//! exactly: a tile is newly revealed if and only if a path of untouched
//! zero-adjacency tiles leads to it from the dig origin.

use vstd::prelude::*;

use crate::counting::lemma_count_rect_nonneg;
use crate::field::{adjacent, MineField};
use crate::tile::{Tile, TileNeighbour};

verus! {

/// The direction in which a tile at offset `(dxv, dyv)` from a revealed
/// cell sees that cell: the side whose offset is exactly `(dxv, dyv)`.
#[verifier::opaque]
pub open spec fn back_dir(dxv: int, dyv: int) -> TileNeighbour {
    if dxv == -1 && dyv == 1 {
        TileNeighbour::UpperLeft
    } else if dxv == -1 && dyv == 0 {
        TileNeighbour::Left
    } else if dxv == -1 && dyv == -1 {
        TileNeighbour::LowerLeft
    } else if dxv == 0 && dyv == 1 {
        TileNeighbour::Upper
    } else if dxv == 0 && dyv == -1 {
        TileNeighbour::Lower
    } else if dxv == 1 && dyv == 1 {
        TileNeighbour::UpperRight
    } else if dxv == 1 && dyv == 0 {
        TileNeighbour::Right
    } else {
        TileNeighbour::LowerRight
    }
}

/// Setting one direction flag leaves exactly the others alone.
pub proof fn lemma_set_dir(n: crate::tile::Near, s0: TileNeighbour)
    ensures
        forall|side: TileNeighbour| #[trigger]
            n.set_dir(s0).dir(side) == (n.dir(side) || side == s0),
{
}

/// Among the eight directions, exactly `back_dir(dxv, dyv)` has the
/// offset `(dxv, dyv)`.
pub proof fn lemma_back_dir(dxv: int, dyv: int)
    requires
        -1 <= dxv <= 1,
        -1 <= dyv <= 1,
        !(dxv == 0 && dyv == 0),
    ensures
        forall|side: TileNeighbour|
            #![trigger side.dx(), side.dy()]
            (side.dx() == dxv && side.dy() == dyv) <==> side == back_dir(dxv, dyv),
{
    reveal(back_dir);
}

/// `(x, y)` was untouched before the call and is revealed after it.
pub open spec fn newly_dug(f0: MineField, f1: MineField, x: int, y: int) -> bool {
    f0.normal_at(x, y) && f1.tile(x, y).spec_is_digged()
}

/// An untouched in-bounds tile with no bombs in adjacent cells: the kind
/// through which a reveal cascades.
pub open spec fn zero_normal(f: MineField, x: int, y: int) -> bool {
    f.normal_at(x, y) && f.tile(x, y).spec_near_bombs() == 0
}

/// Whether the coordinate `(x, y)` occurs in a stack of cells.
pub open spec fn stack_has(s: Seq<(usize, usize)>, x: int, y: int) -> bool {
    exists|k: int| 0 <= k < s.len() && (#[trigger] s[k]).0 as int == x && s[k].1 as int == y
}

/// Whether the entry `(x, y, t)` occurs in a change list.
pub open spec fn change_has(s: Seq<(usize, usize, bool)>, x: int, y: int, t: bool) -> bool {
    exists|k: int|
        0 <= k < s.len() && (#[trigger] s[k]).0 as int == x && s[k].1 as int == y && s[k].2 == t
}

/// An entry present in a change list stays present when the list only
/// grows beyond it.
pub proof fn lemma_change_has_extends(
    s1: Seq<(usize, usize, bool)>,
    s2: Seq<(usize, usize, bool)>,
    x: int,
    y: int,
    t: bool,
)
    requires
        change_has(s1, x, y, t),
        s2.len() >= s1.len(),
        forall|k: int| 0 <= k < s1.len() ==> #[trigger] s2[k] == s1[k],
    ensures
        change_has(s2, x, y, t),
{
    let k = choose|k: int|
        0 <= k < s1.len() && (#[trigger] s1[k]).0 as int == x && s1[k].1 as int == y && s1[k].2
            == t;
    assert(s2[k] == s1[k]);
}

/// A route the cascade travels in field `f`: it starts at `(sx, sy)`,
/// steps between adjacent cells, passes only through untouched
/// zero-adjacency tiles, and ends on an untouched tile `(tx, ty)`.
pub open spec fn is_dig_path(
    f: MineField,
    p: Seq<(int, int)>,
    sx: int,
    sy: int,
    tx: int,
    ty: int,
) -> bool {
    &&& p.len() >= 1
    &&& p[0] == (sx, sy)
    &&& p[p.len() - 1] == (tx, ty)
    &&& forall|k: int| 0 <= k < p.len() - 1 ==> zero_normal(f, (#[trigger] p[k]).0, p[k].1)
    &&& forall|k: int|
        0 <= k < p.len() - 1 ==> adjacent(
            (#[trigger] p[k + 1]).0,
            p[k + 1].1,
            p[k].0,
            p[k].1,
        )
    &&& f.normal_at(tx, ty)
}

/// The flood fill started at `(sx, sy)` reveals `(tx, ty)`: some dig path
/// connects them. Reaching a tile requires it untouched; reaching one
/// beyond the origin requires the origin and every tile along the way,
/// except the last, untouched with no bomb nearby. The region a dig
/// reveals is exactly the set of reached tiles, so it is bounded by tiles
/// with bombs nearby and by the edge of the grid.
pub open spec fn dig_reaches(f: MineField, sx: int, sy: int, tx: int, ty: int) -> bool {
    exists|p: Seq<(int, int)>| is_dig_path(f, p, sx, sy, tx, ty)
}

/// An untouched tile reaches itself.
pub proof fn lemma_dig_reaches_self(f: MineField, sx: int, sy: int)
    requires
        f.normal_at(sx, sy),
    ensures
        dig_reaches(f, sx, sy, sx, sy),
{
    let p: Seq<(int, int)> = seq![(sx, sy)];
    assert(p[0] == (sx, sy));
    assert(is_dig_path(f, p, sx, sy, sx, sy));
}

/// A reached untouched zero-adjacency tile extends the reach to each
/// untouched neighbour.
pub proof fn lemma_dig_reaches_extend(
    f: MineField,
    sx: int,
    sy: int,
    ax: int,
    ay: int,
    tx: int,
    ty: int,
)
    requires
        dig_reaches(f, sx, sy, ax, ay),
        zero_normal(f, ax, ay),
        adjacent(tx, ty, ax, ay),
        f.normal_at(tx, ty),
    ensures
        dig_reaches(f, sx, sy, tx, ty),
{
    let p0 = choose|p: Seq<(int, int)>| is_dig_path(f, p, sx, sy, ax, ay);
    let p = p0.push((tx, ty));
    assert(p[0] == p0[0]);
    assert(p[p.len() - 1] == (tx, ty));
    assert forall|k: int| 0 <= k < p.len() - 1 implies zero_normal(
        f,
        (#[trigger] p[k]).0,
        p[k].1,
    ) by {
        if k < p0.len() - 1 {
            assert(p[k] == p0[k]);
        } else {
            assert(p[k] == p0[p0.len() - 1]);
            assert(p0[p0.len() - 1] == (ax, ay));
        }
    }
    assert forall|k: int| 0 <= k < p.len() - 1 implies adjacent(
        (#[trigger] p[k + 1]).0,
        p[k + 1].1,
        p[k].0,
        p[k].1,
    ) by {
        if k < p0.len() - 1 {
            assert(p[k] == p0[k] && p[k + 1] == p0[k + 1]);
        } else {
            assert(p[k] == p0[p0.len() - 1] && p[k + 1] == (tx, ty));
            assert(p0[p0.len() - 1] == (ax, ay));
        }
    }
    assert(is_dig_path(f, p, sx, sy, tx, ty));
}

/// Reaching any tile means the origin itself was untouched.
pub proof fn lemma_reaches_start_normal(f: MineField, sx: int, sy: int, tx: int, ty: int)
    requires
        dig_reaches(f, sx, sy, tx, ty),
    ensures
        f.normal_at(sx, sy),
{
    let p = choose|p: Seq<(int, int)>| is_dig_path(f, p, sx, sy, tx, ty);
    if p.len() == 1 {
        assert(p[0] == (sx, sy) && p[p.len() - 1] == (tx, ty));
    } else {
        assert(zero_normal(f, (p[0]).0, (p[0]).1));
    }
}

/// Walking a dig path through a state where the origin is revealed, and
/// where every revealed zero-adjacency tile has all its untouched
/// neighbours revealed, shows the path's end revealed.
proof fn lemma_path_all_dug(
    f0: MineField,
    f1: MineField,
    p: Seq<(int, int)>,
    sx: int,
    sy: int,
    tx: int,
    ty: int,
)
    requires
        is_dig_path(f0, p, sx, sy, tx, ty),
        f1.tile(sx, sy).spec_is_digged(),
        forall|a: int, b: int, c: int, d: int|
            #![trigger f1.tile(a, b), f1.tile(c, d)]
            zero_normal(f0, a, b) && f1.tile(a, b).spec_is_digged() && adjacent(c, d, a, b)
                && f0.normal_at(c, d) ==> f1.tile(c, d).spec_is_digged(),
    ensures
        f1.tile(tx, ty).spec_is_digged(),
    decreases p.len(),
{
    if p.len() == 1 {
        assert(p[0] == (sx, sy) && p[0] == (tx, ty));
    } else {
        assert(zero_normal(f0, (p[0]).0, (p[0]).1));
        let nx = (p[1]).0;
        let ny = (p[1]).1;
        assert(adjacent((p[0int + 1]).0, p[0int + 1].1, (p[0]).0, p[0].1));
        if p.len() == 2 {
            assert(p[1] == (tx, ty));
            assert(f0.normal_at(nx, ny));
        } else {
            assert(zero_normal(f0, (p[1]).0, p[1].1));
        }
        assert(f1.tile(nx, ny).spec_is_digged());
        let q = p.subrange(1, p.len() as int);
        assert(q.len() == p.len() - 1);
        assert(q[0] == p[1]);
        assert(q[q.len() - 1] == p[p.len() - 1]);
        assert forall|k: int| 0 <= k < q.len() - 1 implies zero_normal(
            f0,
            (#[trigger] q[k]).0,
            q[k].1,
        ) by {
            assert(q[k] == p[k + 1]);
        }
        assert forall|k: int| 0 <= k < q.len() - 1 implies adjacent(
            (#[trigger] q[k + 1]).0,
            q[k + 1].1,
            q[k].0,
            q[k].1,
        ) by {
            assert(q[k] == p[k + 1] && q[k + 1] == p[k + 2]);
        }
        assert(is_dig_path(f0, q, nx, ny, tx, ty));
        lemma_path_all_dug(f0, f1, q, nx, ny, tx, ty);
    }
}

impl MineField {
    /// Records, for the tile at `(i, j)`, that its neighbour at `(cx, cy)`
    /// has been revealed, setting the direction flag that points from
    /// `(i, j)` at `(cx, cy)`; if the tile at `(i, j)` is itself already
    /// revealed it is appended to the change list as a border-only change.
    fn mark_one(
        &mut self,
        changed: &mut Vec<(usize, usize, bool)>,
        i: usize,
        j: usize,
        cx: usize,
        cy: usize,
    )
        requires
            old(self).dims_ok(),
            old(self).in_bounds(i as int, j as int),
            adjacent(i as int, j as int, cx as int, cy as int),
        ensures
            final(self).dims_ok(),
            final(self).width == old(self).width,
            final(self).height == old(self).height,
            final(self).tile(i as int, j as int) == (Tile {
                near: old(self).tile(i as int, j as int).near.set_dir(
                    back_dir(cx as int - i as int, cy as int - j as int),
                ),
                ..old(self).tile(i as int, j as int)
            }),
            forall|a: int, b: int|
                old(self).in_bounds(a, b) && !(a == i as int && b == j as int)
                    ==> #[trigger] final(self).tile(a, b) == old(self).tile(a, b),
            old(self).tile(i as int, j as int).spec_is_digged() ==> final(changed)@ == old(
                changed,
            )@.push((i, j, false)),
            !old(self).tile(i as int, j as int).spec_is_digged() ==> final(changed)@ == old(
                changed,
            )@,
    {
        if self.is_digged(i, j) {
            changed.push((i, j, false));
        }
        let side = if i > cx {
            if j > cy {
                TileNeighbour::LowerLeft
            } else if j < cy {
                TileNeighbour::UpperLeft
            } else {
                TileNeighbour::Left
            }
        } else if i < cx {
            if j > cy {
                TileNeighbour::LowerRight
            } else if j < cy {
                TileNeighbour::UpperRight
            } else {
                TileNeighbour::Right
            }
        } else {
            if j > cy {
                TileNeighbour::Lower
            } else {
                TileNeighbour::Upper
            }
        };
        proof {
            reveal(back_dir);
            assert(side == back_dir(cx as int - i as int, cy as int - j as int));
        }
        let mut t = self.get_tile(i, j);
        t.neighbour_digged(side);
        self.set_tile(i, j, t);
    }

    /// Pushes every in-bounds neighbour of `(cx, cy)` onto the dig stack,
    /// in the fixed expansion order.
    #[verifier::rlimit(100)]
    #[verifier::spinoff_prover]
    fn push_neighbours(&self, digging: &mut Vec<(usize, usize)>, cx: usize, cy: usize)
        requires
            self.dims_ok(),
            self.in_bounds(cx as int, cy as int),
        ensures
            final(digging)@.len() >= old(digging)@.len(),
            forall|k: int|
                0 <= k < old(digging)@.len() ==> #[trigger] final(digging)@[k] == old(digging)@[k],
            forall|k: int|
                old(digging)@.len() <= k < final(digging)@.len() ==> self.in_bounds(
                    (#[trigger] final(digging)@[k]).0 as int,
                    final(digging)@[k].1 as int,
                ) && adjacent(
                    final(digging)@[k].0 as int,
                    final(digging)@[k].1 as int,
                    cx as int,
                    cy as int,
                ),
            forall|c: int, d: int|
                self.in_bounds(c, d) && adjacent(c, d, cx as int, cy as int) ==> stack_has(
                    final(digging)@,
                    c,
                    d,
                ),
    {
        let ghost mut i1: int = 0;
        let ghost mut i2: int = 0;
        let ghost mut i3: int = 0;
        let ghost mut i4: int = 0;
        let ghost mut i5: int = 0;
        let ghost mut i6: int = 0;
        let ghost mut i7: int = 0;
        let ghost mut i8: int = 0;
        if cx + 1 < self.width {
            proof {
                i1 = digging@.len() as int;
            }
            digging.push((cx + 1, cy));
            if cy >= 1 {
                proof {
                    i2 = digging@.len() as int;
                }
                digging.push((cx + 1, cy - 1));
            }
            if cy + 1 < self.height {
                proof {
                    i3 = digging@.len() as int;
                }
                digging.push((cx + 1, cy + 1));
            }
        }
        if cx >= 1 {
            proof {
                i4 = digging@.len() as int;
            }
            digging.push((cx - 1, cy));
            if cy >= 1 {
                proof {
                    i5 = digging@.len() as int;
                }
                digging.push((cx - 1, cy - 1));
            }
            if cy + 1 < self.height {
                proof {
                    i6 = digging@.len() as int;
                }
                digging.push((cx - 1, cy + 1));
            }
        }
        if cy >= 1 {
            proof {
                i7 = digging@.len() as int;
            }
            digging.push((cx, cy - 1));
        }
        if cy + 1 < self.height {
            proof {
                i8 = digging@.len() as int;
            }
            digging.push((cx, cy + 1));
        }
        proof {
            let s = digging@;
            let w = self.width as int;
            let h = self.height as int;
            let cxi = cx as int;
            let cyi = cy as int;
            if cxi + 1 < w {
                assert(0 <= i1 < s.len() && s[i1] == (((cx + 1) as usize), cy));
                if cyi >= 1 {
                    assert(0 <= i2 < s.len() && s[i2] == (((cx + 1) as usize), ((cy - 1) as usize)));
                }
                if cyi + 1 < h {
                    assert(0 <= i3 < s.len() && s[i3] == (((cx + 1) as usize), ((cy + 1) as usize)));
                }
            }
            if cxi >= 1 {
                assert(0 <= i4 < s.len() && s[i4] == (((cx - 1) as usize), cy));
                if cyi >= 1 {
                    assert(0 <= i5 < s.len() && s[i5] == (((cx - 1) as usize), ((cy - 1) as usize)));
                }
                if cyi + 1 < h {
                    assert(0 <= i6 < s.len() && s[i6] == (((cx - 1) as usize), ((cy + 1) as usize)));
                }
            }
            if cyi >= 1 {
                assert(0 <= i7 < s.len() && s[i7] == (cx, ((cy - 1) as usize)));
            }
            if cyi + 1 < h {
                assert(0 <= i8 < s.len() && s[i8] == (cx, ((cy + 1) as usize)));
            }
            assert forall|c: int, d: int|
                self.in_bounds(c, d) && adjacent(c, d, cxi, cyi) implies stack_has(s, c, d) by {}
        }
    }

    /// Records, for the up-to-three cells of column `a` beside or above
    /// and below `(cx, cy)`, that `(cx, cy)` has been revealed, appending
    /// a border-only change entry for each such cell already revealed.
    #[verifier::rlimit(100)]
    #[verifier::spinoff_prover]
    fn mark_column(
        &mut self,
        changed: &mut Vec<(usize, usize, bool)>,
        cx: usize,
        cy: usize,
        a: usize,
    )
        requires
            old(self).dims_ok(),
            old(self).in_bounds(cx as int, cy as int),
            a < old(self).width,
            -1 <= a as int - cx as int <= 1,
        ensures
            final(self).dims_ok(),
            final(self).width == old(self).width,
            final(self).height == old(self).height,
            forall|i: int, j: int|
                old(self).in_bounds(i, j) && i == a as int && adjacent(i, j, cx as int, cy as int)
                    ==> #[trigger] final(self).tile(i, j) == (Tile {
                    near: old(self).tile(i, j).near.set_dir(
                        back_dir(cx as int - i, cy as int - j),
                    ),
                    ..old(self).tile(i, j)
                }),
            forall|i: int, j: int|
                old(self).in_bounds(i, j) && !(i == a as int && adjacent(
                    i,
                    j,
                    cx as int,
                    cy as int,
                )) ==> #[trigger] final(self).tile(i, j) == old(self).tile(i, j),
            final(changed)@.len() >= old(changed)@.len(),
            forall|k: int|
                0 <= k < old(changed)@.len() ==> #[trigger] final(changed)@[k] == old(changed)@[k],
            forall|k: int|
                old(changed)@.len() <= k < final(changed)@.len() ==> !(
                #[trigger] final(changed)@[k]).2 && old(self).in_bounds(
                    final(changed)@[k].0 as int,
                    final(changed)@[k].1 as int,
                ) && old(self).tile(
                    final(changed)@[k].0 as int,
                    final(changed)@[k].1 as int,
                ).spec_is_digged() && adjacent(
                    final(changed)@[k].0 as int,
                    final(changed)@[k].1 as int,
                    cx as int,
                    cy as int,
                ),
            forall|i: int, j: int|
                old(self).in_bounds(i, j) && i == a as int && adjacent(i, j, cx as int, cy as int)
                    && old(self).tile(i, j).spec_is_digged() ==> change_has(
                    final(changed)@,
                    i,
                    j,
                    false,
                ),
    {
        let ghost mut i1: int = 0;
        let ghost mut i2: int = 0;
        let ghost mut i3: int = 0;
        if a != cx {
            proof {
                i1 = changed@.len() as int;
            }
            self.mark_one(changed, a, cy, cx, cy);
        }
        if cy >= 1 {
            proof {
                i2 = changed@.len() as int;
            }
            self.mark_one(changed, a, cy - 1, cx, cy);
        }
        if cy + 1 < self.height {
            proof {
                i3 = changed@.len() as int;
            }
            self.mark_one(changed, a, cy + 1, cx, cy);
        }
        proof {
            let f0 = *old(self);
            let s = changed@;
            let h = self.height as int;
            let ai = a as int;
            let cyi = cy as int;
            if ai != cx as int && f0.tile(ai, cyi).spec_is_digged() {
                assert(0 <= i1 < s.len() && s[i1] == (a, cy, false));
            }
            if cyi >= 1 && f0.tile(ai, cyi - 1).spec_is_digged() {
                assert(0 <= i2 < s.len() && s[i2] == (a, ((cy - 1) as usize), false));
            }
            if cyi + 1 < h && f0.tile(ai, cyi + 1).spec_is_digged() {
                assert(0 <= i3 < s.len() && s[i3] == (a, ((cy + 1) as usize), false));
            }
        }
    }

    /// Records on every in-bounds neighbour of `(cx, cy)` that this cell
    /// has been revealed, appending a border-only change entry for each
    /// neighbour that is itself already revealed.
    #[verifier::rlimit(100)]
    #[verifier::spinoff_prover]
    fn mark_neighbours(&mut self, changed: &mut Vec<(usize, usize, bool)>, cx: usize, cy: usize)
        requires
            old(self).dims_ok(),
            old(self).in_bounds(cx as int, cy as int),
        ensures
            final(self).dims_ok(),
            final(self).width == old(self).width,
            final(self).height == old(self).height,
            forall|a: int, b: int|
                old(self).in_bounds(a, b) && adjacent(a, b, cx as int, cy as int)
                    ==> #[trigger] final(self).tile(a, b) == (Tile {
                    near: old(self).tile(a, b).near.set_dir(
                        back_dir(cx as int - a, cy as int - b),
                    ),
                    ..old(self).tile(a, b)
                }),
            forall|a: int, b: int|
                old(self).in_bounds(a, b) && !adjacent(a, b, cx as int, cy as int)
                    ==> #[trigger] final(self).tile(a, b) == old(self).tile(a, b),
            final(changed)@.len() >= old(changed)@.len(),
            forall|k: int|
                0 <= k < old(changed)@.len() ==> #[trigger] final(changed)@[k] == old(changed)@[k],
            forall|k: int|
                old(changed)@.len() <= k < final(changed)@.len() ==> !(
                #[trigger] final(changed)@[k]).2 && old(self).in_bounds(
                    final(changed)@[k].0 as int,
                    final(changed)@[k].1 as int,
                ) && old(self).tile(
                    final(changed)@[k].0 as int,
                    final(changed)@[k].1 as int,
                ).spec_is_digged() && adjacent(
                    final(changed)@[k].0 as int,
                    final(changed)@[k].1 as int,
                    cx as int,
                    cy as int,
                ),
            forall|c: int, d: int|
                old(self).in_bounds(c, d) && adjacent(c, d, cx as int, cy as int) && old(
                    self,
                ).tile(c, d).spec_is_digged() ==> change_has(final(changed)@, c, d, false),
    {
        if cx + 1 < self.width {
            self.mark_column(changed, cx, cy, cx + 1);
        }
        let ghost cha = changed@;
        if cx >= 1 {
            self.mark_column(changed, cx, cy, cx - 1);
        }
        let ghost chb = changed@;
        self.mark_column(changed, cx, cy, cx);
        proof {
            let f0 = *old(self);
            let s = changed@;
            let cxi = cx as int;
            let cyi = cy as int;
            assert forall|c: int, d: int|
                f0.in_bounds(c, d) && adjacent(c, d, cxi, cyi) && f0.tile(c, d).spec_is_digged()
                implies change_has(s, c, d, false) by {
                if c == cxi + 1 {
                    lemma_change_has_extends(cha, chb, c, d, false);
                    lemma_change_has_extends(chb, s, c, d, false);
                } else if c == cxi - 1 {
                    lemma_change_has_extends(chb, s, c, d, false);
                }
            }
        }
    }
}

/// What holds at every turn of the flood-fill loop: `f0` is the field at
/// the call, `f` the field now, `(sx, sy)` the dig origin, `stack` the
/// cells waiting to be dug, `ch` the change list so far, and `some`
/// whether any dig has succeeded.
pub open spec fn dig_loop_inv(
    f0: MineField,
    f: MineField,
    sx: int,
    sy: int,
    stack: Seq<(usize, usize)>,
    ch: Seq<(usize, usize, bool)>,
    some: bool,
) -> bool {
    // dimensions and adjacency data are fixed
    &&& f.width == f0.width
    &&& f.height == f0.height
    &&& f.dims_ok()
    &&& forall|i: int, j: int|
        f0.in_bounds(i, j) ==> (#[trigger] f.tile(i, j)).adj == f0.tile(i, j).adj
    // states move only from untouched to revealed
    &&& forall|i: int, j: int|
        f0.in_bounds(i, j) && (#[trigger] f.tile(i, j)).state != f0.tile(i, j).state ==> f0.tile(
            i,
            j,
        ).spec_is_normal() && f.tile(i, j).spec_is_digged()
    // stack entries lie on the grid, and untouched ones are reached
    &&& forall|k: int|
        0 <= k < stack.len() ==> f0.in_bounds((#[trigger] stack[k]).0 as int, stack[k].1 as int)
    &&& forall|k: int|
        0 <= k < stack.len() && f0.normal_at((#[trigger] stack[k]).0 as int, stack[k].1 as int)
            ==> dig_reaches(f0, sx, sy, stack[k].0 as int, stack[k].1 as int)
    // every newly revealed tile is reached
    &&& forall|i: int, j: int| #[trigger]
        newly_dug(f0, f, i, j) ==> dig_reaches(f0, sx, sy, i, j)
    // a revealed zero-adjacency tile's untouched neighbours are revealed,
    // pending on the stack, or were never untouched
    &&& forall|a: int, b: int, c: int, d: int|
        #![trigger f.tile(a, b), f.tile(c, d)]
        zero_normal(f0, a, b) && f.tile(a, b).spec_is_digged() && adjacent(c, d, a, b)
            && f0.in_bounds(c, d) ==> f.tile(c, d).spec_is_digged() || !f0.tile(
            c,
            d,
        ).spec_is_normal() || stack_has(stack, c, d)
    // the some flag says whether the origin got dug
    &&& some == (f0.normal_at(sx, sy) && f.tile(sx, sy).spec_is_digged())
    // before the first successful dig nothing has changed
    &&& !some ==> f == f0 && ch.len() == 0 && (stack.len() == 0 || (stack.len() == 1 && (
    stack[0]).0 as int == sx && (stack[0]).1 as int == sy))
    // the origin, while untouched, is revealed or pending
    &&& f0.normal_at(sx, sy) ==> f.tile(sx, sy).spec_is_digged() || stack_has(stack, sx, sy)
    // entries tagged as fresh reveals are fresh reveals, each reveal is
    // listed, and no reveal is listed twice
    &&& forall|k: int|
        0 <= k < ch.len() && (#[trigger] ch[k]).2 ==> newly_dug(
            f0,
            f,
            ch[k].0 as int,
            ch[k].1 as int,
        )
    &&& forall|i: int, j: int| #[trigger] newly_dug(f0, f, i, j) ==> change_has(ch, i, j, true)
    &&& forall|k1: int, k2: int|
        0 <= k1 < k2 < ch.len() && (#[trigger] ch[k1]).2 && (#[trigger] ch[k2]).2 ==> !((
        ch[k1]).0 == (ch[k2]).0 && (ch[k1]).1 == (ch[k2]).1)
    // border-only entries mark revealed tiles beside a fresh reveal
    &&& forall|k: int|
        0 <= k < ch.len() && !(#[trigger] ch[k]).2 ==> f0.in_bounds(
            ch[k].0 as int,
            ch[k].1 as int,
        ) && f.tile(ch[k].0 as int, ch[k].1 as int).spec_is_digged() && exists|a: int, b: int|
            adjacent(a, b, ch[k].0 as int, ch[k].1 as int) && #[trigger] newly_dug(f0, f, a, b)
    // each tile revealed before the call that borders a fresh reveal has a
    // border-only entry
    &&& forall|i: int, j: int, a: int, b: int|
        #![trigger f0.tile(i, j), newly_dug(f0, f, a, b)]
        f0.in_bounds(i, j) && f0.tile(i, j).spec_is_digged() && adjacent(a, b, i, j) && newly_dug(
            f0,
            f,
            a,
            b,
        ) ==> change_has(ch, i, j, false)
    // neighbour flags are set exactly toward fresh reveals
    &&& forall|i: int, j: int, side: TileNeighbour|
        f0.in_bounds(i, j) ==> (#[trigger] f.tile(i, j).near.dir(side)) == (f0.tile(
            i,
            j,
        ).near.dir(side) || newly_dug(f0, f, i + side.dx(), j + side.dy()))
}

/// Popping a cell that is no longer untouched changes nothing else: the
/// loop invariant survives with the last stack entry dropped.
proof fn lemma_dig_skip(
    f0: MineField,
    f: MineField,
    sx: int,
    sy: int,
    stackp: Seq<(usize, usize)>,
    ch: Seq<(usize, usize, bool)>,
    some: bool,
)
    requires
        f0.wf(),
        dig_loop_inv(f0, f, sx, sy, stackp, ch, some),
        stackp.len() > 0,
        !f.tile((stackp.last()).0 as int, (stackp.last()).1 as int).spec_is_normal(),
    ensures
        dig_loop_inv(f0, f, sx, sy, stackp.drop_last(), ch, some),
{
    let stack2 = stackp.drop_last();
    let cx = (stackp.last()).0 as int;
    let cy = (stackp.last()).1 as int;
    assert forall|a: int, b: int, c: int, d: int|
        #![trigger f.tile(a, b), f.tile(c, d)]
        zero_normal(f0, a, b) && f.tile(a, b).spec_is_digged() && adjacent(c, d, a, b)
            && f0.in_bounds(c, d) implies f.tile(c, d).spec_is_digged() || !f0.tile(
        c,
        d,
    ).spec_is_normal() || stack_has(stack2, c, d) by {
        if !f.tile(c, d).spec_is_digged() && f0.tile(c, d).spec_is_normal() {
            let k = choose|k: int|
                0 <= k < stackp.len() && (#[trigger] stackp[k]).0 as int == c && (
                stackp[k]).1 as int == d;
            if k < stackp.len() - 1 {
                assert(stack2[k] == stackp[k]);
            } else {
                // the popped cell: it is not untouched now, yet (c, d) is;
                // were they the same cell its state would have moved from
                // untouched without becoming revealed
                assert(c == cx && d == cy);
                assert(f.tile(c, d).state != f0.tile(c, d).state);
                assert(false);
            }
        }
    }
    if f0.normal_at(sx, sy) && !f.tile(sx, sy).spec_is_digged() {
        let k = choose|k: int|
            0 <= k < stackp.len() && (#[trigger] stackp[k]).0 as int == sx && (
            stackp[k]).1 as int == sy;
        if k < stackp.len() - 1 {
            assert(stack2[k] == stackp[k]);
        } else {
            assert(sx == cx && sy == cy);
            assert(f.tile(sx, sy).state != f0.tile(sx, sy).state);
            assert(false);
        }
    }
}

/// One successful dig keeps the loop invariant: the popped cell was
/// untouched and is now revealed, its neighbours carry the new flag and
/// the new change entries, and the stack took the cell's neighbours if it
/// had no bomb nearby.
#[verifier::rlimit(100)]
#[verifier::spinoff_prover]
proof fn lemma_dig_step(
    f0: MineField,
    fp: MineField,
    f2: MineField,
    sx: int,
    sy: int,
    cx: int,
    cy: int,
    stackp: Seq<(usize, usize)>,
    stack2: Seq<(usize, usize)>,
    chp: Seq<(usize, usize, bool)>,
    ch2: Seq<(usize, usize, bool)>,
    somep: bool,
)
    requires
        f0.wf(),
        dig_loop_inv(f0, fp, sx, sy, stackp, chp, somep),
        stackp.len() > 0,
        (stackp.last()).0 as int == cx,
        (stackp.last()).1 as int == cy,
        fp.tile(cx, cy).spec_is_normal(),
        // the field afterwards: the popped cell is revealed, every
        // neighbour carries the flag pointing back at it, nothing else
        // moved
        f2.dims_ok(),
        f2.width == fp.width,
        f2.height == fp.height,
        forall|i: int, j: int|
            fp.in_bounds(i, j) ==> (#[trigger] f2.tile(i, j)).adj == fp.tile(i, j).adj,
        f2.tile(cx, cy).spec_is_digged(),
        f2.tile(cx, cy).near == fp.tile(cx, cy).near,
        forall|i: int, j: int|
            fp.in_bounds(i, j) && !(i == cx && j == cy) ==> (#[trigger] f2.tile(i, j)).state
                == fp.tile(i, j).state,
        forall|a: int, b: int|
            fp.in_bounds(a, b) && adjacent(a, b, cx, cy) ==> (#[trigger] f2.tile(a, b)).near
                == fp.tile(a, b).near.set_dir(back_dir(cx - a, cy - b)),
        forall|a: int, b: int|
            fp.in_bounds(a, b) && !adjacent(a, b, cx, cy) && !(a == cx && b == cy) ==> (
            #[trigger] f2.tile(a, b)).near == fp.tile(a, b).near,
        // the stack afterwards: the remainder in place, new entries only
        // from expanding a zero-adjacency cell, and then all in-bounds
        // neighbours present
        stack2.len() >= stackp.len() - 1,
        forall|k: int| 0 <= k < stackp.len() - 1 ==> #[trigger] stack2[k] == stackp[k],
        forall|k: int|
            stackp.len() - 1 <= k < stack2.len() ==> fp.tile(cx, cy).spec_near_bombs() == 0
                && fp.in_bounds((#[trigger] stack2[k]).0 as int, (stack2[k]).1 as int) && adjacent(
                (stack2[k]).0 as int,
                (stack2[k]).1 as int,
                cx,
                cy,
            ),
        fp.tile(cx, cy).spec_near_bombs() == 0 ==> (forall|c: int, d: int|
            fp.in_bounds(c, d) && adjacent(c, d, cx, cy) ==> stack_has(stack2, c, d)),
        // the change list afterwards: the old entries in place, then the
        // fresh-reveal entry for the popped cell, then border-only entries
        // for its already-revealed neighbours, all of them
        ch2.len() > chp.len(),
        forall|k: int| 0 <= k < chp.len() ==> #[trigger] ch2[k] == chp[k],
        (ch2[chp.len() as int]).0 as int == cx,
        (ch2[chp.len() as int]).1 as int == cy,
        (ch2[chp.len() as int]).2,
        forall|k: int|
            chp.len() + 1 <= k < ch2.len() ==> !(#[trigger] ch2[k]).2 && fp.in_bounds(
                (ch2[k]).0 as int,
                (ch2[k]).1 as int,
            ) && fp.tile((ch2[k]).0 as int, (ch2[k]).1 as int).spec_is_digged() && adjacent(
                (ch2[k]).0 as int,
                (ch2[k]).1 as int,
                cx,
                cy,
            ),
        forall|c: int, d: int|
            fp.in_bounds(c, d) && adjacent(c, d, cx, cy) && fp.tile(c, d).spec_is_digged()
                ==> change_has(ch2, c, d, false),
    ensures
        dig_loop_inv(f0, f2, sx, sy, stack2, ch2, true),
        f2.wf(),
        f2.num_normal() == fp.num_normal() - 1,
        f2.num_normal() >= 0,
{
    let w = f0.width as int;
    let h = f0.height as int;
    // the popped cell was untouched at the call
    assert(f0.normal_at(cx, cy));
    assert(dig_reaches(f0, sx, sy, cx, cy));
    assert(newly_dug(f0, f2, cx, cy));
    // states move only from untouched to revealed
    assert forall|i: int, j: int|
        f0.in_bounds(i, j) && (#[trigger] f2.tile(i, j)).state != f0.tile(i, j).state implies f0.tile(
        i,
        j,
    ).spec_is_normal() && f2.tile(i, j).spec_is_digged() by {
        if !(i == cx && j == cy) {
            assert(f2.tile(i, j).state == fp.tile(i, j).state);
        }
    }
    // stack entries: untouched ones are reached
    assert forall|k: int|
        0 <= k < stack2.len() && f0.normal_at((#[trigger] stack2[k]).0 as int, (
        stack2[k]).1 as int) implies dig_reaches(
        f0,
        sx,
        sy,
        (stack2[k]).0 as int,
        (stack2[k]).1 as int,
    ) by {
        if k >= stackp.len() - 1 {
            assert(zero_normal(f0, cx, cy));
            lemma_dig_reaches_extend(
                f0,
                sx,
                sy,
                cx,
                cy,
                (stack2[k]).0 as int,
                (stack2[k]).1 as int,
            );
        }
    }
    // every newly revealed tile is reached
    assert forall|i: int, j: int| #[trigger]
        newly_dug(f0, f2, i, j) implies dig_reaches(f0, sx, sy, i, j) by {
        if !(i == cx && j == cy) {
            assert(f2.tile(i, j).state == fp.tile(i, j).state);
            assert(newly_dug(f0, fp, i, j));
        }
    }
    // the closure property
    assert forall|a: int, b: int, c: int, d: int|
        #![trigger f2.tile(a, b), f2.tile(c, d)]
        zero_normal(f0, a, b) && f2.tile(a, b).spec_is_digged() && adjacent(c, d, a, b)
            && f0.in_bounds(c, d) implies f2.tile(c, d).spec_is_digged() || !f0.tile(
        c,
        d,
    ).spec_is_normal() || stack_has(stack2, c, d) by {
        if !f2.tile(c, d).spec_is_digged() && f0.tile(c, d).spec_is_normal() {
            if a == cx && b == cy {
                // the fresh reveal: its neighbours were pushed
                assert(fp.tile(cx, cy).spec_near_bombs() == 0);
                assert(stack_has(stack2, c, d));
            } else {
                assert(f2.tile(a, b).state == fp.tile(a, b).state);
                assert(fp.tile(a, b).spec_is_digged());
                assert(f2.tile(c, d).state == fp.tile(c, d).state);
                if stack_has(stackp, c, d) {
                    let k = choose|k: int|
                        0 <= k < stackp.len() && (#[trigger] stackp[k]).0 as int == c && (
                        stackp[k]).1 as int == d;
                    if k < stackp.len() - 1 {
                        assert(stack2[k] == stackp[k]);
                        assert(stack_has(stack2, c, d));
                    } else {
                        assert(c == cx && d == cy);
                        assert(false);
                    }
                }
            }
        }
    }
    // the origin is revealed
    if somep {
        assert(f2.tile(sx, sy).spec_is_digged() || (sx == cx && sy == cy));
    } else {
        assert(stackp.len() == 1 && sx == cx && sy == cy);
        assert(f0.normal_at(sx, sy));
    }
    assert(f0.normal_at(sx, sy) && f2.tile(sx, sy).spec_is_digged());
    // fresh-reveal entries
    assert forall|k: int|
        0 <= k < ch2.len() && (#[trigger] ch2[k]).2 implies newly_dug(
        f0,
        f2,
        (ch2[k]).0 as int,
        (ch2[k]).1 as int,
    ) by {
        if k < chp.len() {
            assert(ch2[k] == chp[k]);
            assert(newly_dug(f0, fp, (chp[k]).0 as int, (chp[k]).1 as int));
            assert(f2.tile((chp[k]).0 as int, (chp[k]).1 as int).state == fp.tile(
                (chp[k]).0 as int,
                (chp[k]).1 as int,
            ).state || ((chp[k]).0 as int == cx && (chp[k]).1 as int == cy));
        }
    }
    assert forall|i: int, j: int| #[trigger]
        newly_dug(f0, f2, i, j) implies change_has(ch2, i, j, true) by {
        if i == cx && j == cy {
            assert(0 <= chp.len() < ch2.len() && (ch2[chp.len() as int]).0 as int == i && (
            ch2[chp.len() as int]).1 as int == j && (ch2[chp.len() as int]).2);
        } else {
            assert(f2.tile(i, j).state == fp.tile(i, j).state);
            assert(newly_dug(f0, fp, i, j));
            lemma_change_has_extends(chp, ch2, i, j, true);
        }
    }
    // no reveal is listed twice
    assert forall|k1: int, k2: int|
        0 <= k1 < k2 < ch2.len() && (#[trigger] ch2[k1]).2 && (#[trigger] ch2[k2]).2 implies !((
    ch2[k1]).0 == (ch2[k2]).0 && (ch2[k1]).1 == (ch2[k2]).1) by {
        if k2 == chp.len() {
            // the fresh entry against an older fresh entry: the older one
            // marks a tile already revealed before this turn
            assert(ch2[k1] == chp[k1]);
            assert(newly_dug(f0, fp, (chp[k1]).0 as int, (chp[k1]).1 as int));
            if (ch2[k1]).0 == (ch2[k2]).0 && (ch2[k1]).1 == (ch2[k2]).1 {
                assert(fp.tile(cx, cy).spec_is_digged());
                assert(false);
            }
        } else if k2 > chp.len() {
            assert(!(ch2[k2]).2);
        }
    }
    // border-only entries mark revealed tiles beside a fresh reveal
    assert forall|k: int|
        0 <= k < ch2.len() && !(#[trigger] ch2[k]).2 implies f0.in_bounds(
        (ch2[k]).0 as int,
        (ch2[k]).1 as int,
    ) && f2.tile((ch2[k]).0 as int, (ch2[k]).1 as int).spec_is_digged() && (exists|a: int, b: int|
        adjacent(a, b, (ch2[k]).0 as int, (ch2[k]).1 as int) && #[trigger] newly_dug(
            f0,
            f2,
            a,
            b,
        )) by {
        let ci = (ch2[k]).0 as int;
        let cj = (ch2[k]).1 as int;
        if k < chp.len() {
            assert(ch2[k] == chp[k]);
            assert(f0.in_bounds(ci, cj) && fp.tile(ci, cj).spec_is_digged());
            assert(f2.tile(ci, cj).state == fp.tile(ci, cj).state || (ci == cx && cj == cy));
            let (a0, b0) = choose|a: int, b: int|
                adjacent(a, b, ci, cj) && #[trigger] newly_dug(f0, fp, a, b);
            assert(f2.tile(a0, b0).state == fp.tile(a0, b0).state || (a0 == cx && b0 == cy));
            assert(newly_dug(f0, f2, a0, b0));
        } else if k == chp.len() {
            assert((ch2[k]).2);
        } else {
            assert(fp.tile(ci, cj).spec_is_digged());
            assert(!(ci == cx && cj == cy));
            assert(f2.tile(ci, cj).state == fp.tile(ci, cj).state);
            assert(adjacent(cx, cy, ci, cj));
            assert(newly_dug(f0, f2, cx, cy));
        }
    }
    // completeness of border-only entries
    assert forall|i: int, j: int, a: int, b: int|
        #![trigger f0.tile(i, j), newly_dug(f0, f2, a, b)]
        f0.in_bounds(i, j) && f0.tile(i, j).spec_is_digged() && adjacent(a, b, i, j) && newly_dug(
            f0,
            f2,
            a,
            b,
        ) implies change_has(ch2, i, j, false) by {
        if a == cx && b == cy {
            assert(f2.tile(i, j).state == fp.tile(i, j).state || (i == cx && j == cy));
            assert(fp.tile(i, j).state == f0.tile(i, j).state || fp.tile(i, j).spec_is_digged());
            assert(fp.tile(i, j).spec_is_digged());
        } else {
            assert(f2.tile(a, b).state == fp.tile(a, b).state);
            assert(newly_dug(f0, fp, a, b));
            lemma_change_has_extends(chp, ch2, i, j, false);
        }
    }
    // neighbour flags
    assert forall|i: int, j: int, side: TileNeighbour|
        f0.in_bounds(i, j) implies (#[trigger] f2.tile(i, j).near.dir(side)) == (f0.tile(
        i,
        j,
    ).near.dir(side) || newly_dug(f0, f2, i + side.dx(), j + side.dy())) by {
        let pi = i + side.dx();
        let pj = j + side.dy();
        assert(-1 <= side.dx() <= 1 && -1 <= side.dy() <= 1 && !(side.dx() == 0 && side.dy()
            == 0));
        if adjacent(i, j, cx, cy) {
            assert(f2.tile(i, j).near == fp.tile(i, j).near.set_dir(back_dir(cx - i, cy - j)));
            lemma_set_dir(fp.tile(i, j).near, back_dir(cx - i, cy - j));
            lemma_back_dir(cx - i, cy - j);
            assert(f2.tile(i, j).near.dir(side) == (fp.tile(i, j).near.dir(side) || (pi == cx
                && pj == cy)));
        } else {
            assert(f2.tile(i, j).near == fp.tile(i, j).near);
            if pi == cx && pj == cy {
                // pointing at the popped cell would make (i, j) adjacent
                assert(false);
            }
        }
        if !(pi == cx && pj == cy) {
            assert(newly_dug(f0, f2, pi, pj) == newly_dug(f0, fp, pi, pj)) by {
                if f0.in_bounds(pi, pj) {
                    assert(f2.tile(pi, pj).state == fp.tile(pi, pj).state);
                }
            }
        } else {
            assert(newly_dug(f0, f2, pi, pj));
        }
    }
    // counts stay accurate
    crate::field::MineField::lemma_same_bombs_same_counts(f0, f2);
    // one fewer untouched tile
    let pn2 = f2.normal_pred();
    let pnp = fp.normal_pred();
    assert(!pn2(cx, cy) && pnp(cx, cy));
    assert forall|i: int, j: int|
        0 <= i < w && 0 <= j < h && !(i == cx && j == cy) implies #[trigger] pn2(i, j) == pnp(
        i,
        j,
    ) by {
        assert(f2.tile(i, j).state == fp.tile(i, j).state);
    }
    crate::counting::lemma_count_rect_flip(pn2, pnp, w, h, cx, cy);
    lemma_count_rect_nonneg(pn2, w, h);
}

impl MineField {
    /// Digs at `(x, y)`. An untouched tile is revealed; when it has no
    /// bomb nearby the reveal cascades over the connected region of
    /// zero-adjacency untouched tiles and its rim. Returns `None`, with
    /// nothing changed, when the tile was already revealed or flagged;
    /// otherwise the list of changes: each newly revealed tile once,
    /// tagged true, and a tile revealed beside it, tagged false, for its
    /// border art to be refreshed.
    #[verifier::rlimit(100)]
    #[verifier::spinoff_prover]
    pub fn dig(&mut self, x: usize, y: usize) -> (r: Option<Vec<(usize, usize, bool)>>)
        requires
            old(self).wf(),
            old(self).in_bounds(x as int, y as int),
        ensures
            final(self).wf(),
            final(self).width == old(self).width,
            final(self).height == old(self).height,
            // bombs and neighbour counts are untouched
            forall|i: int, j: int|
                old(self).in_bounds(i, j) ==> (#[trigger] final(self).tile(i, j)).adj == old(
                    self,
                ).tile(i, j).adj,
            // a tile's state moves only from untouched to revealed
            forall|i: int, j: int|
                old(self).in_bounds(i, j) && (#[trigger] final(self).tile(i, j)).state != old(
                    self,
                ).tile(i, j).state ==> old(self).tile(i, j).spec_is_normal() && final(self).tile(
                    i,
                    j,
                ).spec_is_digged(),
            // work happens exactly when the dug tile was untouched
            (r is Some) == old(self).tile(x as int, y as int).spec_is_normal(),
            r is None ==> *final(self) == *old(self),
            // the flood-fill law: the revealed region is exactly what the
            // origin reaches through zero-adjacency untouched tiles
            forall|i: int, j: int|
                old(self).in_bounds(i, j) ==> (#[trigger] newly_dug(
                    *old(self),
                    *final(self),
                    i,
                    j,
                ) <==> dig_reaches(*old(self), x as int, y as int, i, j)),
            // neighbour flags are set exactly toward newly revealed tiles
            forall|i: int, j: int, side: TileNeighbour|
                old(self).in_bounds(i, j) ==> (#[trigger] final(self).tile(i, j).near.dir(side))
                    == (old(self).tile(i, j).near.dir(side) || newly_dug(
                    *old(self),
                    *final(self),
                    i + side.dx(),
                    j + side.dy(),
                )),
            // the change list: each newly revealed tile listed exactly once
            // with the fresh tag; border-only entries only for revealed
            // tiles beside a fresh reveal, and for each previously revealed
            // tile beside one
            r matches Some(ch) ==> {
                &&& forall|k: int|
                    0 <= k < ch@.len() && (#[trigger] ch@[k]).2 ==> newly_dug(
                        *old(self),
                        *final(self),
                        (ch@[k]).0 as int,
                        (ch@[k]).1 as int,
                    )
                &&& forall|i: int, j: int| #[trigger]
                    newly_dug(*old(self), *final(self), i, j) ==> change_has(ch@, i, j, true)
                &&& forall|k1: int, k2: int|
                    0 <= k1 < k2 < ch@.len() && (#[trigger] ch@[k1]).2 && (#[trigger] ch@[k2]).2
                        ==> !((ch@[k1]).0 == (ch@[k2]).0 && (ch@[k1]).1 == (ch@[k2]).1)
                &&& forall|k: int|
                    0 <= k < ch@.len() && !(#[trigger] ch@[k]).2 ==> old(self).in_bounds(
                        (ch@[k]).0 as int,
                        (ch@[k]).1 as int,
                    ) && final(self).tile(
                        (ch@[k]).0 as int,
                        (ch@[k]).1 as int,
                    ).spec_is_digged() && exists|a: int, b: int|
                        adjacent(a, b, (ch@[k]).0 as int, (ch@[k]).1 as int) && #[trigger] newly_dug(
                            *old(self),
                            *final(self),
                            a,
                            b,
                        )
                &&& forall|i: int, j: int, a: int, b: int|
                    #![trigger old(self).tile(i, j), newly_dug(*old(self), *final(self), a, b)]
                    old(self).in_bounds(i, j) && old(self).tile(i, j).spec_is_digged() && adjacent(
                        a,
                        b,
                        i,
                        j,
                    ) && newly_dug(*old(self), *final(self), a, b) ==> change_has(
                        ch@,
                        i,
                        j,
                        false,
                    )
            },
    {
        let ghost f0 = *self;
        let mut digging: Vec<(usize, usize)> = Vec::new();
        let mut changed: Vec<(usize, usize, bool)> = Vec::new();
        let mut some = false;
        digging.push((x, y));
        proof {
            if f0.normal_at(x as int, y as int) {
                lemma_dig_reaches_self(f0, x as int, y as int);
            }
            lemma_count_rect_nonneg(f0.normal_pred(), f0.width as int, f0.height as int);
            assert(digging@[0] == (x, y));
            assert(stack_has(digging@, x as int, y as int));
            assert(dig_loop_inv(f0, *self, x as int, y as int, digging@, changed@, some));
        }
        while digging.len() > 0
            invariant
                f0.wf(),
                f0.in_bounds(x as int, y as int),
                dig_loop_inv(f0, *self, x as int, y as int, digging@, changed@, some),
                self.num_normal() >= 0,
            decreases self.num_normal(), digging@.len(),
        {
            let ghost fp = *self;
            let ghost stackp = digging@;
            let ghost chp = changed@;
            let ghost somep = some;
            if let Some((cx, cy)) = digging.pop() {
                let mut t = self.get_tile(cx, cy);
                let dug = t.dig();
                if dug {
                    self.set_tile(cx, cy, t);
                    changed.push((cx, cy, true));
                    some = true;
                    let nb = t.near_bombs();
                    proof {
                        assert(nb == fp.tile(cx as int, cy as int).spec_near_bombs());
                    }
                    if nb == 0 {
                        self.push_neighbours(&mut digging, cx, cy);
                        proof {
                            assert forall|c: int, d: int|
                                fp.in_bounds(c, d) && adjacent(c, d, cx as int, cy as int)
                                implies stack_has(digging@, c, d) by {
                                assert(self.in_bounds(c, d));
                            }
                        }
                    }
                    self.mark_neighbours(&mut changed, cx, cy);
                    proof {
                        lemma_dig_step(
                            f0,
                            fp,
                            *self,
                            x as int,
                            y as int,
                            cx as int,
                            cy as int,
                            stackp,
                            digging@,
                            chp,
                            changed@,
                            somep,
                        );
                    }
                } else {
                    proof {
                        lemma_dig_skip(
                            f0,
                            fp,
                            x as int,
                            y as int,
                            stackp,
                            chp,
                            somep,
                        );
                    }
                }
            }
        }
        proof {
            let f2 = *self;
            let sx = x as int;
            let sy = y as int;
            if !some {
                // nothing was dug: the origin was not untouched, so nothing
                // is reached from it either
                assert(f2 == f0);
                if f0.normal_at(sx, sy) {
                    assert(f0.tile(sx, sy).spec_is_digged());
                    assert(false);
                }
                assert forall|i: int, j: int|
                    f0.in_bounds(i, j) implies !dig_reaches(f0, sx, sy, i, j) by {
                    if dig_reaches(f0, sx, sy, i, j) {
                        lemma_reaches_start_normal(f0, sx, sy, i, j);
                    }
                }
            } else {
                // the reveal is complete: every reached tile is revealed
                assert forall|i: int, j: int|
                    f0.in_bounds(i, j) && dig_reaches(f0, sx, sy, i, j) implies newly_dug(
                    f0,
                    f2,
                    i,
                    j,
                ) by {
                    let p = choose|p: Seq<(int, int)>| is_dig_path(f0, p, sx, sy, i, j);
                    assert forall|a: int, b: int, c: int, d: int|
                        #![trigger f2.tile(a, b), f2.tile(c, d)]
                        zero_normal(f0, a, b) && f2.tile(a, b).spec_is_digged() && adjacent(
                            c,
                            d,
                            a,
                            b,
                        ) && f0.normal_at(c, d) implies f2.tile(c, d).spec_is_digged() by {}
                    lemma_path_all_dug(f0, f2, p, sx, sy, i, j);
                    assert(f0.normal_at(i, j));
                }
            }
        }
        if !some {
            None
        } else {
            Some(changed)
        }
    }
}

} // verus!
