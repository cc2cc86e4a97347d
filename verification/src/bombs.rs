//! Bomb placement: hiding a single bomb and updating the neighbour
//! counts, and seeding a round's bombs at random outside an exclusion
//! square around the first dig.

use vstd::prelude::*;

use crate::counting::{count_rect, lemma_count_rect_flip, lemma_count_rect_pos_exists};
use crate::field::{adjacent, MineField};
use crate::tile::{Adjacency, Tile};

verus! {

/// Whether `(x, y)` lies in the exclusion square of the given radius
/// around `(ex, ey)`: a half-open square, clamped at the grid edge by the
/// arithmetic itself (coordinates are never negative).
pub open spec fn excluded(ex: int, ey: int, radius: int, x: int, y: int) -> bool {
    &&& ex - radius <= x < ex + radius
    &&& ey - radius <= y < ey + radius
}

/// Draws a coordinate below `bound`, uniformly.
///
/// Relies on `rand::Rng::gen_range` over `0..bound` with
/// `rand::thread_rng`: the draw lies in the half-open range, which must
/// not be empty.
#[verifier::external_body]
fn random_below(bound: usize) -> (r: usize)
    requires
        bound > 0,
    ensures
        r < bound,
{
    rand::Rng::gen_range(&mut rand::thread_rng(), 0..bound)
}

/// Whether `v` lies in the half-open interval of the given radius around
/// `center`, computed without wrapping.
fn within(v: usize, center: usize, radius: usize) -> (r: bool)
    ensures
        r == ((center - radius <= v as int) && ((v as int) < center + radius)),
{
    if v >= center {
        v - center < radius
    } else {
        center - v <= radius
    }
}

impl MineField {
    /// The cells open to a new bomb: outside the exclusion square and not
    /// already holding one.
    pub open spec fn free_pred(self, ex: int, ey: int, radius: int) -> spec_fn(int, int) -> bool {
        |x: int, y: int| !excluded(ex, ey, radius, x, y) && !self.bomb_at(x, y)
    }

    /// How many cells are open to a new bomb.
    pub open spec fn num_free(self, ex: int, ey: int, radius: int) -> int {
        count_rect(self.free_pred(ex, ey, radius), self.width as int, self.height as int)
    }

    /// The cell the linear scan visits after `(x, y)`: raster order,
    /// wrapping to the origin after the last cell.
    pub open spec fn scan_next(self, x: int, y: int) -> (int, int) {
        if x == self.width - 1 {
            if y == self.height - 1 {
                (0, 0)
            } else {
                (0, y + 1)
            }
        } else {
            (x + 1, y)
        }
    }

    /// How many scan steps from `(x, y)` to the target `(fx, fy)`,
    /// counting cyclically through the raster order.
    pub open spec fn scan_dist(self, fx: int, fy: int, x: int, y: int) -> int {
        let a = self.width * self.height;
        let l = self.idx(x, y);
        let lv = self.idx(fx, fy);
        if l <= lv {
            lv - l
        } else {
            a - l + lv
        }
    }

    /// One scan step toward a distinct target strictly shrinks the
    /// cyclic distance.
    proof fn lemma_scan_step(self, fx: int, fy: int, x: int, y: int)
        requires
            self.dims_ok(),
            self.in_bounds(x, y),
            self.in_bounds(fx, fy),
            !(x == fx && y == fy),
        ensures
            self.in_bounds(self.scan_next(x, y).0, self.scan_next(x, y).1),
            0 <= self.scan_dist(fx, fy, self.scan_next(x, y).0, self.scan_next(x, y).1)
                < self.scan_dist(fx, fy, x, y),
    {
        let w = self.width as int;
        let h = self.height as int;
        let a = w * h;
        let l = self.idx(x, y);
        let lv = self.idx(fx, fy);
        self.lemma_idx_bounds(x, y);
        self.lemma_idx_bounds(fx, fy);
        if l == lv {
            self.lemma_idx_injective(x, y, fx, fy);
        }
        let nx = self.scan_next(x, y).0;
        let ny = self.scan_next(x, y).1;
        let ln = self.idx(nx, ny);
        if x == w - 1 {
            if y == h - 1 {
                assert(l == a - 1) by (nonlinear_arith)
                    requires
                        l == y * w + x,
                        x == w - 1,
                        y == h - 1,
                        a == w * h,
                ;
                assert(nx == 0 && ny == 0);
                assert(ln == 0 * w + 0);
                assert(ln == 0) by (nonlinear_arith)
                    requires
                        ln == 0 * w + 0,
                ;
            } else {
                assert(ln == l + 1) by (nonlinear_arith)
                    requires
                        l == y * w + x,
                        ln == (y + 1) * w,
                        x == w - 1,
                ;
            }
        } else {
            assert(ln == l + 1);
        }
    }

    /// What one placement does to the whole field: with the tile at
    /// `(xi, yi)` turned into a bomb and every in-bounds neighbour's count
    /// raised, the counts stay accurate, the bomb cells grow by exactly
    /// that cell, and the bomb total rises by one.
    proof fn lemma_bomb_placed(f0: MineField, f1: MineField, xi: int, yi: int)
        requires
            f0.dims_ok(),
            f0.counts_ok(),
            f1.dims_ok(),
            f1.width == f0.width,
            f1.height == f0.height,
            f0.in_bounds(xi, yi),
            !f0.tile(xi, yi).spec_has_bomb(),
            f1.tile(xi, yi) == (Tile { adj: Adjacency::Bomb, ..f0.tile(xi, yi) }),
            forall|i: int, j: int|
                f0.in_bounds(i, j) && adjacent(i, j, xi, yi) ==> #[trigger] f1.tile(i, j) == f0.tile(
                    i,
                    j,
                ).bumped(),
            forall|i: int, j: int|
                f0.in_bounds(i, j) && !adjacent(i, j, xi, yi) && !(i == xi && j == yi)
                    ==> #[trigger] f1.tile(i, j) == f0.tile(i, j),
        ensures
            f1.counts_ok(),
            forall|i: int, j: int|
                #[trigger] f1.bomb_at(i, j) == (f0.bomb_at(i, j) || (i == xi && j == yi)),
            forall|i: int, j: int|
                f0.in_bounds(i, j) ==> (#[trigger] f1.tile(i, j)).state == f0.tile(i, j).state
                    && f1.tile(i, j).near == f0.tile(i, j).near,
            f1.num_bombs() == f0.num_bombs() + 1,
    {
        assert forall|i: int, j: int| #[trigger] f1.bomb_at(i, j) == (f0.bomb_at(i, j) || (i == xi
            && j == yi)) by {
            if f0.in_bounds(i, j) {
                if i == xi && j == yi {
                } else if adjacent(i, j, xi, yi) {
                    assert(f1.tile(i, j) == f0.tile(i, j).bumped());
                } else {
                    assert(f1.tile(i, j) == f0.tile(i, j));
                }
            }
        }
        assert forall|i: int, j: int|
            f0.in_bounds(i, j) implies (#[trigger] f1.tile(i, j)).state == f0.tile(i, j).state
            && f1.tile(i, j).near == f0.tile(i, j).near by {
            if i == xi && j == yi {
            } else if adjacent(i, j, xi, yi) {
                assert(f1.tile(i, j) == f0.tile(i, j).bumped());
            } else {
                assert(f1.tile(i, j) == f0.tile(i, j));
            }
        }
        assert forall|i: int, j: int|
            f1.in_bounds(i, j) && !(#[trigger] f1.tile(i, j)).spec_has_bomb() implies f1.tile(
            i,
            j,
        ).spec_near_bombs() as int == f1.adj_bombs(i, j) by {
            assert(f1.adj_bombs(i, j) == f0.adj_bombs(i, j) + (if adjacent(xi, yi, i, j) {
                1int
            } else {
                0int
            }));
            if i == xi && j == yi {
            } else if adjacent(i, j, xi, yi) {
                assert(f1.tile(i, j) == f0.tile(i, j).bumped());
                assert(adjacent(xi, yi, i, j));
            } else {
                assert(f1.tile(i, j) == f0.tile(i, j));
                assert(!adjacent(xi, yi, i, j));
            }
        }
        let pb0 = f0.bomb_pred();
        let pb1 = f1.bomb_pred();
        assert(!pb0(xi, yi) && pb1(xi, yi));
        assert forall|i: int, j: int|
            0 <= i < f0.width as int && 0 <= j < f0.height as int && !(i == xi && j == yi)
                implies #[trigger] pb0(i, j) == pb1(i, j) by {}
        lemma_count_rect_flip(pb0, pb1, f0.width as int, f0.height as int, xi, yi);
    }

    /// Hides a bomb inside the tile at `(x, y)` and raises the count of
    /// each in-bounds neighbour; reports false and changes nothing if a
    /// bomb is already there.
    #[verifier::rlimit(100)]
    #[verifier::spinoff_prover]
    pub fn add_bomb_at(&mut self, x: usize, y: usize) -> (r: bool)
        requires
            old(self).wf(),
            old(self).in_bounds(x as int, y as int),
        ensures
            final(self).wf(),
            final(self).width == old(self).width,
            final(self).height == old(self).height,
            r == !old(self).tile(x as int, y as int).spec_has_bomb(),
            !r ==> *final(self) == *old(self),
            forall|i: int, j: int|
                old(self).in_bounds(i, j) ==> (#[trigger] final(self).tile(i, j)).state == old(
                    self,
                ).tile(i, j).state && final(self).tile(i, j).near == old(self).tile(i, j).near,
            forall|i: int, j: int|
                #[trigger] final(self).bomb_at(i, j) == (old(self).bomb_at(i, j) || (i == x as int
                    && j == y as int)),
            r ==> final(self).num_bombs() == old(self).num_bombs() + 1,
            !r ==> final(self).num_bombs() == old(self).num_bombs(),
    {
        if self.has_bomb(x, y) {
            return false;
        }
        let ghost f0 = *self;
        let mut t = self.get_tile(x, y);
        t.put_bomb();
        self.set_tile(x, y, t);
        proof {
            f0.lemma_adj_bombs_capped(x as int + 1, y as int, x as int, y as int);
            f0.lemma_adj_bombs_capped(x as int + 1, y as int - 1, x as int, y as int);
            f0.lemma_adj_bombs_capped(x as int + 1, y as int + 1, x as int, y as int);
            f0.lemma_adj_bombs_capped(x as int - 1, y as int, x as int, y as int);
            f0.lemma_adj_bombs_capped(x as int - 1, y as int - 1, x as int, y as int);
            f0.lemma_adj_bombs_capped(x as int - 1, y as int + 1, x as int, y as int);
            f0.lemma_adj_bombs_capped(x as int, y as int - 1, x as int, y as int);
            f0.lemma_adj_bombs_capped(x as int, y as int + 1, x as int, y as int);
        }
        if x + 1 < self.width {
            self.bump(x + 1, y);
            if y >= 1 {
                self.bump(x + 1, y - 1);
            }
            if y + 1 < self.height {
                self.bump(x + 1, y + 1);
            }
        }
        if x >= 1 {
            self.bump(x - 1, y);
            if y >= 1 {
                self.bump(x - 1, y - 1);
            }
            if y + 1 < self.height {
                self.bump(x - 1, y + 1);
            }
        }
        if y >= 1 {
            self.bump(x, y - 1);
        }
        if y + 1 < self.height {
            self.bump(x, y + 1);
        }
        proof {
            let f1 = *self;
            let xi = x as int;
            let yi = y as int;
            assert(f1.tile(xi, yi) == (Tile { adj: Adjacency::Bomb, ..f0.tile(xi, yi) }));
            assert forall|i: int, j: int|
                f0.in_bounds(i, j) && adjacent(i, j, xi, yi) implies #[trigger] f1.tile(i, j)
                == f0.tile(i, j).bumped() by {}
            assert forall|i: int, j: int|
                f0.in_bounds(i, j) && !adjacent(i, j, xi, yi) && !(i == xi && j == yi) implies #[trigger] f1.tile(
                i,
                j,
            ) == f0.tile(i, j) by {}
            Self::lemma_bomb_placed(f0, f1, xi, yi);
        }
        true
    }

    /// Raises the neighbour-bomb count of the tile at `(x, y)` by one; a
    /// bomb tile is left untouched.
    fn bump(&mut self, x: usize, y: usize)
        requires
            old(self).dims_ok(),
            old(self).in_bounds(x as int, y as int),
            !old(self).tile(x as int, y as int).spec_has_bomb() ==> old(self).tile(
                x as int,
                y as int,
            ).spec_near_bombs() < 8,
        ensures
            final(self).dims_ok(),
            final(self).width == old(self).width,
            final(self).height == old(self).height,
            final(self).tile(x as int, y as int) == old(self).tile(x as int, y as int).bumped(),
            forall|i: int, j: int|
                old(self).in_bounds(i, j) && !(i == x as int && j == y as int)
                    ==> #[trigger] final(self).tile(i, j) == old(self).tile(i, j),
    {
        let mut t = self.get_tile(x, y);
        t.another_bomb_near();
        self.set_tile(x, y, t);
    }

    /// Seeds `number` bombs at uniformly drawn cells, none inside the
    /// exclusion square around `exclude`, none on a cell that already
    /// holds one. A draw that lands on an occupied or excluded cell
    /// advances in raster order, wrapping, to the next open cell.
    pub fn gen_bombs(&mut self, number: usize, exclude: (usize, usize), radius: usize)
        requires
            old(self).wf(),
            number as int <= old(self).num_free(
                exclude.0 as int,
                exclude.1 as int,
                radius as int,
            ),
        ensures
            final(self).wf(),
            final(self).width == old(self).width,
            final(self).height == old(self).height,
            forall|i: int, j: int|
                old(self).in_bounds(i, j) ==> (#[trigger] final(self).tile(i, j)).state == old(
                    self,
                ).tile(i, j).state && final(self).tile(i, j).near == old(self).tile(i, j).near,
            forall|i: int, j: int| old(self).bomb_at(i, j) ==> #[trigger] final(self).bomb_at(i, j),
            forall|i: int, j: int|
                #[trigger] final(self).bomb_at(i, j) && !old(self).bomb_at(i, j) ==> !excluded(
                    exclude.0 as int,
                    exclude.1 as int,
                    radius as int,
                    i,
                    j,
                ),
            final(self).num_bombs() == old(self).num_bombs() + number,
    {
        let ghost f0 = *self;
        let ghost ex = exclude.0 as int;
        let ghost ey = exclude.1 as int;
        let ghost rad = radius as int;
        let mut placed: usize = 0;
        while placed < number
            invariant
                self.wf(),
                self.width == f0.width,
                self.height == f0.height,
                placed <= number,
                number as int <= f0.num_free(ex, ey, rad),
                ex == exclude.0 as int,
                ey == exclude.1 as int,
                rad == radius as int,
                self.num_free(ex, ey, rad) == f0.num_free(ex, ey, rad) - placed,
                self.num_bombs() == f0.num_bombs() + placed,
                forall|i: int, j: int|
                    f0.in_bounds(i, j) ==> (#[trigger] self.tile(i, j)).state == f0.tile(i, j).state
                        && self.tile(i, j).near == f0.tile(i, j).near,
                forall|i: int, j: int| f0.bomb_at(i, j) ==> #[trigger] self.bomb_at(i, j),
                forall|i: int, j: int|
                    #[trigger] self.bomb_at(i, j) && !f0.bomb_at(i, j) ==> !excluded(
                        ex,
                        ey,
                        rad,
                        i,
                        j,
                    ),
            decreases number - placed,
        {
            let ghost fprev = *self;
            let ghost fp = fprev.free_pred(ex, ey, rad);
            proof {
                lemma_count_rect_pos_exists(fp, fprev.width as int, fprev.height as int);
            }
            let ghost fv = choose|a: int, b: int|
                0 <= a < fprev.width as int && 0 <= b < fprev.height as int && #[trigger] fp(a, b);
            let ghost fx = fv.0;
            let ghost fy = fv.1;
            let mut x = random_below(self.width);
            let mut y = random_below(self.height);
            while self.has_bomb(x, y) || (within(x, exclude.0, radius) && within(
                y,
                exclude.1,
                radius,
            ))
                invariant
                    *self == fprev,
                    self.wf(),
                    x < self.width,
                    y < self.height,
                    self.in_bounds(fx, fy),
                    !excluded(ex, ey, rad, fx, fy),
                    !self.bomb_at(fx, fy),
                    ex == exclude.0 as int,
                    ey == exclude.1 as int,
                    rad == radius as int,
                decreases self.scan_dist(fx, fy, x as int, y as int),
            {
                proof {
                    if x as int == fx && y as int == fy {
                        assert(false);
                    }
                    self.lemma_scan_step(fx, fy, x as int, y as int);
                }
                if x == self.width - 1 {
                    x = 0;
                    if y == self.height - 1 {
                        y = 0;
                    } else {
                        y = y + 1;
                    }
                } else {
                    x = x + 1;
                }
            }
            let ghost px = x as int;
            let ghost py = y as int;
            proof {
                assert(!fprev.bomb_at(px, py));
                assert(!excluded(ex, ey, rad, px, py));
            }
            let added = self.add_bomb_at(x, y);
            proof {
                assert(added);
            }
            placed = placed + 1;
            proof {
                let fnow = *self;
                let qp = fnow.free_pred(ex, ey, rad);
                assert(!qp(px, py));
                assert(fp(px, py));
                assert forall|i: int, j: int|
                    0 <= i < fnow.width as int && 0 <= j < fnow.height as int && !(i == px && j
                        == py) implies #[trigger] qp(i, j) == fp(i, j) by {
                    assert(fnow.bomb_at(i, j) == fprev.bomb_at(i, j));
                }
                lemma_count_rect_flip(qp, fp, fnow.width as int, fnow.height as int, px, py);
            }
        }
    }
}

} // verus!
