//! The minefield: a grid of tiles, `width` x `height`, owned exclusively by
//! the field. Coordinates are zero-indexed; the tile at `(x, y)` sits at
//! flat index `y * width + x`. The well-formedness invariant ties every
//! non-bomb tile's recorded count to the number of bombs among its
//! in-bounds neighbours.

use vstd::pervasive::VecAdditionalExecFns;
use vstd::prelude::*;

use crate::counting::{count_rect, lemma_count_rect_full, lemma_count_rect_zero};
use crate::tile::{border_code, Near, Tile, TileNeighbour, BOMB};

verus! {

/// Whether `(x1, y1)` is one of the eight neighbours of `(x2, y2)`.
pub open spec fn adjacent(x1: int, y1: int, x2: int, y2: int) -> bool {
    &&& x2 - 1 <= x1 <= x2 + 1
    &&& y2 - 1 <= y1 <= y2 + 1
    &&& !(x1 == x2 && y1 == y2)
}

impl TileNeighbour {
    /// The x offset of the neighbour this direction points at.
    pub open spec fn dx(self) -> int {
        match self {
            TileNeighbour::Upper => 0,
            TileNeighbour::UpperRight => 1,
            TileNeighbour::Right => 1,
            TileNeighbour::LowerRight => 1,
            TileNeighbour::Lower => 0,
            TileNeighbour::LowerLeft => -1,
            TileNeighbour::Left => -1,
            TileNeighbour::UpperLeft => -1,
        }
    }

    /// The y offset of the neighbour this direction points at; `Upper` is
    /// the neighbour with the larger `y`.
    pub open spec fn dy(self) -> int {
        match self {
            TileNeighbour::Upper => 1,
            TileNeighbour::UpperRight => 1,
            TileNeighbour::Right => 0,
            TileNeighbour::LowerRight => -1,
            TileNeighbour::Lower => -1,
            TileNeighbour::LowerLeft => -1,
            TileNeighbour::Left => 0,
            TileNeighbour::UpperLeft => 1,
        }
    }
}

/// A 2D grid of tiles with bomb placement, cascading reveal, flags and a
/// win condition. The grid is stored flat, row-major.
pub struct MineField {
    pub grid: Vec<Tile>,
    pub width: usize,
    pub height: usize,
}

impl MineField {
    /// Flat index of the cell `(x, y)`.
    pub open spec fn idx(self, x: int, y: int) -> int {
        y * self.width + x
    }

    /// Whether `(x, y)` lies on the grid.
    pub open spec fn in_bounds(self, x: int, y: int) -> bool {
        0 <= x < self.width && 0 <= y < self.height
    }

    /// The tile at `(x, y)`.
    pub open spec fn tile(self, x: int, y: int) -> Tile {
        self.grid@[self.idx(x, y)]
    }

    /// The grid has positive dimensions and exactly one tile per cell.
    pub open spec fn dims_ok(self) -> bool {
        &&& self.width > 0
        &&& self.height > 0
        &&& self.grid@.len() == self.width * self.height
    }

    /// Whether an in-bounds cell holds a bomb; false off the grid.
    pub open spec fn bomb_at(self, x: int, y: int) -> bool {
        self.in_bounds(x, y) && self.tile(x, y).spec_has_bomb()
    }

    /// Indicator of `bomb_at`.
    pub open spec fn bomb_ind(self, x: int, y: int) -> int {
        if self.bomb_at(x, y) {
            1
        } else {
            0
        }
    }

    /// The number of bombs among the in-bounds neighbours of `(x, y)`.
    pub open spec fn adj_bombs(self, x: int, y: int) -> int {
        self.bomb_ind(x - 1, y - 1) + self.bomb_ind(x, y - 1) + self.bomb_ind(x + 1, y - 1)
            + self.bomb_ind(x - 1, y) + self.bomb_ind(x + 1, y) + self.bomb_ind(x - 1, y + 1)
            + self.bomb_ind(x, y + 1) + self.bomb_ind(x + 1, y + 1)
    }

    /// Every non-bomb tile's recorded count equals the number of bombs
    /// among its in-bounds neighbours.
    pub open spec fn counts_ok(self) -> bool {
        forall|x: int, y: int|
            self.in_bounds(x, y) && !(#[trigger] self.tile(x, y)).spec_has_bomb()
                ==> self.tile(x, y).spec_near_bombs() as int == self.adj_bombs(x, y)
    }

    /// Well-formedness: positive dimensions, a full grid, accurate counts.
    pub open spec fn wf(self) -> bool {
        self.dims_ok() && self.counts_ok()
    }

    /// Whether an in-bounds cell is untouched; false off the grid.
    pub open spec fn normal_at(self, x: int, y: int) -> bool {
        self.in_bounds(x, y) && self.tile(x, y).spec_is_normal()
    }

    /// The bomb cells, as a predicate handed to the counting helpers.
    pub open spec fn bomb_pred(self) -> spec_fn(int, int) -> bool {
        |x: int, y: int| self.bomb_at(x, y)
    }

    /// The untouched cells, as a predicate handed to the counting helpers.
    pub open spec fn normal_pred(self) -> spec_fn(int, int) -> bool {
        |x: int, y: int| self.normal_at(x, y)
    }

    /// How many cells of the grid hold a bomb.
    pub open spec fn num_bombs(self) -> int {
        count_rect(self.bomb_pred(), self.width as int, self.height as int)
    }

    /// How many cells of the grid are untouched.
    pub open spec fn num_normal(self) -> int {
        count_rect(self.normal_pred(), self.width as int, self.height as int)
    }

    /// The game is won: every bomb is flagged and every safe tile has been
    /// dug.
    pub open spec fn won(self) -> bool {
        forall|x: int, y: int|
            self.in_bounds(x, y) ==> {
                let t = #[trigger] self.tile(x, y);
                (t.spec_has_bomb() ==> t.spec_is_flagged()) && (!t.spec_has_bomb()
                    ==> !t.spec_is_normal())
            }
    }

    /// A flat index derived from in-bounds coordinates is a grid index.
    pub proof fn lemma_idx_bounds(self, x: int, y: int)
        requires
            self.dims_ok(),
            self.in_bounds(x, y),
        ensures
            0 <= self.idx(x, y) < self.grid@.len(),
    {
        assert(0 <= y * self.width + x < self.width * self.height) by (nonlinear_arith)
            requires
                0 <= x < self.width,
                0 <= y < self.height,
        ;
    }

    /// Distinct in-bounds coordinates have distinct flat indices.
    pub proof fn lemma_idx_injective(self, x1: int, y1: int, x2: int, y2: int)
        requires
            self.dims_ok(),
            self.in_bounds(x1, y1),
            self.in_bounds(x2, y2),
            self.idx(x1, y1) == self.idx(x2, y2),
        ensures
            x1 == x2 && y1 == y2,
    {
        assert(x1 == x2 && y1 == y2) by (nonlinear_arith)
            requires
                0 <= x1 < self.width,
                0 <= x2 < self.width,
                y1 * self.width + x1 == y2 * self.width + x2,
        ;
    }

    /// A neighbour count is between 0 and 8.
    pub proof fn lemma_adj_bombs_range(self, x: int, y: int)
        ensures
            0 <= self.adj_bombs(x, y) <= 8,
    {
    }

    /// A tile one of whose neighbour slots is known bomb-free has at most
    /// seven bombs around it.
    pub proof fn lemma_adj_bombs_capped(self, x: int, y: int, bx: int, by: int)
        requires
            adjacent(bx, by, x, y),
            !self.bomb_at(bx, by),
        ensures
            self.adj_bombs(x, y) <= 7,
    {
    }

    /// Two fields of the same dimensions whose tiles agree on bomb
    /// contents have the same neighbour counts everywhere; if the counts
    /// were accurate they stay accurate.
    pub proof fn lemma_same_bombs_same_counts(f0: MineField, f1: MineField)
        requires
            f0.dims_ok(),
            f1.dims_ok(),
            f1.width == f0.width,
            f1.height == f0.height,
            forall|x: int, y: int|
                f0.in_bounds(x, y) ==> (#[trigger] f1.tile(x, y)).adj == f0.tile(x, y).adj,
            f0.counts_ok(),
        ensures
            f1.counts_ok(),
    {
        assert forall|x: int, y: int|
            f1.in_bounds(x, y) && !(#[trigger] f1.tile(x, y)).spec_has_bomb() implies f1.tile(
            x,
            y,
        ).spec_near_bombs() as int == f1.adj_bombs(x, y) by {
            assert(f1.tile(x, y).spec_near_bombs() == f0.tile(x, y).spec_near_bombs());
            assert(f1.bomb_ind(x - 1, y - 1) == f0.bomb_ind(x - 1, y - 1));
            assert(f1.bomb_ind(x, y - 1) == f0.bomb_ind(x, y - 1));
            assert(f1.bomb_ind(x + 1, y - 1) == f0.bomb_ind(x + 1, y - 1));
            assert(f1.bomb_ind(x - 1, y) == f0.bomb_ind(x - 1, y));
            assert(f1.bomb_ind(x + 1, y) == f0.bomb_ind(x + 1, y));
            assert(f1.bomb_ind(x - 1, y + 1) == f0.bomb_ind(x - 1, y + 1));
            assert(f1.bomb_ind(x, y + 1) == f0.bomb_ind(x, y + 1));
            assert(f1.bomb_ind(x + 1, y + 1) == f0.bomb_ind(x + 1, y + 1));
        }
    }

    /// Reads the tile at `(x, y)`.
    pub(crate) fn get_tile(&self, x: usize, y: usize) -> (t: Tile)
        requires
            self.dims_ok(),
            self.in_bounds(x as int, y as int),
        ensures
            t == self.tile(x as int, y as int),
    {
        proof {
            self.lemma_idx_bounds(x as int, y as int);
        }
        let n = self.grid.len();
        assert((y as int) * (self.width as int) + (x as int) < n as int);
        self.grid[y * self.width + x]
    }

    /// Replaces the tile at `(x, y)`, leaving every other cell as it was.
    pub(crate) fn set_tile(&mut self, x: usize, y: usize, t: Tile)
        requires
            old(self).dims_ok(),
            old(self).in_bounds(x as int, y as int),
        ensures
            final(self).dims_ok(),
            final(self).width == old(self).width,
            final(self).height == old(self).height,
            final(self).grid@ == old(self).grid@.update(old(self).idx(x as int, y as int), t),
            final(self).tile(x as int, y as int) == t,
            forall|i: int, j: int|
                old(self).in_bounds(i, j) && !(i == x as int && j == y as int)
                    ==> #[trigger] final(self).tile(i, j) == old(self).tile(i, j),
    {
        proof {
            self.lemma_idx_bounds(x as int, y as int);
        }
        let n = self.grid.len();
        assert((y as int) * (self.width as int) + (x as int) < n as int);
        let i = y * self.width + x;
        self.grid.set(i, t);
        proof {
            assert forall|i2: int, j2: int|
                old(self).in_bounds(i2, j2) && !(i2 == x as int && j2 == y as int) implies #[trigger] self.tile(
                i2,
                j2,
            ) == old(self).tile(i2, j2) by {
                old(self).lemma_idx_bounds(i2, j2);
                if old(self).idx(i2, j2) == old(self).idx(x as int, y as int) {
                    old(self).lemma_idx_injective(i2, j2, x as int, y as int);
                }
            }
        }
    }

    /// Creates a new `MineField` with size `width` x `height`: every tile
    /// untouched, no bombs anywhere.
    pub fn new(width: usize, height: usize) -> (f: MineField)
        requires
            width > 0,
            height > 0,
            width * height <= usize::MAX,
        ensures
            f.wf(),
            f.width == width,
            f.height == height,
            forall|x: int, y: int|
                f.in_bounds(x, y) ==> #[trigger] f.tile(x, y) == Tile::initial(),
            f.num_bombs() == 0,
            f.num_normal() == f.width * f.height,
    {
        let total = width * height;
        let mut grid: Vec<Tile> = Vec::new();
        let mut k: usize = 0;
        while k < total
            invariant
                k <= total,
                grid@.len() == k,
                forall|i: int| 0 <= i < k ==> #[trigger] grid@[i] == Tile::initial(),
            decreases total - k,
        {
            grid.push(Tile::new());
            k = k + 1;
        }
        let f = MineField { grid, width, height };
        proof {
            assert forall|x: int, y: int| f.in_bounds(x, y) implies #[trigger] f.tile(x, y)
                == Tile::initial() by {
                f.lemma_idx_bounds(x, y);
            }
            assert forall|x: int, y: int|
                f.in_bounds(x, y) && !(#[trigger] f.tile(x, y)).spec_has_bomb() implies f.tile(
                x,
                y,
            ).spec_near_bombs() as int == f.adj_bombs(x, y) by {
                assert(f.adj_bombs(x, y) == 0);
            }
            assert forall|x: int, y: int| 0 <= x < f.width && 0 <= y < f.height implies !(
            #[trigger] f.bomb_pred()(x, y)) by {
                assert(!f.tile(x, y).spec_has_bomb());
            }
            lemma_count_rect_zero(f.bomb_pred(), f.width as int, f.height as int);
            assert forall|x: int, y: int| 0 <= x < f.width && 0 <= y < f.height implies (
            #[trigger] f.normal_pred()(x, y)) by {
                assert(f.tile(x, y).spec_is_normal());
            }
            lemma_count_rect_full(f.normal_pred(), f.width as int, f.height as int);
        }
        f
    }

    /// Returns the `width` of the `MineField`.
    pub fn width(&self) -> (r: usize)
        ensures
            r == self.width,
    {
        self.width
    }

    /// Returns the `height` of the `MineField`.
    pub fn height(&self) -> (r: usize)
        ensures
            r == self.height,
    {
        self.height
    }

    /// Tells whether the tile at `(x, y)` is untouched.
    pub fn is_normal(&self, x: usize, y: usize) -> (r: bool)
        requires
            self.dims_ok(),
            self.in_bounds(x as int, y as int),
        ensures
            r == self.tile(x as int, y as int).spec_is_normal(),
    {
        self.get_tile(x, y).is_normal()
    }

    /// Tells whether the tile at `(x, y)` has been digged.
    pub fn is_digged(&self, x: usize, y: usize) -> (r: bool)
        requires
            self.dims_ok(),
            self.in_bounds(x as int, y as int),
        ensures
            r == self.tile(x as int, y as int).spec_is_digged(),
    {
        self.get_tile(x, y).is_digged()
    }

    /// Tells whether the tile at `(x, y)` carries a flag.
    pub fn is_flagged(&self, x: usize, y: usize) -> (r: bool)
        requires
            self.dims_ok(),
            self.in_bounds(x as int, y as int),
        ensures
            r == self.tile(x as int, y as int).spec_is_flagged(),
    {
        self.get_tile(x, y).is_flagged()
    }

    /// Tells whether the tile at `(x, y)` hides a bomb.
    pub fn has_bomb(&self, x: usize, y: usize) -> (r: bool)
        requires
            self.dims_ok(),
            self.in_bounds(x as int, y as int),
        ensures
            r == self.tile(x as int, y as int).spec_has_bomb(),
            r == self.bomb_at(x as int, y as int),
    {
        self.get_tile(x, y).has_bomb()
    }

    /// The recorded adjacency of the tile at `(x, y)`: its neighbour-bomb
    /// count, or `BOMB` if the tile itself hides a bomb.
    pub fn bombs_near(&self, x: usize, y: usize) -> (r: u8)
        requires
            self.dims_ok(),
            self.in_bounds(x as int, y as int),
        ensures
            r == self.tile(x as int, y as int).spec_near_bombs(),
    {
        self.get_tile(x, y).near_bombs()
    }

    /// The border code of the tile at `(x, y)`, in 1..=47.
    pub fn border_type(&self, x: usize, y: usize) -> (r: u32)
        requires
            self.dims_ok(),
            self.in_bounds(x as int, y as int),
        ensures
            r == border_code(self.tile(x as int, y as int).near),
            1 <= r <= 47,
    {
        self.get_tile(x, y).border_type()
    }

    /// Toggles the flag on the tile at `(x, y)`; returns false without
    /// effect if the tile is digged.
    pub fn flag(&mut self, x: usize, y: usize) -> (r: bool)
        requires
            old(self).wf(),
            old(self).in_bounds(x as int, y as int),
        ensures
            final(self).wf(),
            final(self).width == old(self).width,
            final(self).height == old(self).height,
            r == !(old(self).tile(x as int, y as int).state is Digged),
            !r ==> *final(self) == *old(self),
            forall|i: int, j: int|
                old(self).in_bounds(i, j) && !(i == x as int && j == y as int)
                    ==> #[trigger] final(self).tile(i, j) == old(self).tile(i, j),
            final(self).tile(x as int, y as int).adj == old(self).tile(x as int, y as int).adj,
            final(self).tile(x as int, y as int).near == old(self).tile(x as int, y as int).near,
            old(self).tile(x as int, y as int).state is Normal ==> final(self).tile(
                x as int,
                y as int,
            ).state is Flagged,
            old(self).tile(x as int, y as int).state is Flagged ==> final(self).tile(
                x as int,
                y as int,
            ).state is Normal,
            old(self).tile(x as int, y as int).state is Digged ==> final(self).tile(
                x as int,
                y as int,
            ).state is Digged,
    {
        let mut t = self.get_tile(x, y);
        let r = t.flag();
        if r {
            self.set_tile(x, y, t);
        }
        proof {
            assert forall|i: int, j: int|
                old(self).in_bounds(i, j) implies (#[trigger] self.tile(i, j)).adj == old(
                self,
            ).tile(i, j).adj by {}
            Self::lemma_same_bombs_same_counts(*old(self), *self);
        }
        r
    }

    /// The tile at `(x, y)` with every direction flag set that points at
    /// an in-bounds cell: what `update_all` leaves behind.
    pub open spec fn tile_all_marked(self, x: int, y: int) -> Tile {
        let t = self.tile(x, y);
        Tile {
            near: Near {
                up: t.near.up || self.in_bounds(x, y + 1),
                up_right: t.near.up_right || self.in_bounds(x + 1, y + 1),
                right: t.near.right || self.in_bounds(x + 1, y),
                low_right: t.near.low_right || self.in_bounds(x + 1, y - 1),
                low: t.near.low || self.in_bounds(x, y - 1),
                low_left: t.near.low_left || self.in_bounds(x - 1, y - 1),
                left: t.near.left || self.in_bounds(x - 1, y),
                up_left: t.near.up_left || self.in_bounds(x - 1, y + 1),
            },
            ..t
        }
    }

    /// Direction by direction: after `update_all` a flag is set exactly
    /// when it was set before or its direction points at an in-bounds
    /// cell.
    pub proof fn lemma_all_marked_dir(self, x: int, y: int, side: TileNeighbour)
        ensures
            self.tile_all_marked(x, y).near.dir(side) == (self.tile(x, y).near.dir(side)
                || self.in_bounds(x + side.dx(), y + side.dy())),
    {
    }

    /// The reported adjacency of an in-bounds tile of a well-formed field
    /// is either a real neighbour count, at most eight, or the bomb
    /// sentinel — never both.
    pub proof fn lemma_near_bombs_valid(self, x: int, y: int)
        requires
            self.wf(),
            self.in_bounds(x, y),
        ensures
            self.tile(x, y).spec_has_bomb() <==> self.tile(x, y).spec_near_bombs() == BOMB,
            !self.tile(x, y).spec_has_bomb() ==> self.tile(x, y).spec_near_bombs() <= 8,
    {
        self.lemma_adj_bombs_range(x, y);
    }

    /// In a well-formed field, each non-bomb tile reports exactly the
    /// number of bombs among its in-bounds neighbours.
    pub proof fn lemma_counts_accurate(self, x: int, y: int)
        requires
            self.wf(),
            self.in_bounds(x, y),
            !self.tile(x, y).spec_has_bomb(),
        ensures
            self.tile(x, y).spec_near_bombs() as int == self.adj_bombs(x, y),
    {
    }

    /// Sets, on every tile, the flags of all directions that point at an
    /// in-bounds cell, as if every tile had been revealed: used at game
    /// loss to refresh all border art.
    pub fn update_all(&mut self)
        requires
            old(self).wf(),
        ensures
            final(self).wf(),
            final(self).width == old(self).width,
            final(self).height == old(self).height,
            forall|i: int, j: int|
                old(self).in_bounds(i, j) ==> #[trigger] final(self).tile(i, j) == old(
                    self,
                ).tile_all_marked(i, j),
    {
        let ghost f0 = *self;
        let mut x: usize = 0;
        while x < self.width
            invariant
                f0.wf(),
                self.dims_ok(),
                self.width == f0.width,
                self.height == f0.height,
                x <= self.width,
                forall|i: int, j: int|
                    f0.in_bounds(i, j) && i < x ==> #[trigger] self.tile(i, j)
                        == f0.tile_all_marked(i, j),
                forall|i: int, j: int|
                    f0.in_bounds(i, j) && i >= x ==> #[trigger] self.tile(i, j) == f0.tile(i, j),
            decreases self.width - x,
        {
            let mut y: usize = 0;
            while y < self.height
                invariant
                    f0.wf(),
                    self.dims_ok(),
                    self.width == f0.width,
                    self.height == f0.height,
                    x < self.width,
                    y <= self.height,
                    forall|i: int, j: int|
                        f0.in_bounds(i, j) && i < x ==> #[trigger] self.tile(i, j)
                            == f0.tile_all_marked(i, j),
                    forall|j: int|
                        0 <= j < y ==> #[trigger] self.tile(x as int, j) == f0.tile_all_marked(
                            x as int,
                            j,
                        ),
                    forall|i: int, j: int|
                        f0.in_bounds(i, j) && (i > x || (i == x && j >= y)) ==> #[trigger] self.tile(
                            i,
                            j,
                        ) == f0.tile(i, j),
                decreases self.height - y,
            {
                let t = self.get_tile(x, y);
                let up_ok = y + 1 < self.height;
                let low_ok = y >= 1;
                let right_ok = x + 1 < self.width;
                let left_ok = x >= 1;
                let t2 = Tile {
                    near: Near {
                        up: t.near.up || up_ok,
                        up_right: t.near.up_right || (right_ok && up_ok),
                        right: t.near.right || right_ok,
                        low_right: t.near.low_right || (right_ok && low_ok),
                        low: t.near.low || low_ok,
                        low_left: t.near.low_left || (left_ok && low_ok),
                        left: t.near.left || left_ok,
                        up_left: t.near.up_left || (left_ok && up_ok),
                    },
                    ..t
                };
                self.set_tile(x, y, t2);
                y = y + 1;
            }
            x = x + 1;
        }
        proof {
            assert forall|i: int, j: int|
                f0.in_bounds(i, j) implies (#[trigger] self.tile(i, j)).adj == f0.tile(i, j).adj by {
                assert(self.tile(i, j) == f0.tile_all_marked(i, j));
            }
            Self::lemma_same_bombs_same_counts(f0, *self);
        }
    }

    /// Whether the game is won: every bomb flagged and every safe tile
    /// dug. Both are required.
    pub fn check_win(&self) -> (r: bool)
        requires
            self.dims_ok(),
        ensures
            r == self.won(),
    {
        let mut x: usize = 0;
        while x < self.width
            invariant
                self.dims_ok(),
                x <= self.width,
                forall|i: int, j: int|
                    0 <= i < x && 0 <= j < self.height ==> {
                        let t = #[trigger] self.tile(i, j);
                        (t.spec_has_bomb() ==> t.spec_is_flagged()) && (!t.spec_has_bomb()
                            ==> !t.spec_is_normal())
                    },
            decreases self.width - x,
        {
            let mut y: usize = 0;
            while y < self.height
                invariant
                    self.dims_ok(),
                    x < self.width,
                    y <= self.height,
                    forall|i: int, j: int|
                        0 <= i < x && 0 <= j < self.height ==> {
                            let t = #[trigger] self.tile(i, j);
                            (t.spec_has_bomb() ==> t.spec_is_flagged()) && (!t.spec_has_bomb()
                                ==> !t.spec_is_normal())
                        },
                    forall|j: int|
                        0 <= j < y ==> {
                            let t = #[trigger] self.tile(x as int, j);
                            (t.spec_has_bomb() ==> t.spec_is_flagged()) && (!t.spec_has_bomb()
                                ==> !t.spec_is_normal())
                        },
                decreases self.height - y,
            {
                let t = self.get_tile(x, y);
                if t.has_bomb() && !t.is_flagged() {
                    return false;
                }
                if !t.has_bomb() && t.is_normal() {
                    return false;
                }
                y = y + 1;
            }
            x = x + 1;
        }
        true
    }
}

} // verus!
