//! One grid cell: reveal/flag state, bomb adjacency, per-direction reveal
//! history, and the classification of that history into a border code.

use vstd::prelude::*;

verus! {

/// State of a tile: untouched, revealed, or carrying a flag.
#[derive(Clone, Copy, PartialEq, Eq, Structural, Debug)]
pub enum TileState {
    Normal,
    Digged,
    Flagged,
}

/// The eight compass directions around a tile. `Upper` is the neighbour
/// with the larger `y` coordinate, `Right` the one with the larger `x`.
#[derive(Clone, Copy, PartialEq, Eq, Structural, Debug)]
pub enum TileNeighbour {
    Upper,
    UpperRight,
    Right,
    LowerRight,
    Lower,
    LowerLeft,
    Left,
    UpperLeft,
}

/// What a tile holds: either a count of bombs in adjacent cells, or a bomb
/// of its own. A tile never has both.
#[derive(Clone, Copy, PartialEq, Eq, Structural, Debug)]
pub enum Adjacency {
    Count(u8),
    Bomb,
}

/// The value `near_bombs` reports for a tile that holds a bomb itself:
/// one more than the largest possible neighbour count.
pub const BOMB: u8 = 9;

/// Which of the eight neighbours of a tile have ever been revealed.
/// Monotonic: a direction, once set, is never cleared.
#[derive(Clone, Copy, PartialEq, Eq, Structural, Debug)]
pub struct Near {
    pub up: bool,
    pub up_right: bool,
    pub right: bool,
    pub low_right: bool,
    pub low: bool,
    pub low_left: bool,
    pub left: bool,
    pub up_left: bool,
}

impl Near {
    /// All eight directions unset.
    pub open spec fn none() -> Near {
        Near {
            up: false,
            up_right: false,
            right: false,
            low_right: false,
            low: false,
            low_left: false,
            left: false,
            up_left: false,
        }
    }

    /// The flag for one direction.
    pub open spec fn dir(self, side: TileNeighbour) -> bool {
        match side {
            TileNeighbour::Upper => self.up,
            TileNeighbour::UpperRight => self.up_right,
            TileNeighbour::Right => self.right,
            TileNeighbour::LowerRight => self.low_right,
            TileNeighbour::Lower => self.low,
            TileNeighbour::LowerLeft => self.low_left,
            TileNeighbour::Left => self.left,
            TileNeighbour::UpperLeft => self.up_left,
        }
    }

    /// This record with the flag for `side` set and all others kept.
    pub open spec fn set_dir(self, side: TileNeighbour) -> Near {
        match side {
            TileNeighbour::Upper => Near { up: true, ..self },
            TileNeighbour::UpperRight => Near { up_right: true, ..self },
            TileNeighbour::Right => Near { right: true, ..self },
            TileNeighbour::LowerRight => Near { low_right: true, ..self },
            TileNeighbour::Lower => Near { low: true, ..self },
            TileNeighbour::LowerLeft => Near { low_left: true, ..self },
            TileNeighbour::Left => Near { left: true, ..self },
            TileNeighbour::UpperLeft => Near { up_left: true, ..self },
        }
    }
}

/// The hand-authored classification of a revealed-neighbour pattern into one
/// of 47 border art variants. The entries form an ordered list of patterns;
/// the first matching entry decides. The four cardinal directions always
/// discriminate; the diagonals discriminate only where an entry lists them.
/// The table is a fixed lookup contract: it encodes tileset art indices and
/// is not derivable from a smaller rule.
pub open spec fn border_code(n: Near) -> u32 {
    if !n.up && !n.right && !n.low && !n.left {
        1
    } else if !n.up && n.right && !n.low && !n.left {
        2
    } else if !n.up && !n.right && n.low && !n.left {
        3
    } else if !n.up && !n.right && !n.low && n.left {
        4
    } else if n.up && !n.right && !n.low && !n.left {
        5
    } else if !n.up && !n.right && n.low && !n.low_left && n.left {
        6
    } else if n.up && !n.right && !n.low && n.left && !n.up_left {
        7
    } else if n.up && !n.up_right && n.right && !n.low && !n.left {
        8
    } else if !n.up && n.right && !n.low_right && n.low && !n.left {
        9
    } else if n.up && !n.right && n.low && !n.left {
        10
    } else if !n.up && n.right && !n.low && n.left {
        11
    } else if n.up && !n.up_right && n.right && !n.low_right && n.low && !n.left {
        12
    } else if !n.up && n.right && !n.low_right && n.low && !n.low_left && n.left {
        13
    } else if n.up && !n.right && n.low && !n.low_left && n.left && !n.up_left {
        14
    } else if n.up && !n.up_right && n.right && !n.low && n.left && !n.up_left {
        15
    } else if n.up && !n.up_right && n.right && !n.low_right && n.low && !n.low_left && n.left
        && !n.up_left {
        16
    } else if !n.up && !n.right && n.low && n.low_left && n.left {
        17
    } else if n.up && !n.right && !n.low && n.left && n.up_left {
        18
    } else if n.up && n.up_right && n.right && !n.low && !n.left {
        19
    } else if !n.up && n.right && n.low_right && n.low && !n.left {
        20
    } else if n.up && n.up_right && n.right && n.low_right && n.low && !n.left {
        21
    } else if n.up && !n.up_right && n.right && n.low_right && n.low && !n.left {
        22
    } else if n.up && n.up_right && n.right && !n.low_right && n.low && !n.left {
        23
    } else if !n.up && n.right && n.low_right && n.low && n.low_left && n.left {
        24
    } else if !n.up && n.right && !n.low_right && n.low && n.low_left && n.left {
        25
    } else if !n.up && n.right && n.low_right && n.low && !n.low_left && n.left {
        26
    } else if n.up && !n.right && n.low && n.low_left && n.left && n.up_left {
        27
    } else if n.up && !n.right && n.low && !n.low_left && n.left && n.up_left {
        28
    } else if n.up && !n.right && n.low && n.low_left && n.left && !n.up_left {
        29
    } else if n.up && n.up_right && n.right && !n.low && n.left && n.up_left {
        30
    } else if n.up && n.up_right && n.right && !n.low && n.left && !n.up_left {
        31
    } else if n.up && !n.up_right && n.right && !n.low && n.left && n.up_left {
        32
    } else if n.up && n.up_right && n.right && n.low_right && n.low && n.low_left && n.left
        && n.up_left {
        33
    } else if n.up && !n.up_right && n.right && n.low_right && n.low && n.low_left && n.left
        && n.up_left {
        34
    } else if n.up && n.up_right && n.right && !n.low_right && n.low && n.low_left && n.left
        && n.up_left {
        35
    } else if n.up && n.up_right && n.right && n.low_right && n.low && !n.low_left && n.left
        && n.up_left {
        36
    } else if n.up && n.up_right && n.right && n.low_right && n.low && n.low_left && n.left
        && !n.up_left {
        37
    } else if n.up && !n.up_right && n.right && !n.low_right && n.low && n.low_left && n.left
        && n.up_left {
        38
    } else if n.up && n.up_right && n.right && !n.low_right && n.low && !n.low_left && n.left
        && n.up_left {
        39
    } else if n.up && n.up_right && n.right && n.low_right && n.low && !n.low_left && n.left
        && !n.up_left {
        40
    } else if n.up && !n.up_right && n.right && n.low_right && n.low && n.low_left && n.left
        && !n.up_left {
        41
    } else if n.up && !n.up_right && n.right && !n.low_right && n.low && !n.low_left && n.left
        && n.up_left {
        42
    } else if n.up && n.up_right && n.right && !n.low_right && n.low && !n.low_left && n.left
        && !n.up_left {
        43
    } else if n.up && !n.up_right && n.right && n.low_right && n.low && !n.low_left && n.left
        && !n.up_left {
        44
    } else if n.up && !n.up_right && n.right && !n.low_right && n.low && n.low_left && n.left
        && !n.up_left {
        45
    } else if n.up && !n.up_right && n.right && n.low_right && n.low && !n.low_left && n.left
        && n.up_left {
        46
    } else {
        // The one remaining pattern: all cardinals set, diagonals
        // up-right and low-left set, low-right and up-left clear.
        47
    }
}

/// One grid cell.
#[derive(Clone, Copy)]
pub struct Tile {
    pub state: TileState,
    pub adj: Adjacency,
    pub near: Near,
}

impl Tile {
    /// The freshly constructed tile: untouched, no bomb, no neighbour
    /// revealed.
    pub open spec fn initial() -> Tile {
        Tile { state: TileState::Normal, adj: Adjacency::Count(0), near: Near::none() }
    }

    /// Whether the tile holds a bomb.
    pub open spec fn spec_has_bomb(&self) -> bool {
        self.adj is Bomb
    }

    /// The reported adjacency: the neighbour-bomb count in 0..=8, or
    /// `BOMB` for a tile that holds a bomb itself.
    pub open spec fn spec_near_bombs(&self) -> u8 {
        match self.adj {
            Adjacency::Count(c) => c,
            Adjacency::Bomb => BOMB,
        }
    }

    pub open spec fn spec_is_normal(&self) -> bool {
        self.state is Normal
    }

    pub open spec fn spec_is_digged(&self) -> bool {
        self.state is Digged
    }

    pub open spec fn spec_is_flagged(&self) -> bool {
        self.state is Flagged
    }

    /// This tile as `another_bomb_near` leaves it: a bomb tile untouched,
    /// any other with its count one higher.
    pub open spec fn bumped(self) -> Tile {
        match self.adj {
            Adjacency::Bomb => self,
            Adjacency::Count(c) => Tile { adj: Adjacency::Count((c + 1) as u8), ..self },
        }
    }

    /// Creates a new `Tile`.
    pub fn new() -> (t: Tile)
        ensures
            t == Tile::initial(),
    {
        Tile {
            state: TileState::Normal,
            adj: Adjacency::Count(0),
            near: Near {
                up: false,
                up_right: false,
                right: false,
                low_right: false,
                low: false,
                low_left: false,
                left: false,
                up_left: false,
            },
        }
    }

    /// Tells whether or not the `Tile` has been touched.
    #[verifier::when_used_as_spec(spec_is_normal)]
    pub fn is_normal(&self) -> (r: bool)
        ensures
            r == self.spec_is_normal(),
    {
        match self.state {
            TileState::Normal => true,
            _ => false,
        }
    }

    /// Tells whether or not the `Tile` has been digged.
    #[verifier::when_used_as_spec(spec_is_digged)]
    pub fn is_digged(&self) -> (r: bool)
        ensures
            r == self.spec_is_digged(),
    {
        match self.state {
            TileState::Digged => true,
            _ => false,
        }
    }

    /// Tells whether or not the `Tile` has a flag on top.
    #[verifier::when_used_as_spec(spec_is_flagged)]
    pub fn is_flagged(&self) -> (r: bool)
        ensures
            r == self.spec_is_flagged(),
    {
        match self.state {
            TileState::Flagged => true,
            _ => false,
        }
    }

    /// Tells whether or not a bomb is hidden inside the `Tile`.
    #[verifier::when_used_as_spec(spec_has_bomb)]
    pub fn has_bomb(&self) -> (r: bool)
        ensures
            r == self.spec_has_bomb(),
    {
        match self.adj {
            Adjacency::Bomb => true,
            _ => false,
        }
    }

    /// Tells how many adjacent tiles have a bomb hidden inside; `BOMB` for
    /// a tile that holds a bomb itself.
    #[verifier::when_used_as_spec(spec_near_bombs)]
    pub fn near_bombs(&self) -> (r: u8)
        ensures
            r == self.spec_near_bombs(),
    {
        match self.adj {
            Adjacency::Count(c) => c,
            Adjacency::Bomb => BOMB,
        }
    }

    /// Returns the state of the `Tile`.
    pub fn state(&self) -> (r: TileState)
        ensures
            r == self.state,
    {
        self.state
    }

    /// Puts a bomb in the `Tile`. Idempotent; meaningful only during the
    /// placement phase, before neighbour counts are relied on.
    pub fn put_bomb(&mut self)
        ensures
            final(self).adj is Bomb,
            final(self).state == old(self).state,
            final(self).near == old(self).near,
    {
        self.adj = Adjacency::Bomb;
    }

    /// Digs the `Tile` if it's untouched and returns whether or not it got
    /// digged. A digged or flagged tile is left as it is.
    pub fn dig(&mut self) -> (r: bool)
        ensures
            r == old(self).state is Normal,
            r ==> final(self).state is Digged,
            !r ==> *final(self) == *old(self),
            final(self).adj == old(self).adj,
            final(self).near == old(self).near,
    {
        if self.is_normal() {
            self.state = TileState::Digged;
            true
        } else {
            false
        }
    }

    /// Toggles the flag on the `Tile`: an untouched tile gets a flag, a
    /// flagged one loses it. Returns false without effect on a digged tile.
    pub fn flag(&mut self) -> (r: bool)
        ensures
            r == !(old(self).state is Digged),
            old(self).state is Digged ==> *final(self) == *old(self),
            old(self).state is Normal ==> final(self).state is Flagged,
            old(self).state is Flagged ==> final(self).state is Normal,
            final(self).adj == old(self).adj,
            final(self).near == old(self).near,
    {
        self.state = match self.state {
            TileState::Normal => TileState::Flagged,
            TileState::Flagged => TileState::Normal,
            TileState::Digged => {
                return false;
            },
        };
        true
    }

    /// Records that the neighbour on the given `side` has been revealed.
    /// Monotonic: no flag is ever cleared.
    pub fn neighbour_digged(&mut self, side: TileNeighbour)
        ensures
            final(self).near == old(self).near.set_dir(side),
            final(self).state == old(self).state,
            final(self).adj == old(self).adj,
    {
        match side {
            TileNeighbour::Upper => self.near.up = true,
            TileNeighbour::UpperRight => self.near.up_right = true,
            TileNeighbour::Right => self.near.right = true,
            TileNeighbour::LowerRight => self.near.low_right = true,
            TileNeighbour::Lower => self.near.low = true,
            TileNeighbour::LowerLeft => self.near.low_left = true,
            TileNeighbour::Left => self.near.left = true,
            TileNeighbour::UpperLeft => self.near.up_left = true,
        }
    }

    /// Tells whether or not the neighbour on the given `side` has been
    /// revealed.
    pub fn is_neighbour_digged(&self, side: TileNeighbour) -> (r: bool)
        ensures
            r == self.near.dir(side),
    {
        match side {
            TileNeighbour::Upper => self.near.up,
            TileNeighbour::UpperRight => self.near.up_right,
            TileNeighbour::Right => self.near.right,
            TileNeighbour::LowerRight => self.near.low_right,
            TileNeighbour::Lower => self.near.low,
            TileNeighbour::LowerLeft => self.near.low_left,
            TileNeighbour::Left => self.near.left,
            TileNeighbour::UpperLeft => self.near.up_left,
        }
    }

    /// Increments the counter of the bombs planted near the `Tile`; a bomb
    /// tile is never perturbed. A non-bomb tile's count stays in 0..=8, so
    /// a ninth increment is ruled out (a tile has only eight neighbours).
    pub fn another_bomb_near(&mut self)
        requires
            !old(self).spec_has_bomb() ==> old(self).spec_near_bombs() < 8,
        ensures
            old(self).adj is Bomb ==> *final(self) == *old(self),
            !(old(self).adj is Bomb) ==> final(self).adj == (Adjacency::Count(
                (old(self).spec_near_bombs() + 1) as u8,
            )),
            final(self).state == old(self).state,
            final(self).near == old(self).near,
    {
        match self.adj {
            Adjacency::Count(c) => self.adj = Adjacency::Count(c + 1),
            Adjacency::Bomb => (),
        }
    }

    /// The border code of this tile's revealed-neighbour pattern, in
    /// 1..=47, looked up in the fixed classification table.
    pub fn border_type(&self) -> (r: u32)
        ensures
            r == border_code(self.near),
            1 <= r <= 47,
    {
        let n = self.near;
        if !n.up && !n.right && !n.low && !n.left {
            1
        } else if !n.up && n.right && !n.low && !n.left {
            2
        } else if !n.up && !n.right && n.low && !n.left {
            3
        } else if !n.up && !n.right && !n.low && n.left {
            4
        } else if n.up && !n.right && !n.low && !n.left {
            5
        } else if !n.up && !n.right && n.low && !n.low_left && n.left {
            6
        } else if n.up && !n.right && !n.low && n.left && !n.up_left {
            7
        } else if n.up && !n.up_right && n.right && !n.low && !n.left {
            8
        } else if !n.up && n.right && !n.low_right && n.low && !n.left {
            9
        } else if n.up && !n.right && n.low && !n.left {
            10
        } else if !n.up && n.right && !n.low && n.left {
            11
        } else if n.up && !n.up_right && n.right && !n.low_right && n.low && !n.left {
            12
        } else if !n.up && n.right && !n.low_right && n.low && !n.low_left && n.left {
            13
        } else if n.up && !n.right && n.low && !n.low_left && n.left && !n.up_left {
            14
        } else if n.up && !n.up_right && n.right && !n.low && n.left && !n.up_left {
            15
        } else if n.up && !n.up_right && n.right && !n.low_right && n.low && !n.low_left && n.left
            && !n.up_left {
            16
        } else if !n.up && !n.right && n.low && n.low_left && n.left {
            17
        } else if n.up && !n.right && !n.low && n.left && n.up_left {
            18
        } else if n.up && n.up_right && n.right && !n.low && !n.left {
            19
        } else if !n.up && n.right && n.low_right && n.low && !n.left {
            20
        } else if n.up && n.up_right && n.right && n.low_right && n.low && !n.left {
            21
        } else if n.up && !n.up_right && n.right && n.low_right && n.low && !n.left {
            22
        } else if n.up && n.up_right && n.right && !n.low_right && n.low && !n.left {
            23
        } else if !n.up && n.right && n.low_right && n.low && n.low_left && n.left {
            24
        } else if !n.up && n.right && !n.low_right && n.low && n.low_left && n.left {
            25
        } else if !n.up && n.right && n.low_right && n.low && !n.low_left && n.left {
            26
        } else if n.up && !n.right && n.low && n.low_left && n.left && n.up_left {
            27
        } else if n.up && !n.right && n.low && !n.low_left && n.left && n.up_left {
            28
        } else if n.up && !n.right && n.low && n.low_left && n.left && !n.up_left {
            29
        } else if n.up && n.up_right && n.right && !n.low && n.left && n.up_left {
            30
        } else if n.up && n.up_right && n.right && !n.low && n.left && !n.up_left {
            31
        } else if n.up && !n.up_right && n.right && !n.low && n.left && n.up_left {
            32
        } else if n.up && n.up_right && n.right && n.low_right && n.low && n.low_left && n.left
            && n.up_left {
            33
        } else if n.up && !n.up_right && n.right && n.low_right && n.low && n.low_left && n.left
            && n.up_left {
            34
        } else if n.up && n.up_right && n.right && !n.low_right && n.low && n.low_left && n.left
            && n.up_left {
            35
        } else if n.up && n.up_right && n.right && n.low_right && n.low && !n.low_left && n.left
            && n.up_left {
            36
        } else if n.up && n.up_right && n.right && n.low_right && n.low && n.low_left && n.left
            && !n.up_left {
            37
        } else if n.up && !n.up_right && n.right && !n.low_right && n.low && n.low_left && n.left
            && n.up_left {
            38
        } else if n.up && n.up_right && n.right && !n.low_right && n.low && !n.low_left && n.left
            && n.up_left {
            39
        } else if n.up && n.up_right && n.right && n.low_right && n.low && !n.low_left && n.left
            && !n.up_left {
            40
        } else if n.up && !n.up_right && n.right && n.low_right && n.low && n.low_left && n.left
            && !n.up_left {
            41
        } else if n.up && !n.up_right && n.right && !n.low_right && n.low && !n.low_left && n.left
            && n.up_left {
            42
        } else if n.up && n.up_right && n.right && !n.low_right && n.low && !n.low_left && n.left
            && !n.up_left {
            43
        } else if n.up && !n.up_right && n.right && n.low_right && n.low && !n.low_left && n.left
            && !n.up_left {
            44
        } else if n.up && !n.up_right && n.right && !n.low_right && n.low && n.low_left && n.left
            && !n.up_left {
            45
        } else if n.up && !n.up_right && n.right && n.low_right && n.low && !n.low_left && n.left
            && n.up_left {
            46
        } else {
            47
        }
    }
}

} // verus!

