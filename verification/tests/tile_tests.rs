use minefield::tile::{Adjacency, Near, Tile, TileNeighbour, TileState, BOMB};

fn fresh() -> Tile {
    Tile::new()
}

#[test]
fn new_tile_is_untouched() {
    let t = fresh();
    assert!(t.is_normal());
    assert!(!t.is_digged());
    assert!(!t.is_flagged());
    assert!(!t.has_bomb());
    assert_eq!(t.near_bombs(), 0);
    assert!(matches!(t.state(), TileState::Normal));
}

#[test]
fn dig_reveals_once() {
    let mut t = fresh();
    assert!(t.dig());
    assert!(t.is_digged());
    assert!(!t.dig());
    assert!(t.is_digged());
}

#[test]
fn dig_respects_flag() {
    let mut t = fresh();
    assert!(t.flag());
    assert!(!t.dig());
    assert!(t.is_flagged());
}

#[test]
fn flag_toggles() {
    let mut t = fresh();
    assert!(t.flag());
    assert!(t.is_flagged());
    assert!(t.flag());
    assert!(t.is_normal());
}

#[test]
fn flag_rejected_on_digged_tile() {
    let mut t = fresh();
    assert!(t.dig());
    assert!(!t.flag());
    assert!(t.is_digged());
}

#[test]
fn put_bomb_sets_sentinel() {
    let mut t = fresh();
    t.put_bomb();
    assert!(t.has_bomb());
    assert_eq!(t.near_bombs(), BOMB);
    assert_eq!(t.near_bombs(), 9);
    t.put_bomb();
    assert!(t.has_bomb());
}

#[test]
fn another_bomb_near_counts_up() {
    let mut t = fresh();
    for expected in 1u8..=8 {
        t.another_bomb_near();
        assert_eq!(t.near_bombs(), expected);
        assert!(!t.has_bomb());
    }
}

#[test]
fn bomb_count_never_perturbed() {
    let mut t = fresh();
    t.put_bomb();
    t.another_bomb_near();
    assert_eq!(t.near_bombs(), BOMB);
    assert!(t.has_bomb());
}

#[test]
fn sentinel_and_count_are_distinct() {
    // a tile reports either a count of at most eight or the sentinel,
    // never a value that could be both
    let mut counted = fresh();
    for _ in 0..8 {
        counted.another_bomb_near();
    }
    assert!(counted.near_bombs() <= 8);
    assert!(!counted.has_bomb());
    let mut bombed = fresh();
    bombed.put_bomb();
    assert_eq!(bombed.near_bombs(), 9);
    assert!(bombed.near_bombs() > 8);
}

#[test]
fn neighbour_flags_are_per_direction_and_sticky() {
    let mut t = fresh();
    let sides = [
        TileNeighbour::Upper,
        TileNeighbour::UpperRight,
        TileNeighbour::Right,
        TileNeighbour::LowerRight,
        TileNeighbour::Lower,
        TileNeighbour::LowerLeft,
        TileNeighbour::Left,
        TileNeighbour::UpperLeft,
    ];
    for side in sides {
        assert!(!t.is_neighbour_digged(side));
    }
    t.neighbour_digged(TileNeighbour::Right);
    assert!(t.is_neighbour_digged(TileNeighbour::Right));
    assert!(!t.is_neighbour_digged(TileNeighbour::Left));
    t.neighbour_digged(TileNeighbour::Right);
    assert!(t.is_neighbour_digged(TileNeighbour::Right));
}

#[test]
fn fresh_tile_border_is_isolated() {
    let t = fresh();
    assert_eq!(t.border_type(), 1);
}

#[test]
fn fully_surrounded_border() {
    let t = Tile {
        state: TileState::Normal,
        adj: Adjacency::Count(0),
        near: Near {
            up: true,
            up_right: true,
            right: true,
            low_right: true,
            low: true,
            low_left: true,
            left: true,
            up_left: true,
        },
    };
    assert_eq!(t.border_type(), 33);
}
