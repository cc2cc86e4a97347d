use minefield::MineField;

/// The number of bombs in the in-bounds neighbourhood of `(x, y)`,
/// recomputed from scratch.
fn ground_truth_adjacent_bombs(field: &MineField, x: usize, y: usize) -> u8 {
    let mut count = 0u8;
    let w = field.width() as i64;
    let h = field.height() as i64;
    for dx in -1i64..=1 {
        for dy in -1i64..=1 {
            if dx == 0 && dy == 0 {
                continue;
            }
            let nx = x as i64 + dx;
            let ny = y as i64 + dy;
            if nx >= 0 && nx < w && ny >= 0 && ny < h && field.has_bomb(nx as usize, ny as usize) {
                count += 1;
            }
        }
    }
    count
}

fn count_bombs(field: &MineField) -> usize {
    let mut n = 0;
    for x in 0..field.width() {
        for y in 0..field.height() {
            if field.has_bomb(x, y) {
                n += 1;
            }
        }
    }
    n
}

#[test]
fn new_field_is_empty() {
    let field = MineField::new(4, 3);
    assert_eq!(field.width(), 4);
    assert_eq!(field.height(), 3);
    for x in 0..4 {
        for y in 0..3 {
            assert!(field.is_normal(x, y));
            assert!(!field.has_bomb(x, y));
            assert_eq!(field.bombs_near(x, y), 0);
            assert_eq!(field.border_type(x, y), 1);
        }
    }
    assert_eq!(count_bombs(&field), 0);
}

#[test]
fn add_bomb_updates_neighbour_counts() {
    let mut field = MineField::new(3, 3);
    assert!(field.add_bomb_at(1, 1));
    for x in 0..3 {
        for y in 0..3 {
            if x == 1 && y == 1 {
                assert!(field.has_bomb(x, y));
                assert_eq!(field.bombs_near(x, y), 9);
            } else {
                assert_eq!(field.bombs_near(x, y), 1);
            }
        }
    }
}

#[test]
fn add_bomb_rejected_on_occupied_cell() {
    let mut field = MineField::new(2, 2);
    assert!(field.add_bomb_at(0, 0));
    assert!(!field.add_bomb_at(0, 0));
    assert_eq!(count_bombs(&field), 1);
    assert_eq!(field.bombs_near(1, 1), 1);
}

#[test]
fn counts_match_ground_truth_after_many_bombs() {
    let mut field = MineField::new(5, 4);
    for (x, y) in [(0, 0), (1, 0), (4, 3), (2, 2), (3, 1)] {
        assert!(field.add_bomb_at(x, y));
    }
    for x in 0..5 {
        for y in 0..4 {
            if !field.has_bomb(x, y) {
                assert_eq!(
                    field.bombs_near(x, y),
                    ground_truth_adjacent_bombs(&field, x, y),
                    "count wrong at ({}, {})",
                    x,
                    y
                );
            }
        }
    }
}

#[test]
fn corner_bomb_counts() {
    let mut field = MineField::new(3, 3);
    assert!(field.add_bomb_at(0, 0));
    assert_eq!(field.bombs_near(1, 0), 1);
    assert_eq!(field.bombs_near(0, 1), 1);
    assert_eq!(field.bombs_near(1, 1), 1);
    assert_eq!(field.bombs_near(2, 0), 0);
    assert_eq!(field.bombs_near(2, 2), 0);
}

#[test]
fn dig_corner_of_empty_field_reveals_everything() {
    let mut field = MineField::new(10, 10);
    let changed = field.dig(0, 0).expect("a dig on an untouched tile reports changes");
    let mut fresh: Vec<(usize, usize)> = changed
        .iter()
        .filter(|e| e.2)
        .map(|e| (e.0, e.1))
        .collect();
    fresh.sort();
    let before = fresh.len();
    fresh.dedup();
    assert_eq!(fresh.len(), before, "a tile was reported as freshly dug twice");
    assert_eq!(fresh.len(), 100);
    for x in 0..10 {
        for y in 0..10 {
            assert!(field.is_digged(x, y));
        }
    }
}

#[test]
fn dig_is_idempotent_per_tile() {
    let mut field = MineField::new(10, 10);
    assert!(field.dig(0, 0).is_some());
    assert!(field.dig(0, 0).is_none());
    assert!(field.dig(5, 5).is_none());
    for x in 0..10 {
        for y in 0..10 {
            assert!(field.is_digged(x, y));
        }
    }
}

#[test]
fn dig_stops_at_numbered_rim() {
    // one bomb in the corner: the cascade from the far corner reveals
    // everything except the bomb itself
    let mut field = MineField::new(4, 4);
    assert!(field.add_bomb_at(0, 0));
    let changed = field.dig(3, 3).expect("dig reports changes");
    let fresh = changed.iter().filter(|e| e.2).count();
    assert_eq!(fresh, 15);
    assert!(!field.is_digged(0, 0));
    assert!(field.is_digged(1, 0));
    assert!(field.is_digged(0, 1));
    assert!(field.is_digged(1, 1));
}

#[test]
fn dig_single_numbered_tile_does_not_cascade() {
    let mut field = MineField::new(3, 3);
    assert!(field.add_bomb_at(2, 2));
    let changed = field.dig(1, 1).expect("dig reports changes");
    let fresh: Vec<_> = changed.iter().filter(|e| e.2).collect();
    assert_eq!(fresh.len(), 1);
    assert_eq!((fresh[0].0, fresh[0].1), (1, 1));
    assert!(field.is_digged(1, 1));
    assert!(field.is_normal(0, 0));
    assert!(field.is_normal(2, 2));
}

#[test]
fn dig_updates_neighbour_borders() {
    let mut field = MineField::new(3, 3);
    assert!(field.add_bomb_at(2, 2));
    assert!(field.dig(1, 1).is_some());
    // (0, 1) saw its right-hand neighbour revealed
    assert_eq!(field.border_type(0, 1), 2);
    // (0, 0) only saw a diagonal neighbour revealed: still isolated
    assert_eq!(field.border_type(0, 0), 1);
}

#[test]
fn dig_reports_border_only_changes_for_revealed_neighbours() {
    // a central bomb keeps every dig from cascading
    let mut field = MineField::new(3, 3);
    assert!(field.add_bomb_at(1, 1));
    assert!(field.dig(0, 0).is_some());
    let changed = field.dig(0, 1).expect("dig reports changes");
    assert!(
        changed.iter().any(|e| !e.2 && e.0 == 0 && e.1 == 0),
        "the already-revealed neighbour gets a border-only entry"
    );
}

#[test]
fn dig_rejected_on_flagged_tile() {
    let mut field = MineField::new(3, 3);
    assert!(field.flag(1, 1));
    assert!(field.dig(1, 1).is_none());
    assert!(field.is_flagged(1, 1));
}

#[test]
fn flagged_tiles_block_the_cascade() {
    let mut field = MineField::new(3, 3);
    assert!(field.flag(2, 2));
    let changed = field.dig(0, 0).expect("dig reports changes");
    let fresh = changed.iter().filter(|e| e.2).count();
    assert_eq!(fresh, 8);
    assert!(field.is_flagged(2, 2));
}

#[test]
fn flag_toggles_and_respects_digged() {
    let mut field = MineField::new(2, 2);
    assert!(field.flag(0, 0));
    assert!(field.is_flagged(0, 0));
    assert!(field.flag(0, 0));
    assert!(field.is_normal(0, 0));
}

#[test]
fn flag_on_digged_tile_is_rejected() {
    let mut field = MineField::new(2, 2);
    assert!(field.add_bomb_at(1, 1));
    assert!(field.dig(0, 0).is_some());
    assert!(!field.flag(0, 0));
    assert!(field.is_digged(0, 0));
}

#[test]
fn check_win_needs_flags_and_digs() {
    let mut field = MineField::new(2, 1);
    assert!(field.add_bomb_at(0, 0));
    assert!(!field.check_win());
    // one flagged bomb, one still-untouched safe tile: not won
    assert!(field.flag(0, 0));
    assert!(!field.check_win());
    // dig the last safe tile: won
    assert!(field.dig(1, 0).is_some());
    assert!(field.check_win());
}

#[test]
fn check_win_needs_every_bomb_flagged() {
    let mut field = MineField::new(2, 1);
    assert!(field.add_bomb_at(0, 0));
    assert!(field.dig(1, 0).is_some());
    assert!(!field.check_win());
    assert!(field.flag(0, 0));
    assert!(field.check_win());
}

#[test]
fn update_all_marks_every_direction() {
    let mut field = MineField::new(2, 2);
    field.update_all();
    // each corner of a 2x2 grid sees its two cardinal neighbours and the
    // one diagonal; (0, 0) has upper, right and upper-right set
    assert_eq!(field.border_type(0, 0), 19);
    assert_eq!(field.border_type(1, 1), 17);
    for x in 0..2 {
        for y in 0..2 {
            assert!(field.is_normal(x, y));
            assert_eq!(field.bombs_near(x, y), 0);
        }
    }
}

#[test]
fn gen_bombs_places_exactly_the_number_outside_the_exclusion() {
    let mut field = MineField::new(10, 10);
    field.gen_bombs(25, (5, 5), 3);
    assert_eq!(count_bombs(&field), 25);
    for x in 2..8 {
        for y in 2..8 {
            assert!(!field.has_bomb(x, y), "bomb inside exclusion at ({}, {})", x, y);
        }
    }
    for x in 0..10 {
        for y in 0..10 {
            assert!(field.is_normal(x, y));
            if !field.has_bomb(x, y) {
                assert_eq!(field.bombs_near(x, y), ground_truth_adjacent_bombs(&field, x, y));
            }
        }
    }
}

#[test]
fn gen_bombs_fills_the_only_open_cell() {
    let mut field = MineField::new(1, 1);
    field.gen_bombs(1, (0, 0), 0);
    assert!(field.has_bomb(0, 0));
    assert_eq!(count_bombs(&field), 1);
}

#[test]
fn gen_bombs_scan_lands_outside_exclusion() {
    // with every cell but one excluded, every draw must settle on the
    // single open cell
    let mut field = MineField::new(3, 1);
    field.gen_bombs(1, (0, 0), 2);
    assert!(field.has_bomb(2, 0));
    assert!(!field.has_bomb(0, 0));
    assert!(!field.has_bomb(1, 0));
}

#[test]
fn first_dig_after_seeding_is_safe() {
    let mut field = MineField::new(10, 10);
    field.gen_bombs(25, (4, 4), 2);
    let changed = field.dig(4, 4).expect("the first dig lands on a safe tile");
    assert!(changed.iter().any(|e| e.2 && e.0 == 4 && e.1 == 4));
    assert!(field.is_digged(4, 4));
}
