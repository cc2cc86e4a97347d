//! Literal comparison of `border_type` against the documented 47-entry
//! classification table: each entry is an ordered pattern over the eight
//! directions, `None` marking a slot whose value does not matter, and the
//! first matching entry decides. Every one of the 256 possible patterns
//! is checked.

use minefield::tile::{Adjacency, Near, Tile, TileState};

const W: Option<bool> = None;
const T: Option<bool> = Some(true);
const F: Option<bool> = Some(false);

// Slot order: Up, UpRight, Right, LowRight, Low, LowLeft, Left, UpLeft.
const TABLE: [([Option<bool>; 8], u32); 47] = [
    ([F, W, F, W, F, W, F, W], 1),
    ([F, W, T, W, F, W, F, W], 2),
    ([F, W, F, W, T, W, F, W], 3),
    ([F, W, F, W, F, W, T, W], 4),
    ([T, W, F, W, F, W, F, W], 5),
    ([F, W, F, W, T, F, T, W], 6),
    ([T, W, F, W, F, W, T, F], 7),
    ([T, F, T, W, F, W, F, W], 8),
    ([F, W, T, F, T, W, F, W], 9),
    ([T, W, F, W, T, W, F, W], 10),
    ([F, W, T, W, F, W, T, W], 11),
    ([T, F, T, F, T, W, F, W], 12),
    ([F, W, T, F, T, F, T, W], 13),
    ([T, W, F, W, T, F, T, F], 14),
    ([T, F, T, W, F, W, T, F], 15),
    ([T, F, T, F, T, F, T, F], 16),
    ([F, W, F, W, T, T, T, W], 17),
    ([T, W, F, W, F, W, T, T], 18),
    ([T, T, T, W, F, W, F, W], 19),
    ([F, W, T, T, T, W, F, W], 20),
    ([T, T, T, T, T, W, F, W], 21),
    ([T, F, T, T, T, W, F, W], 22),
    ([T, T, T, F, T, W, F, W], 23),
    ([F, W, T, T, T, T, T, W], 24),
    ([F, W, T, F, T, T, T, W], 25),
    ([F, W, T, T, T, F, T, W], 26),
    ([T, W, F, W, T, T, T, T], 27),
    ([T, W, F, W, T, F, T, T], 28),
    ([T, W, F, W, T, T, T, F], 29),
    ([T, T, T, W, F, W, T, T], 30),
    ([T, T, T, W, F, W, T, F], 31),
    ([T, F, T, W, F, W, T, T], 32),
    ([T, T, T, T, T, T, T, T], 33),
    ([T, F, T, T, T, T, T, T], 34),
    ([T, T, T, F, T, T, T, T], 35),
    ([T, T, T, T, T, F, T, T], 36),
    ([T, T, T, T, T, T, T, F], 37),
    ([T, F, T, F, T, T, T, T], 38),
    ([T, T, T, F, T, F, T, T], 39),
    ([T, T, T, T, T, F, T, F], 40),
    ([T, F, T, T, T, T, T, F], 41),
    ([T, F, T, F, T, F, T, T], 42),
    ([T, T, T, F, T, F, T, F], 43),
    ([T, F, T, T, T, F, T, F], 44),
    ([T, F, T, F, T, T, T, F], 45),
    ([T, F, T, T, T, F, T, T], 46),
    ([T, T, T, F, T, T, T, F], 47),
];

fn matches_entry(bits: &[bool; 8], pattern: &[Option<bool>; 8]) -> bool {
    for i in 0..8 {
        if let Some(v) = pattern[i] {
            if bits[i] != v {
                return false;
            }
        }
    }
    true
}

fn expected_code(bits: &[bool; 8]) -> u32 {
    for (pattern, code) in TABLE.iter() {
        if matches_entry(bits, pattern) {
            return *code;
        }
    }
    panic!("no table entry matches");
}

fn tile_with(bits: &[bool; 8]) -> Tile {
    Tile {
        state: TileState::Normal,
        adj: Adjacency::Count(0),
        near: Near {
            up: bits[0],
            up_right: bits[1],
            right: bits[2],
            low_right: bits[3],
            low: bits[4],
            low_left: bits[5],
            left: bits[6],
            up_left: bits[7],
        },
    }
}

#[test]
fn border_type_matches_table_on_all_patterns() {
    for mask in 0u32..256 {
        let mut bits = [false; 8];
        for i in 0..8 {
            bits[i] = mask & (1 << i) != 0;
        }
        let tile = tile_with(&bits);
        assert_eq!(
            tile.border_type(),
            expected_code(&bits),
            "pattern {:?} classified wrongly",
            bits
        );
    }
}

#[test]
fn every_code_is_reachable() {
    let mut seen = [false; 48];
    for mask in 0u32..256 {
        let mut bits = [false; 8];
        for i in 0..8 {
            bits[i] = mask & (1 << i) != 0;
        }
        let code = tile_with(&bits).border_type();
        assert!(code >= 1 && code <= 47);
        seen[code as usize] = true;
    }
    for code in 1..=47 {
        assert!(seen[code], "code {} never returned", code);
    }
}
