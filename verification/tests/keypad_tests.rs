use smt32_project::keypad::{Button, KeyPad};

const MAPPING: [[&str; 4]; 5] = [
    ["F1", "F2", "#", "*"],
    ["1", "2", "3", "UP"],
    ["4", "5", "6", "DOWN"],
    ["7", "8", "9", "ESC"],
    ["LEFT", "0", "RIGHT", "ENTER"],
];

fn scan(keys: &[(usize, usize)]) -> [[bool; 4]; 5] {
    let mut low = [[false; 4]; 5];
    for &(r, c) in keys {
        low[r][c] = true;
    }
    low
}

#[test]
fn new_keypad_has_nothing_pressed() {
    let k = KeyPad::new(MAPPING);
    assert_eq!(k.buffer, 0);
    assert!(k.released());
    assert_eq!(k.get_one_key(), None);
    assert_eq!(k.one_key(), None);
}

#[test]
fn scan_sets_row_major_bits() {
    let mut k = KeyPad::new(MAPPING);
    k.apply_scan(&scan(&[(1, 2), (4, 3)]));
    assert_eq!(k.buffer, (1 << 6) | (1 << 19));
    assert!(k.is_pressed(1, 2));
    assert!(k.is_pressed(4, 3));
    assert!(!k.is_pressed(0, 0));
    assert!(!k.released());
    k.apply_scan(&scan(&[]));
    assert_eq!(k.buffer, 0);
}

#[test]
fn scan_keeps_bits_past_the_grid() {
    let mut k = KeyPad::new(MAPPING);
    k.buffer = 1 << 25;
    k.apply_scan(&scan(&[(0, 0)]));
    assert_eq!(k.buffer, (1 << 25) | 1);
}

#[test]
fn first_pressed_key_is_reported_with_its_number() {
    let mut k = KeyPad::new(MAPPING);
    k.apply_scan(&scan(&[(2, 1), (3, 3)]));
    assert_eq!(
        k.get_one_key(),
        Some(Button { row: 2, col: 1, digit: Some(5), string: "5" })
    );
    assert_eq!(k.one_key(), None);
    k.apply_scan(&scan(&[(4, 3)]));
    assert_eq!(
        k.one_key(),
        Some(Some(Button { row: 4, col: 3, digit: None, string: "ENTER" }))
    );
    k.apply_scan(&scan(&[(0, 0)]));
    assert_eq!(
        k.get_one_key(),
        Some(Button { row: 0, col: 0, digit: None, string: "F1" })
    );
}

#[test]
fn labels_read_as_numbers_like_str_parse() {
    let mapping = [["+7", "256", "255", "-1", "", "12a"]];
    let mut k = KeyPad::new(mapping);
    let expect = [Some(7u8), None, Some(255), None, None, None];
    for c in 0..6 {
        let mut low = [[false; 6]; 1];
        low[0][c] = true;
        k.apply_scan(&low);
        assert_eq!(k.get_one_key().unwrap().digit, expect[c]);
    }
}

#[test]
fn single_key_outside_grid_gives_no_button() {
    let mut k = KeyPad::new(MAPPING);
    k.buffer = 1 << 30;
    assert_eq!(k.one_key(), Some(None));
}

#[test]
fn single_key_in_grid_is_always_reported() {
    let mut k = KeyPad::new(MAPPING);
    for r in 0..5 {
        for c in 0..4 {
            k.apply_scan(&scan(&[(r, c)]));
            let b = k.one_key().unwrap().unwrap();
            assert_eq!((b.row as usize, b.col as usize), (r, c));
            assert_eq!(b.row as u32 * 4 + b.col as u32, k.buffer.trailing_zeros());
            assert_eq!(b.string, MAPPING[r][c]);
        }
    }
}
