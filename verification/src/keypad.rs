//! The matrix keypad model.
//!
//! Rows are driven low one at a time and the column inputs read; a pressed key
//! connects its column to the low row.  The result of a scan is one bit per
//! key in `buffer`, row-major, bit `COL_N * row + col`.
use vstd::prelude::*;

verus! {

/// A key as the game sees it: where it is, the number its label reads as, and
/// its label.
#[derive(Copy, Clone, Debug, PartialEq, Eq)]
pub struct Button<'a> {
    pub row: u8,
    pub col: u8,
    pub digit: Option<u8>,
    pub string: &'a str,
}

/// Bit `k` of a key buffer.
pub open spec fn key_bit(buffer: u32, k: int) -> bool {
    (buffer >> (k as u32)) & 1u32 == 1u32
}

/// The number of one bits of `x`.
pub open spec fn ones_count(x: u32) -> nat
    decreases x,
{
    if x == 0 {
        0
    } else {
        proof {
            assert(x != 0 ==> (x >> 1u32) < x) by (bit_vector);
        }
        (x & 1u32) as nat + ones_count(x >> 1u32)
    }
}

/// `u32::count_ones` returns the number of ones in the binary representation.
pub assume_specification[ u32::count_ones ](i: u32) -> (r: u32)
    ensures
        r as nat == ones_count(i),
;

/// The value of a string of decimal digits.
pub open spec fn decimal_value(d: Seq<char>) -> int
    decreases d.len(),
{
    if d.len() == 0 {
        0
    } else {
        decimal_value(d.drop_last()) * 10 + (d.last() as int - '0' as int)
    }
}

/// Whether every character is an ASCII decimal digit.
pub open spec fn all_decimal(d: Seq<char>) -> bool {
    forall|i: int| 0 <= i < d.len() ==> '0' <= #[trigger] d[i] && d[i] <= '9'
}

/// A key label read as a byte: an optional `+` followed by one or more
/// decimal digits whose value is at most 255; anything else reads as nothing.
pub open spec fn parsed_u8(s: Seq<char>) -> Option<u8> {
    let d = if s.len() > 0 && s[0] == '+' {
        s.drop_first()
    } else {
        s
    };
    if d.len() > 0 && all_decimal(d) && decimal_value(d) <= 255 {
        Some(decimal_value(d) as u8)
    } else {
        None
    }
}

/// `str::parse::<u8>`, which accepts an optional `+` sign followed by decimal
/// digits and fails on anything else or on a value above 255; the error is
/// dropped.
#[verifier::external_body]
fn parse_u8(s: &str) -> (r: Option<u8>)
    ensures
        r == parsed_u8(s@),
{
    s.parse::<u8>().ok()
}

proof fn lemma_index_bound(r: int, c: int, rows: int, cols: int)
    by (nonlinear_arith)
    requires
        0 <= r < rows,
        0 <= c < cols,
    ensures
        cols * r + c < cols * rows,
        cols * r + c + 1 <= cols * rows,
{
    assert(cols * r + cols <= cols * rows);
}

proof fn lemma_index_order(r1: int, c1: int, r2: int, c2: int, cols: int)
    by (nonlinear_arith)
    requires
        0 <= c1 < cols,
        0 <= c2 < cols,
        0 <= r1,
        r1 < r2 || (r1 == r2 && c1 < c2),
    ensures
        cols * r1 + c1 < cols * r2 + c2,
{
    if r1 < r2 {
        assert(cols * r1 + cols <= cols * r2);
    }
}

proof fn lemma_no_bits_is_zero(x: u32)
    requires
        forall|k: int| 0 <= k < 32 ==> !key_bit(x, k),
    ensures
        x == 0,
{
    assert(!key_bit(x, 0));
    assert(!key_bit(x, 1));
    assert(!key_bit(x, 2));
    assert(!key_bit(x, 3));
    assert(!key_bit(x, 4));
    assert(!key_bit(x, 5));
    assert(!key_bit(x, 6));
    assert(!key_bit(x, 7));
    assert(!key_bit(x, 8));
    assert(!key_bit(x, 9));
    assert(!key_bit(x, 10));
    assert(!key_bit(x, 11));
    assert(!key_bit(x, 12));
    assert(!key_bit(x, 13));
    assert(!key_bit(x, 14));
    assert(!key_bit(x, 15));
    assert(!key_bit(x, 16));
    assert(!key_bit(x, 17));
    assert(!key_bit(x, 18));
    assert(!key_bit(x, 19));
    assert(!key_bit(x, 20));
    assert(!key_bit(x, 21));
    assert(!key_bit(x, 22));
    assert(!key_bit(x, 23));
    assert(!key_bit(x, 24));
    assert(!key_bit(x, 25));
    assert(!key_bit(x, 26));
    assert(!key_bit(x, 27));
    assert(!key_bit(x, 28));
    assert(!key_bit(x, 29));
    assert(!key_bit(x, 30));
    assert(!key_bit(x, 31));
    assert(x == 0) by (bit_vector)
        requires
            (x >> 0u32) & 1u32 != 1u32,
            (x >> 1u32) & 1u32 != 1u32,
            (x >> 2u32) & 1u32 != 1u32,
            (x >> 3u32) & 1u32 != 1u32,
            (x >> 4u32) & 1u32 != 1u32,
            (x >> 5u32) & 1u32 != 1u32,
            (x >> 6u32) & 1u32 != 1u32,
            (x >> 7u32) & 1u32 != 1u32,
            (x >> 8u32) & 1u32 != 1u32,
            (x >> 9u32) & 1u32 != 1u32,
            (x >> 10u32) & 1u32 != 1u32,
            (x >> 11u32) & 1u32 != 1u32,
            (x >> 12u32) & 1u32 != 1u32,
            (x >> 13u32) & 1u32 != 1u32,
            (x >> 14u32) & 1u32 != 1u32,
            (x >> 15u32) & 1u32 != 1u32,
            (x >> 16u32) & 1u32 != 1u32,
            (x >> 17u32) & 1u32 != 1u32,
            (x >> 18u32) & 1u32 != 1u32,
            (x >> 19u32) & 1u32 != 1u32,
            (x >> 20u32) & 1u32 != 1u32,
            (x >> 21u32) & 1u32 != 1u32,
            (x >> 22u32) & 1u32 != 1u32,
            (x >> 23u32) & 1u32 != 1u32,
            (x >> 24u32) & 1u32 != 1u32,
            (x >> 25u32) & 1u32 != 1u32,
            (x >> 26u32) & 1u32 != 1u32,
            (x >> 27u32) & 1u32 != 1u32,
            (x >> 28u32) & 1u32 != 1u32,
            (x >> 29u32) & 1u32 != 1u32,
            (x >> 30u32) & 1u32 != 1u32,
            (x >> 31u32) & 1u32 != 1u32,
    ;
}

/// A keypad of `ROW_N` rows and `COL_N` columns with a label for every key.
pub struct KeyPad<'d, const ROW_N: usize, const COL_N: usize> {
    pub buffer: u32,
    pub mapping: [[&'d str; COL_N]; ROW_N],
}

impl<'d, const ROW_N: usize, const COL_N: usize> KeyPad<'d, ROW_N, COL_N> {
    /// The label of key `(row, col)`.
    pub open spec fn label(&self, row: int, col: int) -> &'d str {
        self.mapping@[row]@[col]
    }

    /// Whether key `(row, col)` is down in the buffer.
    pub open spec fn pressed(&self, row: int, col: int) -> bool {
        COL_N * row + col < 32 && key_bit(self.buffer, COL_N * row + col)
    }

    /// The button reported for key `(row, col)`.
    pub open spec fn button_at(&self, row: int, col: int) -> Button<'d> {
        Button {
            row: row as u8,
            col: col as u8,
            digit: parsed_u8(self.label(row, col)@),
            string: self.label(row, col),
        }
    }

    /// Whether `(row, col)` is the first pressed key in row-major order.
    pub open spec fn first_pressed(&self, row: int, col: int) -> bool {
        &&& 0 <= row < ROW_N
        &&& 0 <= col < COL_N
        &&& self.pressed(row, col)
        &&& forall|r: int, c: int|
            0 <= r < ROW_N && 0 <= c < COL_N && (r < row || (r == row && c < col))
                ==> !#[trigger] self.pressed(r, c)
    }

    /// A keypad with nothing pressed and the given key labels.
    pub fn new(mapping: [[&'d str; COL_N]; ROW_N]) -> (k: Self)
        ensures
            k.buffer == 0,
            k.mapping == mapping,
    {
        Self { buffer: 0, mapping }
    }

    /// Whether no bit at or past the number of keys is set.
    pub open spec fn within_grid(&self) -> bool {
        forall|j: int| COL_N * ROW_N <= j < 32 ==> !key_bit(self.buffer, j)
    }

    /// The button `one_key` reports when exactly one key of the grid is down.
    pub open spec fn one_key_result(&self) -> Button<'d> {
        let (r, c) = choose|r: int, c: int| 0 <= r < ROW_N && 0 <= c < COL_N && self.pressed(r, c);
        self.button_at(r, c)
    }

    /// With some bit set and none past the grid, some key of the grid is down.
    pub proof fn lemma_some_key_pressed(&self)
        requires
            self.buffer != 0,
            self.within_grid(),
        ensures
            exists|r: int, c: int| 0 <= r < ROW_N && 0 <= c < COL_N && self.pressed(r, c),
    {
        if forall|k: int| 0 <= k < 32 ==> !key_bit(self.buffer, k) {
            lemma_no_bits_is_zero(self.buffer);
        }
        let k = choose|k: int| 0 <= k < 32 && key_bit(self.buffer, k);
        assert(k < COL_N * ROW_N);
        let cols = COL_N as int;
        let rows = ROW_N as int;
        assert(cols > 0) by (nonlinear_arith)
            requires
                0 <= k < cols * rows,
                cols >= 0,
                rows >= 0,
        ;
        let r = k / cols;
        let c = k % cols;
        vstd::arithmetic::div_mod::lemma_fundamental_div_mod(k, cols);
        assert(0 <= c < cols);
        assert(0 <= r < rows) by (nonlinear_arith)
            requires
                k == cols * r + c,
                0 <= c < cols,
                0 <= k < cols * rows,
        ;
        assert(self.pressed(r, c));
    }

    /// Whether key `(row, col)` was down at the last scan.
    pub fn is_pressed(&self, row: usize, col: usize) -> (r: bool)
        requires
            COL_N * row + col < 32,
        ensures
            r == key_bit(self.buffer, COL_N * row + col),
    {
        ((self.buffer >> ((COL_N * row + col) as u32)) & 1) == 1
    }

    /// The first pressed key in row-major order, if any.  A keypad of more
    /// than 32 keys can only be asked while some key is down.
    pub fn get_one_key(&self) -> (b: Option<Button<'d>>)
        requires
            ROW_N * COL_N <= 32 || self.buffer != 0,
        ensures
            match b {
                Some(b) => exists|r: int, c: int|
                    self.first_pressed(r, c) && b == #[trigger] self.button_at(r, c),
                None => forall|r: int, c: int|
                    0 <= r < ROW_N && 0 <= c < COL_N ==> !#[trigger] self.pressed(r, c),
            },
    {
        let mut row: usize = 0;
        while row < ROW_N
            invariant
                row <= ROW_N,
                ROW_N * COL_N <= 32 || self.buffer != 0,
                forall|r: int, c: int|
                    0 <= r < row && 0 <= c < COL_N ==> !#[trigger] self.pressed(r, c),
                forall|k: int| 0 <= k < COL_N * row && k < 32 ==> !key_bit(self.buffer, k),
            decreases ROW_N - row,
        {
            let mut col: usize = 0;
            while col < COL_N
                invariant
                    row < ROW_N,
                    col <= COL_N,
                    ROW_N * COL_N <= 32 || self.buffer != 0,
                    forall|r: int, c: int|
                        0 <= r < ROW_N && 0 <= c < COL_N && (r < row || (r == row && c < col))
                            ==> !#[trigger] self.pressed(r, c),
                    forall|k: int|
                        0 <= k < COL_N * row + col && k < 32 ==> !key_bit(self.buffer, k),
                decreases COL_N - col,
            {
                proof {
                    lemma_index_bound(row as int, col as int, ROW_N as int, COL_N as int);
                    if COL_N * row + col >= 32 {
                        lemma_no_bits_is_zero(self.buffer);
                    }
                }
                if self.is_pressed(row, col) {
                    let t = self.mapping[row][col];
                    let b = Button { row: row as u8, col: col as u8, digit: parse_u8(t), string: t };
                    assert(self.first_pressed(row as int, col as int));
                    assert(b == self.button_at(row as int, col as int));
                    return Some(b);
                }
                col += 1;
            }
            proof {
                assert(COL_N * (row + 1) == COL_N * row + COL_N) by (nonlinear_arith);
            }
            row += 1;
        }
        None
    }

    /// Records a scan: `low[row][col]` tells whether column `col` read low
    /// while row `row` was driven low.  Keys past the 32nd have no bit and
    /// are not recorded.
    pub fn apply_scan(&mut self, low: &[[bool; COL_N]; ROW_N])
        ensures
            forall|r: int, c: int|
                0 <= r < ROW_N && 0 <= c < COL_N && COL_N * r + c < 32 ==> key_bit(
                    final(self).buffer,
                    COL_N * r + c,
                ) == low@[r]@[c],
            forall|j: int|
                0 <= j < 32 && j >= COL_N * ROW_N ==> key_bit(final(self).buffer, j) == key_bit(
                    old(self).buffer,
                    j,
                ),
            final(self).mapping == old(self).mapping,
    {
        let mut mask = 1u32;
        let ghost mut k: int = 0;
        assert((1u32 << 0u32) == 1u32) by (bit_vector);
        let mut row: usize = 0;
        while row < ROW_N
            invariant
                row <= ROW_N,
                k == COL_N * row,
                mask == (if k < 32 {
                    1u32 << (k as u32)
                } else {
                    0u32
                }),
                forall|r: int, c: int|
                    0 <= r < row && 0 <= c < COL_N && COL_N * r + c < 32 ==> key_bit(
                        self.buffer,
                        COL_N * r + c,
                    ) == low@[r]@[c],
                forall|j: int|
                    0 <= j < 32 && j >= k ==> key_bit(self.buffer, j) == key_bit(
                        old(self).buffer,
                        j,
                    ),
                self.mapping == old(self).mapping,
            decreases ROW_N - row,
        {
            let mut col: usize = 0;
            while col < COL_N
                invariant
                    row < ROW_N,
                    col <= COL_N,
                    k == COL_N * row + col,
                    mask == (if k < 32 {
                        1u32 << (k as u32)
                    } else {
                        0u32
                    }),
                    forall|r: int, c: int|
                        0 <= r < ROW_N && 0 <= c < COL_N && (r < row || (r == row && c < col))
                            && COL_N * r + c < 32 ==> key_bit(self.buffer, COL_N * r + c)
                            == low@[r]@[c],
                    forall|j: int|
                        0 <= j < 32 && j >= k ==> key_bit(self.buffer, j) == key_bit(
                            old(self).buffer,
                            j,
                        ),
                    self.mapping == old(self).mapping,
                decreases COL_N - col,
            {
                let before = self.buffer;
                let m = mask;
                if low[row][col] {
                    self.buffer |= mask;
                } else {
                    self.buffer &= !mask;
                }
                let after = self.buffer;
                proof {
                    assert forall|j: int| 0 <= j < 32 implies key_bit(after, j) == (if j == k {
                        low@[row as int]@[col as int]
                    } else {
                        key_bit(before, j)
                    }) by {
                        let ju = j as u32;
                        if k < 32 {
                            let ku = k as u32;
                            assert(m == 1u32 << ku);
                            assert(((before | (1u32 << ku)) >> ju) & 1u32 == 1u32 <==> (ju == ku
                                || (before >> ju) & 1u32 == 1u32)) by (bit_vector)
                                requires
                                    ku < 32,
                                    ju < 32,
                            ;
                            assert(((before & !(1u32 << ku)) >> ju) & 1u32 == 1u32 <==> (ju != ku
                                && (before >> ju) & 1u32 == 1u32)) by (bit_vector)
                                requires
                                    ku < 32,
                                    ju < 32,
                            ;
                        } else {
                            assert(m == 0u32);
                            assert((before | 0u32) == before) by (bit_vector);
                            assert((before & !0u32) == before) by (bit_vector);
                        }
                    }
                    assert forall|r: int, c: int|
                        0 <= r < ROW_N && 0 <= c < COL_N && (r < row || (r == row && c < col))
                            && COL_N * r + c < 32 implies #[trigger] key_bit(after, COL_N * r + c)
                        == low@[r]@[c] by {
                        lemma_index_order(r, c, row as int, col as int, COL_N as int);
                    }
                }
                mask <<= 1;
                proof {
                    if k + 1 < 32 {
                        let ku = k as u32;
                        assert((1u32 << ku) << 1u32 == 1u32 << (ku + 1) as u32) by (bit_vector)
                            requires
                                ku < 31,
                        ;
                    } else if k < 32 {
                        assert((1u32 << 31u32) << 1u32 == 0u32) by (bit_vector);
                    } else {
                        assert(0u32 << 1u32 == 0u32) by (bit_vector);
                    }
                    k = k + 1;
                }
                col += 1;
            }
            proof {
                assert(COL_N * (row + 1) == COL_N * row + COL_N) by (nonlinear_arith);
            }
            row += 1;
        }
    }

    /// Whether no key was down at the last scan.
    pub fn released(&self) -> (r: bool)
        ensures
            r == (ones_count(self.buffer) == 0),
    {
        self.buffer.count_ones() == 0
    }

    /// The outcome of waiting for a single key after a scan: nothing while
    /// the number of keys down is other than one, else the key found.
    pub fn one_key(&self) -> (found: Option<Option<Button<'d>>>)
        ensures
            match found {
                Some(b) => ones_count(self.buffer) == 1 && match b {
                    Some(b) => exists|r: int, c: int|
                        self.first_pressed(r, c) && b == #[trigger] self.button_at(r, c),
                    None => forall|r: int, c: int|
                        0 <= r < ROW_N && 0 <= c < COL_N ==> !#[trigger] self.pressed(r, c),
                },
                None => ones_count(self.buffer) != 1,
            },
            ones_count(self.buffer) == 1 && self.within_grid() ==> (exists|r: int, c: int|
                0 <= r < ROW_N && 0 <= c < COL_N && #[trigger] self.pressed(r, c)) && found == Some(
                Some(self.one_key_result()),
            ),
    {
        if self.buffer.count_ones() == 1 {
            proof {
                law_no_ones_is_zero(self.buffer);
                if self.within_grid() {
                    self.lemma_some_key_pressed();
                    let (r0, c0) = choose|r: int, c: int|
                        0 <= r < ROW_N && 0 <= c < COL_N && self.pressed(r, c);
                    law_single_key_is_reported(*self, r0, c0);
                    assert(self.one_key_result() == self.button_at(r0, c0));
                }
            }
            Some(self.get_one_key())
        } else {
            None
        }
    }
}

/// A scan is read back: after `apply_scan(low)`, a key that has a bit reads
/// as pressed exactly when its column read low, and keys without a bit never
/// read as pressed.
pub proof fn law_scan_reads_back<'d, const ROW_N: usize, const COL_N: usize>(
    after: KeyPad<'d, ROW_N, COL_N>,
    low: [[bool; COL_N]; ROW_N],
    r: int,
    c: int,
)
    requires
        forall|r: int, c: int|
            0 <= r < ROW_N && 0 <= c < COL_N && COL_N * r + c < 32 ==> key_bit(
                after.buffer,
                COL_N * r + c,
            ) == low@[r]@[c],
        0 <= r < ROW_N,
        0 <= c < COL_N,
    ensures
        after.pressed(r, c) == (COL_N * r + c < 32 && low@[r]@[c]),
{
}

proof fn lemma_shifted_bit(x: u32, j: int)
    requires
        1 <= j < 32,
    ensures
        key_bit(x >> 1u32, j - 1) == key_bit(x, j),
{
    let ju = j as u32;
    assert(((x >> 1u32) >> (ju - 1) as u32) & 1u32 == (x >> ju) & 1u32) by (bit_vector)
        requires
            1 <= ju < 32,
    ;
}

/// With exactly one key down, one bit is set: any two set bits are the same.
pub proof fn law_single_bit(x: u32, j: int, k: int)
    requires
        ones_count(x) == 1,
        0 <= j < 32,
        0 <= k < 32,
        key_bit(x, j),
        key_bit(x, k),
    ensures
        j == k,
    decreases x,
{
    assert((x >> 1u32) < x) by (bit_vector)
        requires
            x != 0,
    ;
    assert(((x >> 0u32) & 1u32 == 1u32) == ((x & 1u32) == 1u32)) by (bit_vector);
    if x & 1u32 == 1u32 {
        law_no_ones_is_zero(x >> 1u32);
        if j > 0 {
            lemma_shifted_bit(x, j);
            let s = (j - 1) as u32;
            assert(((0u32 >> s) & 1u32) == 0u32) by (bit_vector);
        }
        if k > 0 {
            lemma_shifted_bit(x, k);
            let s = (k - 1) as u32;
            assert(((0u32 >> s) & 1u32) == 0u32) by (bit_vector);
        }
    } else {
        assert((x & 1u32) == 0u32) by (bit_vector)
            requires
                (x & 1u32) != 1u32,
        ;
        lemma_shifted_bit(x, j);
        lemma_shifted_bit(x, k);
        law_single_bit(x >> 1u32, j - 1, k - 1);
    }
}

/// With exactly one key down, that key is the one reported: it is the first
/// pressed key and no other key of the grid is down.
pub proof fn law_single_key_is_reported<'d, const ROW_N: usize, const COL_N: usize>(
    k: KeyPad<'d, ROW_N, COL_N>,
    r: int,
    c: int,
)
    requires
        ones_count(k.buffer) == 1,
        0 <= r < ROW_N,
        0 <= c < COL_N,
        k.pressed(r, c),
    ensures
        k.first_pressed(r, c),
        forall|r2: int, c2: int|
            0 <= r2 < ROW_N && 0 <= c2 < COL_N && #[trigger] k.pressed(r2, c2) ==> r2 == r && c2
                == c,
{
    assert forall|r2: int, c2: int|
        0 <= r2 < ROW_N && 0 <= c2 < COL_N && #[trigger] k.pressed(r2, c2) implies r2 == r && c2
        == c by {
        law_single_bit(k.buffer, COL_N * r + c, COL_N * r2 + c2);
        if r2 < r || (r2 == r && c2 < c) {
            lemma_index_order(r2, c2, r, c, COL_N as int);
        } else if r < r2 || (r == r2 && c < c2) {
            lemma_index_order(r, c, r2, c2, COL_N as int);
        }
    }
}

/// A buffer counts no keys down exactly when it is zero.
pub proof fn law_no_ones_is_zero(x: u32)
    ensures
        ones_count(x) == 0 <==> x == 0,
    decreases x,
{
    if x != 0 {
        assert((x >> 1u32) < x) by (bit_vector)
            requires
                x != 0,
        ;
        law_no_ones_is_zero(x >> 1u32);
        assert((x & 1u32) == 0u32 ==> (x >> 1u32) != 0u32) by (bit_vector)
            requires
                x != 0,
        ;
    }
}

} // verus!
