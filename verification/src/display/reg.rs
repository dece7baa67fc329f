//! Register values of the TM1638 and the seven-segment character set.
use vstd::prelude::*;

verus! {

/// Display control commands.
#[derive(Copy, Clone, PartialEq, Eq, Structural, Debug)]
pub enum Control {
    TurnOn,
    TurnOff,
}

impl Control {
    pub open spec fn spec_byte(self) -> u8 {
        match self {
            Control::TurnOn => 0b10_00_1_111u8,
            Control::TurnOff => 0b10_00_0_000u8,
        }
    }

    /// The command byte of this control command.
    #[verifier::when_used_as_spec(spec_byte)]
    pub fn byte(self) -> (b: u8)
        ensures
            b == self.spec_byte(),
    {
        match self {
            Control::TurnOn => 0b10_00_1_111u8,
            Control::TurnOff => 0b10_00_0_000u8,
        }
    }
}

/// Data-write addressing modes.
#[derive(Copy, Clone, PartialEq, Eq, Structural, Debug)]
pub enum Mode {
    Fixed,
    Auto,
}

impl Mode {
    pub open spec fn spec_byte(self) -> u8 {
        match self {
            Mode::Fixed => 0b01_00_01_00u8,
            Mode::Auto => 0b01_00_00_00u8,
        }
    }

    /// The command byte that selects this mode.
    #[verifier::when_used_as_spec(spec_byte)]
    pub fn byte(self) -> (b: u8)
        ensures
            b == self.spec_byte(),
    {
        match self {
            Mode::Fixed => 0b01_00_01_00u8,
            Mode::Auto => 0b01_00_00_00u8,
        }
    }
}

/// The first display register address; digit `i` is at `NULL_ADDRESS + 2 * i`
/// and the led under it at `NULL_ADDRESS + 2 * i + 1`.
pub const NULL_ADDRESS: u8 = 0b1100_0000u8;

/// A seven-segment glyph.
#[derive(Copy, Clone, PartialEq, Eq, Structural, Debug)]
pub enum Char {
    D0,
    D1,
    D2,
    D3,
    D4,
    D5,
    D6,
    D7,
    D8,
    D9,
    Blank,
}

/// The glyph of decimal digit `d` (blank outside `0..=9`).
pub open spec fn digit_char(d: int) -> Char {
    if d == 0 {
        Char::D0
    } else if d == 1 {
        Char::D1
    } else if d == 2 {
        Char::D2
    } else if d == 3 {
        Char::D3
    } else if d == 4 {
        Char::D4
    } else if d == 5 {
        Char::D5
    } else if d == 6 {
        Char::D6
    } else if d == 7 {
        Char::D7
    } else if d == 8 {
        Char::D8
    } else if d == 9 {
        Char::D9
    } else {
        Char::Blank
    }
}

/// The glyph of a character: its digit for `'0'..='9'`, blank otherwise.
pub open spec fn char_of(c: char) -> Char {
    if '0' <= c && c <= '9' {
        digit_char(c as int - '0' as int)
    } else {
        Char::Blank
    }
}

impl Char {
    pub open spec fn spec_segments(self) -> u8 {
        match self {
            Char::D0 => 0b011_1111u8,
            Char::D1 => 0b000_0110u8,
            Char::D2 => 0b101_1011u8,
            Char::D3 => 0b100_1111u8,
            Char::D4 => 0b110_0110u8,
            Char::D5 => 0b110_1101u8,
            Char::D6 => 0b111_1101u8,
            Char::D7 => 0b000_0111u8,
            Char::D8 => 0b111_1111u8,
            Char::D9 => 0b110_1111u8,
            Char::Blank => 0b0000_0000u8,
        }
    }

    /// The segment byte of this glyph (bit 0 is segment a, bit 6 segment g).
    #[verifier::when_used_as_spec(spec_segments)]
    pub fn segments(self) -> (b: u8)
        ensures
            b == self.spec_segments(),
    {
        match self {
            Char::D0 => 0b011_1111u8,
            Char::D1 => 0b000_0110u8,
            Char::D2 => 0b101_1011u8,
            Char::D3 => 0b100_1111u8,
            Char::D4 => 0b110_0110u8,
            Char::D5 => 0b110_1101u8,
            Char::D6 => 0b111_1101u8,
            Char::D7 => 0b000_0111u8,
            Char::D8 => 0b111_1111u8,
            Char::D9 => 0b110_1111u8,
            Char::Blank => 0b0000_0000u8,
        }
    }
}

/// What one digit position shows: a glyph with the decimal point lit, a glyph
/// without it, or a raw segment byte.
#[derive(Copy, Clone, PartialEq, Eq, Structural, Debug)]
pub enum FullChar {
    Dot(Char),
    No(Char),
    Custom(u8),
}

impl FullChar {
    pub open spec fn spec_as_byte(&self) -> u8 {
        match *self {
            FullChar::Dot(c) => c.spec_segments() | 0b1000_0000u8,
            FullChar::No(c) => c.spec_segments(),
            FullChar::Custom(c) => c,
        }
    }

    /// The byte written to the digit register.
    #[verifier::when_used_as_spec(spec_as_byte)]
    pub fn as_byte(&self) -> (b: u8)
        ensures
            b == self.spec_as_byte(),
    {
        match self {
            FullChar::Dot(c) => { c.segments() | 0b1000_0000u8 },
            FullChar::No(c) => { c.segments() },
            FullChar::Custom(c) => { *c },
        }
    }
}

impl From<char> for Char {
    fn from(value: char) -> (r: Self) {
        match value {
            '0' => Char::D0,
            '1' => Char::D1,
            '2' => Char::D2,
            '3' => Char::D3,
            '4' => Char::D4,
            '5' => Char::D5,
            '6' => Char::D6,
            '7' => Char::D7,
            '8' => Char::D8,
            '9' => Char::D9,
            _ => Char::Blank,
        }
    }
}

impl vstd::std_specs::convert::FromSpecImpl<char> for Char {
    open spec fn obeys_from_spec() -> bool {
        true
    }

    open spec fn from_spec(v: char) -> Char {
        char_of(v)
    }
}

impl From<u8> for Char {
    fn from(value: u8) -> (r: Self) {
        let c = ((value % 10) + 48) as char;
        proof {
            assert(('0' as int) == 48);
            assert(c as int == (value % 10) + 48);
        }
        Char::from(c)  // 0 => '0'
    }
}

impl vstd::std_specs::convert::FromSpecImpl<u8> for Char {
    open spec fn obeys_from_spec() -> bool {
        true
    }

    open spec fn from_spec(v: u8) -> Char {
        digit_char((v % 10) as int)
    }
}

impl From<Char> for FullChar {
    fn from(value: Char) -> (r: Self) {
        FullChar::No(value)
    }
}

impl vstd::std_specs::convert::FromSpecImpl<Char> for FullChar {
    open spec fn obeys_from_spec() -> bool {
        true
    }

    open spec fn from_spec(v: Char) -> FullChar {
        FullChar::No(v)
    }
}

impl From<char> for FullChar {
    fn from(value: char) -> (r: Self) {
        FullChar::No(Char::from(value))
    }
}

impl vstd::std_specs::convert::FromSpecImpl<char> for FullChar {
    open spec fn obeys_from_spec() -> bool {
        true
    }

    open spec fn from_spec(v: char) -> FullChar {
        FullChar::No(char_of(v))
    }
}

impl From<u8> for FullChar {
    fn from(value: u8) -> (r: Self) {
        FullChar::No(Char::from(value))
    }
}

impl vstd::std_specs::convert::FromSpecImpl<u8> for FullChar {
    open spec fn obeys_from_spec() -> bool {
        true
    }

    open spec fn from_spec(v: u8) -> FullChar {
        FullChar::No(digit_char((v % 10) as int))
    }
}

/// No glyph lights the decimal point, so a dotted symbol is its glyph with
/// the top bit added.
pub proof fn law_dot_is_top_bit(c: Char)
    ensures
        c.spec_segments() < 0x80,
        FullChar::Dot(c).spec_as_byte() == FullChar::No(c).spec_as_byte() + 0x80,
{
    let b = c.spec_segments();
    assert(b < 0x80u8 ==> (b | 0x80u8) == b + 0x80u8) by (bit_vector);
}

/// Distinct glyphs light distinct segments.
pub proof fn law_glyphs_are_distinct(a: Char, b: Char)
    ensures
        a.spec_segments() == b.spec_segments() <==> a == b,
{
}

/// A number is shown by the glyph of its last decimal digit, the same glyph
/// its decimal character gets.
pub proof fn law_number_glyph_is_digit_char(v: u8)
    ensures
        digit_char((v % 10) as int) == char_of((((v % 10) + 48) as char)),
        digit_char((v % 10) as int) != Char::Blank,
{
    let d = (v % 10) as int;
    assert(('0' as int) == 48);
    assert((((v % 10) + 48) as char) as int == d + 48);
}

} // verus!
