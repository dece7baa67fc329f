//! The eight-counter demonstration: each button steps the counter of its
//! digit; a wrap to zero toggles the digit's point and lights its led.
use vstd::prelude::*;
use crate::display::reg::{Char, FullChar, digit_char};

verus! {

/// A led, on or off.
#[derive(Copy, Clone, PartialEq, Eq, Debug)]
pub struct Led {
    pub is_on: bool,
}

/// A glyph with or without its decimal point.
#[derive(Copy, Clone, PartialEq, Eq, Debug)]
pub struct DottedChar {
    pub ch: Char,
    pub dot: bool,
}

impl DottedChar {
    /// The symbol written to the digit register: the glyph, with its point
    /// lit when `dot` is set.
    pub fn full_char(&self) -> (c: FullChar)
        ensures
            c == if self.dot {
                FullChar::Dot(self.ch)
            } else {
                FullChar::No(self.ch)
            },
    {
        if self.dot {
            FullChar::Dot(self.ch)
        } else {
            FullChar::No(self.ch)
        }
    }
}

/// What one digit position shows: the glyph and the led under it.
#[derive(Copy, Clone, PartialEq, Eq, Debug)]
pub struct FullCharLed {
    pub full_char: DottedChar,
    pub led: Led,
}

/// A decimal counter shown on one digit.
#[derive(Copy, Clone, PartialEq, Eq, Debug)]
pub struct Digit {
    pub data: u8,
    pub symbol: FullCharLed,
}

impl Digit {
    /// A counter at zero: glyph 0, no point, led off.
    pub fn new() -> (d: Self)
        ensures
            d.data == 0,
            d.symbol.full_char.ch == Char::D0,
            !d.symbol.full_char.dot,
            !d.symbol.led.is_on,
    {
        Self {
            data: 0,
            symbol: FullCharLed {
                full_char: DottedChar { ch: Char::D0, dot: false },
                led: Led { is_on: false },
            },
        }
    }

    /// Steps the counter modulo ten and returns what its digit now shows.
    /// On the wrap to zero the point toggles and the led comes on.
    pub fn inc(&mut self) -> (shown: FullCharLed)
        requires
            old(self).data < 255,
        ensures
            final(self).data == (old(self).data + 1) % 10,
            final(self).symbol.full_char.ch == digit_char(final(self).data as int),
            final(self).symbol.full_char.dot == if final(self).data == 0 {
                !old(self).symbol.full_char.dot
            } else {
                old(self).symbol.full_char.dot
            },
            final(self).symbol.led.is_on == (old(self).symbol.led.is_on || final(self).data == 0),
            shown == final(self).symbol,
    {
        self.data = (self.data + 1) % 10;
        if self.data == 0 {
            self.symbol.full_char.dot ^= true;
            self.symbol.led.is_on = true;
        }
        self.symbol.full_char.ch = Char::from(self.data);
        self.symbol
    }
}

} // verus!
