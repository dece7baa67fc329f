//! The first, SPI-driven version of the display: its glyph set, the pair of
//! register bytes of a symbol, and the bytes it writes.
use vstd::prelude::*;

verus! {

/// A glyph of the first character set, which has no nine.
#[derive(Copy, Clone, PartialEq, Eq, Structural, Debug)]
pub enum Symbol {
    D0,
    D1,
    D2,
    D3,
    D4,
    D5,
    D6,
    D7,
    D8,
    Blank,
}

impl Symbol {
    pub open spec fn spec_segments(self) -> u8 {
        match self {
            Symbol::D0 => 0b11_1111u8,
            Symbol::D1 => 0b110u8,
            Symbol::D2 => 0b101_1011u8,
            Symbol::D3 => 0b100_1111u8,
            Symbol::D4 => 0b110_0110u8,
            Symbol::D5 => 0b110_1101u8,
            Symbol::D6 => 0b111_1101u8,
            Symbol::D7 => 0b111u8,
            Symbol::D8 => 0b111_1111u8,
            Symbol::Blank => 0b0000_0000u8,
        }
    }

    /// The segment byte of this glyph.
    #[verifier::when_used_as_spec(spec_segments)]
    pub fn segments(self) -> (b: u8)
        ensures
            b == self.spec_segments(),
    {
        match self {
            Symbol::D0 => 0b11_1111u8,
            Symbol::D1 => 0b110u8,
            Symbol::D2 => 0b101_1011u8,
            Symbol::D3 => 0b100_1111u8,
            Symbol::D4 => 0b110_0110u8,
            Symbol::D5 => 0b110_1101u8,
            Symbol::D6 => 0b111_1101u8,
            Symbol::D7 => 0b111u8,
            Symbol::D8 => 0b111_1111u8,
            Symbol::Blank => 0b0000_0000u8,
        }
    }
}

/// The glyph of a character: digits `'0'..='8'` have one, anything else
/// (`'9'` included) is blank.
pub open spec fn symbol_of(c: char) -> Symbol {
    if c == '0' {
        Symbol::D0
    } else if c == '1' {
        Symbol::D1
    } else if c == '2' {
        Symbol::D2
    } else if c == '3' {
        Symbol::D3
    } else if c == '4' {
        Symbol::D4
    } else if c == '5' {
        Symbol::D5
    } else if c == '6' {
        Symbol::D6
    } else if c == '7' {
        Symbol::D7
    } else if c == '8' {
        Symbol::D8
    } else {
        Symbol::Blank
    }
}

impl From<char> for Symbol {
    fn from(value: char) -> (r: Self) {
        match value {
            '0' => Symbol::D0,
            '1' => Symbol::D1,
            '2' => Symbol::D2,
            '3' => Symbol::D3,
            '4' => Symbol::D4,
            '5' => Symbol::D5,
            '6' => Symbol::D6,
            '7' => Symbol::D7,
            '8' => Symbol::D8,
            _ => Symbol::Blank,
        }
    }
}

impl vstd::std_specs::convert::FromSpecImpl<char> for Symbol {
    open spec fn obeys_from_spec() -> bool {
        true
    }

    open spec fn from_spec(v: char) -> Symbol {
        symbol_of(v)
    }
}

impl From<u8> for Symbol {
    fn from(value: u8) -> (r: Self) {
        let c = ((value % 10) + 48) as char;
        Symbol::from(c)  // 0 => '0'
    }
}

impl vstd::std_specs::convert::FromSpecImpl<u8> for Symbol {
    open spec fn obeys_from_spec() -> bool {
        true
    }

    open spec fn from_spec(v: u8) -> Symbol {
        symbol_of((((v % 10) + 48) as char))
    }
}

/// A number's glyph is that of its last decimal digit; a last digit of 9
/// has none.
pub proof fn law_nine_is_blank(v: u8)
    ensures
        symbol_of((((v % 10) + 48) as char)) == Symbol::Blank <==> v % 10 == 9,
{
    assert((((v % 10) + 48) as char) as int == v % 10 + 48);
    assert('0' as int == 48 && '8' as int == 56);
}

/// A digit position of the first version: glyph, decimal point and the led
/// under it.
#[derive(Copy, Clone, PartialEq, Eq, Debug)]
pub struct FullSymbol {
    pub symbol: Symbol,
    pub dot: bool,
    pub extra_led: bool,
}

impl FullSymbol {
    /// The digit register byte and the led register byte.
    pub fn to_spi(&self) -> (r: (u8, u8))
        ensures
            r.0 == if self.dot {
                self.symbol.spec_segments() | 0b1000_0000u8
            } else {
                self.symbol.spec_segments()
            },
            r.1 == if self.extra_led {
                1u8
            } else {
                0u8
            },
    {
        return (
            if self.dot {
                self.symbol.segments() | 0b1000_0000
            } else {
                self.symbol.segments()
            },
            if self.extra_led {
                1
            } else {
                0
            },
        )
    }
}

/// The SPI-driven display, held as the writes it has put on the bus.
pub struct TMI1638 {
    writes: Vec<Vec<u8>>,
}

impl View for TMI1638 {
    /// Every write made and not yet taken, oldest first.
    type V = Seq<Seq<u8>>;

    closed spec fn view(&self) -> Seq<Seq<u8>> {
        self.writes@.map_values(|w: Vec<u8>| w@)
    }
}

impl TMI1638 {
    /// A display on which nothing has been written.
    pub fn new() -> (d: Self)
        ensures
            d@ == Seq::<Seq<u8>>::empty(),
    {
        let d = TMI1638 { writes: Vec::new() };
        assert(d@ =~= Seq::<Seq<u8>>::empty());
        d
    }

    /// Writes `data` to the display, strobed as one transfer.
    pub fn send(&mut self, data: &[u8])
        ensures
            final(self)@ == old(self)@.push(data@),
    {
        self.writes.push(vstd::slice::slice_to_vec(data));
        assert(self@ =~= old(self)@.push(data@));
    }

    /// Hands over the writes made, oldest first, and forgets them.
    pub fn take_writes(&mut self) -> (w: Vec<Vec<u8>>)
        ensures
            w@.map_values(|v: Vec<u8>| v@) == old(self)@,
            final(self)@ == Seq::<Seq<u8>>::empty(),
    {
        let mut w: Vec<Vec<u8>> = Vec::new();
        std::mem::swap(&mut w, &mut self.writes);
        assert(self@ =~= Seq::<Seq<u8>>::empty());
        w
    }

    /// Asks to turn the display on at `brightness`: the control byte
    /// `0b1000_1000 + (brightness & 0b111)` is prepared, but the transfer
    /// that would carry it is never carried out, so nothing is written.
    pub fn turn_on(&mut self, brightness: u8)
        ensures
            final(self)@ == old(self)@,
    {
        assert((brightness & 0b111u8) <= 7u8) by (bit_vector);
        let _write = 0b10_00_1_000u8 + (brightness & 0b111u8);
    }

    /// Asks to turn the display off: the control byte `0b1000_0000` is
    /// prepared, but its transfer is never carried out, so nothing is written.
    pub fn turn_off(&mut self)
        ensures
            final(self)@ == old(self)@,
    {
        let _write = 0b10_00_0_000u8;
    }
}

/// The three writes of the single-number demonstration: auto-increment
/// mode, the registers from address 0 (a 2 on digit 0 with its led on, an 8
/// on digit 1, the rest blank), then display on at brightness 4.
pub fn demo_writes() -> (w: (Vec<u8>, Vec<u8>, Vec<u8>))
    ensures
        w.0@ == seq![0b0100_0000u8],
        w.1@.len() == 17,
        w.1@[0] == 0b1100_0000u8,
        w.1@[1] == Symbol::D2.spec_segments(),
        w.1@[2] == 1,
        w.1@[3] == Symbol::D8.spec_segments(),
        forall|k: int| 4 <= k < 17 ==> w.1@[k] == Symbol::Blank.spec_segments(),
        w.2@ == seq![0b10_00_1_100u8],
{
    let mode = vec![0b01000000u8];
    let l: u8 = Symbol::Blank.segments();
    let mut data: Vec<u8> = Vec::new();
    let mut k: usize = 0;
    while k < 17
        invariant
            k <= 17,
            data@.len() == k,
            forall|i: int| 0 <= i < k ==> data@[i] == l,
        decreases 17 - k,
    {
        data.push(l);
        k += 1;
    }
    data.set(0, 0b11000000u8);
    data.set(1, Symbol::from(2u8).segments());
    data.set(2, 1);
    data.set(3, Symbol::D8.segments());
    let control = vec![0b10_00_1_100u8];
    assert(mode@ =~= seq![0b0100_0000u8]);
    assert(control@ =~= seq![0b10_00_1_100u8]);
    (mode, data, control)
}

} // verus!
