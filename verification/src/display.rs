//! The TM1638 display model: eight seven-segment digits, eight leds and eight
//! buttons behind one serial interface.
//!
//! `TMI1638` holds what the chip holds (digit and led registers, the last key
//! scan, the addressing mode) and queues every transmission it makes as a
//! [`Frame`]; [`crate::wire::send`] turns a frame into pin changes.
pub mod reg;

pub use reg::{Char, FullChar};
use reg::{Control, Mode, NULL_ADDRESS, digit_char, char_of};
use crate::wire::{bit, bits_of};
use vstd::prelude::*;
use vstd::string::StringSliceAdditionalSpecFns;

verus! {

/// One transmission: a command byte followed by data bytes.
#[derive(Clone, Debug, PartialEq, Eq)]
pub struct Frame {
    pub command: u8,
    pub data: Vec<u8>,
}

impl View for Frame {
    type V = (u8, Seq<u8>);

    open spec fn view(&self) -> (u8, Seq<u8>) {
        (self.command, self.data@)
    }
}

/// The abstract state of the display.
#[verifier::ext_equal]
pub struct DisplayState {
    pub leds: u8,
    pub buttons: u8,
    pub digits: Seq<u8>,
    pub mode: Mode,
    /// Every frame queued and not yet taken, oldest first.
    pub sent: Seq<(u8, Seq<u8>)>,
}

/// `s` after queueing the frame `(command, data)`.
pub open spec fn sent_frame(s: DisplayState, command: u8, data: Seq<u8>) -> DisplayState {
    DisplayState { sent: s.sent.push((command, data)), ..s }
}

/// `s` after switching to mode `m`: a mode command is sent only on a change.
pub open spec fn with_mode(s: DisplayState, m: Mode) -> DisplayState {
    if s.mode == m {
        s
    } else {
        DisplayState { mode: m, ..sent_frame(s, m.spec_byte(), seq![]) }
    }
}

/// The sixteen display registers: each digit followed by the state of its led.
pub open spec fn register_image(digits: Seq<u8>, leds: u8) -> Seq<u8> {
    Seq::new(
        16,
        |k: int|
            if k % 2 == 0 {
                digits[k / 2]
            } else if bit(leds, k / 2) {
                1u8
            } else {
                0u8
            },
    )
}

/// `s` after rewriting all registers in auto-increment mode.
pub open spec fn updated(s: DisplayState) -> DisplayState {
    let s1 = with_mode(s, Mode::Auto);
    sent_frame(s1, NULL_ADDRESS, register_image(s1.digits, s1.leds))
}

/// `s` after writing `byte` to digit `pos % 8` in fixed-address mode.
pub open spec fn printed_at(s: DisplayState, byte: u8, pos: usize) -> DisplayState {
    let p = pos % 8;
    let s1 = with_mode(s, Mode::Fixed);
    sent_frame(
        DisplayState { digits: s1.digits.update(p as int, byte), ..s1 },
        (NULL_ADDRESS + 2 * p) as u8,
        seq![byte],
    )
}

/// `x` with bit `p` set to `on`.
pub open spec fn with_bit(x: u8, p: u8, on: bool) -> u8 {
    if on {
        x | (1u8 << p)
    } else {
        x & !(1u8 << p)
    }
}

/// `s` after switching led `p` to `on` in fixed-address mode.
pub open spec fn led_set(s: DisplayState, on: bool, p: u8) -> DisplayState {
    let s1 = with_mode(s, Mode::Fixed);
    sent_frame(
        DisplayState { leds: with_bit(s1.leds, p, on), ..s1 },
        (NULL_ADDRESS + 2 * p + 1) as u8,
        seq![if on { 1u8 } else { 0u8 }],
    )
}

/// The number of decimal digits of `n`.
pub open spec fn decimal_len(n: u8) -> int {
    if n < 10 {
        1
    } else if n < 100 {
        2
    } else {
        3
    }
}

/// `10` to the power `i`, for `i < 3`.
pub open spec fn pow10(i: int) -> int {
    if i <= 0 {
        1
    } else if i == 1 {
        10
    } else {
        100
    }
}

/// The digit registers that show `n` right-aligned, blank on the left.
pub open spec fn number_image(n: u8) -> Seq<u8> {
    Seq::new(
        8,
        |k: int|
            if 7 - k < decimal_len(n) {
                digit_char((n as int / pow10(7 - k)) % 10).spec_segments()
            } else {
                0u8
            },
    )
}

/// The end of the digit window written from `pos` with `len` symbols.
pub open spec fn window_end(len: int, pos: int) -> int {
    if len < 8 - pos {
        len
    } else {
        8 - pos
    }
}

/// `digits` with `digits[pos + i] = bytes[i]` for `from <= i < window_end(bytes.len(), pos)`.
pub open spec fn overwritten(digits: Seq<u8>, bytes: Seq<u8>, from: int, pos: int) -> Seq<u8> {
    Seq::new(
        8,
        |k: int|
            if pos + from <= k < pos + window_end(bytes.len() as int, pos) {
                bytes[k - pos]
            } else {
                digits[k]
            },
    )
}

/// `s` after showing `bytes` from position `pos`, skipping the first `from`
/// of them, and rewriting all registers.
pub open spec fn shown(s: DisplayState, bytes: Seq<u8>, from: int, pos: int) -> DisplayState {
    updated(DisplayState { digits: overwritten(s.digits, bytes, from, pos), ..s })
}

/// The register byte of each symbol of a slice.
pub open spec fn full_char_bytes(symbols: Seq<FullChar>) -> Seq<u8> {
    symbols.map_values(|c: FullChar| c.spec_as_byte())
}

/// The register byte of each number of a slice: the glyph of its last decimal digit.
pub open spec fn number_bytes(symbols: Seq<u8>) -> Seq<u8> {
    symbols.map_values(|v: u8| digit_char((v % 10) as int).spec_segments())
}

/// The register byte of each glyph of a slice.
pub open spec fn char_bytes(symbols: Seq<Char>) -> Seq<u8> {
    symbols.map_values(|c: Char| c.spec_segments())
}

/// The register byte of each character of a slice: its glyph, without point.
pub open spec fn chars_bytes(symbols: Seq<char>) -> Seq<u8> {
    symbols.map_values(|c: char| char_of(c).spec_segments())
}

/// The register byte of each byte of a text, read as a character.
pub open spec fn text_bytes(text: Seq<u8>) -> Seq<u8> {
    text.map_values(|b: u8| char_of(b as char).spec_segments())
}

/// Which buttons a key scan reports: buttons 0..4 are bit 0 of the four scan
/// bytes, buttons 4..8 are bit 4 of them.
pub open spec fn scanned_buttons(raw: Seq<u8>) -> Seq<bool> {
    Seq::new(8, |k: int| if k < 4 { bit(raw[k], 0) } else { bit(raw[k - 4], 4) })
}

/// The display with its registers, key state and queue of outgoing frames.
pub struct TMI1638 {
    leds: u8,
    buttons: u8,
    digits: [u8; 8],
    mode: Mode,
    sent: Vec<Frame>,
}

impl View for TMI1638 {
    type V = DisplayState;

    closed spec fn view(&self) -> DisplayState {
        DisplayState {
            leds: self.leds,
            buttons: self.buttons,
            digits: self.digits@,
            mode: self.mode,
            sent: self.sent@.map_values(|f: Frame| f@),
        }
    }
}

impl TMI1638 {
    /// The state of a display right after power-up, before any transmission.
    pub open spec fn power_up() -> DisplayState {
        DisplayState {
            leds: 0,
            buttons: 0,
            digits: Seq::new(8, |k: int| 0u8),
            mode: Mode::Auto,
            sent: seq![],
        }
    }

    /// The state `new` leaves: auto mode selected, all registers cleared,
    /// display on at full brightness.
    pub open spec fn initial() -> DisplayState {
        sent_frame(
            updated(sent_frame(Self::power_up(), Mode::Auto.spec_byte(), seq![])),
            Control::TurnOn.spec_byte() | 7u8,
            seq![],
        )
    }

    /// A display always has eight digit registers.
    pub proof fn law_eight_digits(&self)
        ensures
            self@.digits.len() == 8,
    {
    }

    /// A display in its initial state, with the start-up frames queued.
    pub fn new() -> (d: Self)
        ensures
            d@ == Self::initial(),
    {
        let mut display = Self {
            leds: 0x00,
            buttons: 0,
            digits: [0u8; 8],
            mode: Mode::Auto,
            sent: Vec::new(),
        };
        assert(display.digits@ =~= Seq::new(8, |k: int| 0u8));
        assert(display@.sent =~= Seq::<(u8, Seq<u8>)>::empty());
        assert(display@ =~= Self::power_up());
        display.send_command(Mode::Auto.byte());
        display.update();
        display.turn_on(7);
        assert((0b10_00_1_111u8 | (7u8 & 0b111u8)) == (0b10_00_1_111u8 | 7u8)) by (bit_vector);
        display
    }

    /// Hands over the queued frames, oldest first, and empties the queue.
    pub fn take_frames(&mut self) -> (frames: Vec<Frame>)
        ensures
            frames@.map_values(|f: Frame| f@) == old(self)@.sent,
            final(self)@ == (DisplayState { sent: seq![], ..old(self)@ }),
    {
        let mut frames: Vec<Frame> = Vec::new();
        std::mem::swap(&mut frames, &mut self.sent);
        assert(self@.sent =~= Seq::<(u8, Seq<u8>)>::empty());
        frames
    }

    fn send(&mut self, command: u8, data: Vec<u8>)
        ensures
            final(self)@ == sent_frame(old(self)@, command, data@),
    {
        self.sent.push(Frame { command, data });
        assert(self@.sent =~= old(self)@.sent.push((command, data@)));
        assert(self@ =~= sent_frame(old(self)@, command, data@));
    }

    fn send_command(&mut self, command: u8)
        ensures
            final(self)@ == sent_frame(old(self)@, command, seq![]),
    {
        self.sent.push(Frame { command, data: Vec::new() });
        assert(self@.sent =~= old(self)@.sent.push((command, seq![])));
        assert(self@ =~= sent_frame(old(self)@, command, seq![]));
    }

    fn set_mode(&mut self, mode: Mode)
        ensures
            final(self)@ == with_mode(old(self)@, mode),
    {
        if self.mode == mode {
        } else {
            self.send_command(mode.byte());
            self.mode = mode;
            assert(self@ =~= with_mode(old(self)@, mode));
        }
    }

    fn update(&mut self)
        ensures
            final(self)@ == updated(old(self)@),
    {
        self.set_mode(Mode::Auto);
        let mut buffer = [0u8; 16];
        let mut i: usize = 0;
        while i < 8
            invariant
                i <= 8,
                forall|k: int|
                    0 <= k < 2 * i ==> buffer@[k] == register_image(self.digits@, self.leds)[k],
            decreases 8 - i,
        {
            let leds = self.leds;
            let led = (leds >> (i as u8)) & 1;
            assert(led == 0 || led == 1) by (bit_vector)
                requires
                    led == (leds >> (i as u8)) & 1u8,
            ;
            assert((i << 1) == 2 * i) by (bit_vector)
                requires
                    i < 8,
            ;
            buffer[i << 1] = self.digits[i];
            buffer[(i << 1) + 1] = led;
            i += 1;
        }
        assert(buffer@ =~= register_image(self.digits@, self.leds));
        self.send(NULL_ADDRESS, vstd::slice::slice_to_vec(&buffer));
    }

    /// The command that starts a key scan: the current mode with the read bit.
    pub fn read_command(&self) -> (c: u8)
        ensures
            c == self@.mode.spec_byte() | 0b10u8,
    {
        self.mode.byte() | 0b10
    }

    /// Records a key scan: the four bytes read after `read_command`.
    pub fn update_buttons(&mut self, raw: [u8; 4])
        ensures
            bits_of(final(self)@.buttons) == scanned_buttons(raw@),
            final(self)@ == (DisplayState { buttons: final(self)@.buttons, ..old(self)@ }),
    {
        self.buttons = 0;
        assert forall|k: u8| k < 8 implies !bit(0u8, k as int) by {
            assert((0u8 >> k) & 1u8 == 0u8) by (bit_vector);
        }
        let mut i: u8 = 0;
        while i < 4
            invariant
                i <= 4,
                forall|k: u8|
                    k < 8 ==> bit(self.buttons, k as int) == (if k < i {
                        bit(raw@[k as int], 0)
                    } else if 4 <= k < 4 + i {
                        bit(raw@[k - 4], 4)
                    } else {
                        false
                    }),
                self.leds == old(self).leds,
                self.digits == old(self).digits,
                self.mode == old(self).mode,
                self.sent == old(self).sent,
            decreases 4 - i,
        {
            let r = raw[i as usize];
            let b0 = self.buttons;
            self.buttons |= (r & 1) << i;
            let b1 = self.buttons;
            self.buttons |= ((r >> 4) & 1) << (i + 4);
            let b2 = self.buttons;
            assert forall|k: u8| k < 8 implies bit(b2, k as int) == (bit(b0, k as int) || (k == i
                && bit(r, 0)) || (k == i + 4 && bit(r, 4))) by {
                assert(((b0 | ((r & 1u8) << i)) >> k) & 1u8 == 1u8 <==> (((b0 >> k) & 1u8
                    == 1u8) || (k == i && (r >> 0u8) & 1u8 == 1u8))) by (bit_vector)
                    requires
                        i < 4,
                        k < 8,
                ;
                assert(((b1 | (((r >> 4u8) & 1u8) << (i + 4))) >> k) & 1u8 == 1u8 <==> (((b1
                    >> k) & 1u8 == 1u8) || (k == i + 4 && (r >> 4u8) & 1u8 == 1u8)))
                    by (bit_vector)
                    requires
                        i < 4,
                        k < 8,
                ;
            }
            i += 1;
        }
        assert forall|k: int| 0 <= k < 8 implies bits_of(self.buttons)[k] == scanned_buttons(
            raw@,
        )[k] by {
            assert(bit(self.buttons, (k as u8) as int) == (if (k as u8) < 4 {
                bit(raw@[k], 0)
            } else {
                bit(raw@[k - 4], 4)
            }));
        }
        assert(bits_of(self.buttons) =~= scanned_buttons(raw@));
        assert(self@ =~= DisplayState { buttons: self@.buttons, ..old(self)@ });
    }

    /// Whether button `pos % 8` was down at the last key scan.
    pub fn is_button_pressed(&self, pos: u8) -> (r: bool)
        ensures
            r == bit(self@.buttons, (pos % 8) as int),
    {
        assert((pos & 0b111u8) == pos % 8) by (bit_vector);
        (self.buttons >> (pos & 0b111)) & 1 == 1
    }

    /// Whether any button was down at the last key scan.
    pub fn is_any_button_pressed(&self) -> (r: bool)
        ensures
            r == (self@.buttons != 0),
    {
        self.buttons != 0
    }

    /// Shows `symbol` at digit `pos % 8`.
    pub fn print_at(&mut self, symbol: FullChar, pos: usize)
        ensures
            final(self)@ == printed_at(old(self)@, symbol.spec_as_byte(), pos),
    {
        assert((pos & 0b111usize) == pos % 8) by (bit_vector);
        let pos = pos & 0b111;
        self.set_mode(Mode::Fixed);
        let char = symbol.as_byte();
        self.digits[pos] = char;
        assert((pos << 1) == 2 * pos) by (bit_vector)
            requires
                pos < 8,
        ;
        let address = NULL_ADDRESS + (pos << 1) as u8;
        let data = vec![char];
        assert(data@ =~= seq![char]);
        self.send(address, data);
        assert(self@ =~= printed_at(old(self)@, symbol.spec_as_byte(), pos));
    }

    /// Switches led `pos` on or off.  The position is taken modulo 256 and
    /// must then name one of the eight leds.
    pub fn set_led(&mut self, is_on: bool, pos: usize)
        requires
            pos % 256 < 8,
        ensures
            final(self)@ == led_set(old(self)@, is_on, (pos % 256) as u8),
    {
        let p = (pos % 256) as u8;
        let mask = 1u8 << p;
        self.set_mode(Mode::Fixed);
        if is_on {
            self.leds |= mask;
        } else {
            self.leds &= !mask;
        }
        assert((p << 1u8) == 2 * p) by (bit_vector)
            requires
                p < 8,
        ;
        let state: u8 = if is_on { 1 } else { 0 };
        let data = vec![state];
        assert(data@ =~= seq![state]);
        self.send(NULL_ADDRESS + (p << 1u8) + 1, data);
        assert(self@ =~= led_set(old(self)@, is_on, p));
    }

    /// Shows `number` right-aligned in decimal, the other digits blank.
    pub fn print_number(&mut self, number: u8)
        ensures
            final(self)@ == updated((DisplayState { digits: number_image(number), ..old(self)@ })),
    {
        let ghost n = number;
        let mut number = number;
        self.digits = [0u8; 8];
        let mut i: usize = 0;
        loop
            invariant_except_break
                i < 8,
                i < decimal_len(n),
                number == n as int / pow10(i as int),
            invariant
                forall|k: int|
                    0 <= k < 8 ==> self.digits@[k] == (if 7 - k < i {
                        number_image(n)[k]
                    } else {
                        0u8
                    }),
                self.leds == old(self).leds,
                self.buttons == old(self).buttons,
                self.mode == old(self).mode,
                self.sent == old(self).sent,
            ensures
                i == decimal_len(n),
            decreases 8 - i,
        {
            let c = FullChar::from(number % 10).as_byte();
            self.digits[7 - i] = c;
            number /= 10;
            i += 1;
            if number == 0 {
                break;
            }
        }
        assert(self.digits@ =~= number_image(n));
        assert(self@ =~= DisplayState { digits: number_image(n), ..old(self)@ });
        self.update();
    }

    /// Turns the display on.  The brightness bits are or-ed into a command
    /// whose brightness field is already all ones.
    pub fn turn_on(&mut self, brightness: u8)
        ensures
            final(self)@ == sent_frame(
                old(self)@,
                Control::TurnOn.spec_byte() | (brightness & 0b111u8),
                seq![],
            ),
    {
        self.send_command(Control::TurnOn.byte() | (brightness & 0b111));
    }

    /// Turns the display off.
    pub fn turn_off(&mut self)
        ensures
            final(self)@ == sent_frame(old(self)@, Control::TurnOff.spec_byte(), seq![]),
    {
        self.send_command(Control::TurnOff.byte());
    }

    /// Writes `bytes[i]` to digit `pos + i` for `from <= i` within the window
    /// of digits from `pos`, then rewrites all registers.
    fn show(&mut self, bytes: &[u8], from: usize, pos: usize)
        requires
            pos <= 8,
        ensures
            final(self)@ == shown(old(self)@, bytes@, from as int, pos as int),
    {
        let end = if bytes.len() < 8 - pos {
            bytes.len()
        } else {
            8 - pos
        };
        let mut i = from;
        while i < end
            invariant
                (from <= i <= end) || (i == from && end < from),
                end == window_end(bytes@.len() as int, pos as int),
                pos <= 8,
                end <= bytes@.len(),
                pos + end <= 8,
                forall|k: int|
                    0 <= k < 8 ==> self.digits@[k] == (if pos + from <= k < pos + i {
                        bytes@[k - pos]
                    } else {
                        old(self).digits@[k]
                    }),
                self.leds == old(self).leds,
                self.buttons == old(self).buttons,
                self.mode == old(self).mode,
                self.sent == old(self).sent,
            decreases end - i,
        {
            self.digits[pos + i] = bytes[i];
            i += 1;
        }
        assert forall|k: int| 0 <= k < 8 implies self.digits@[k] == overwritten(
            old(self).digits@,
            bytes@,
            from as int,
            pos as int,
        )[k] by {
            if end < from {
                assert(!(pos + from <= k < pos + end));
            }
        }
        assert(self.digits@ =~= overwritten(old(self).digits@, bytes@, from as int, pos as int));
        assert(self@ =~= DisplayState {
            digits: overwritten(old(self)@.digits, bytes@, from as int, pos as int),
            ..old(self)@
        });
        self.update();
    }
}

/// Writing a row of symbols from a digit position.
pub trait Println<T> {
    /// Whether `after` is `before` with `symbols` shown from digit `pos`.
    spec fn writes(before: &Self, symbols: T, pos: usize, after: &Self) -> bool;

    /// Shows `symbols` from digit `pos` on; `pos` names a digit.
    fn println(&mut self, symbols: T, pos: usize)
        requires
            pos <= 7,
        ensures
            Self::writes(old(self), symbols, pos, final(self)),
    {
        self._println(symbols, pos)
    }

    /// Shows `symbols` from digit `pos` on, without checking `pos`.
    fn _println(&mut self, symbols: T, pos: usize)
        requires
            pos <= 8,
        ensures
            Self::writes(old(self), symbols, pos, final(self)),
    ;
}

impl<'a> Println<&'a str> for TMI1638 {
    /// Character `i` goes to digit `pos + i` for `pos <= i`, as far as the text
    /// and the eight digits reach.
    open spec fn writes(before: &TMI1638, symbols: &'a str, pos: usize, after: &TMI1638) -> bool {
        after@ == shown(before@, text_bytes(symbols.spec_bytes()), pos as int, pos as int)
    }

    fn println(&mut self, symbols: &'a str, pos: usize)
        ensures
            final(self)@ == shown(old(self)@, text_bytes(symbols.spec_bytes()), pos as int, pos as int),
    {
        self._println(symbols, pos)
    }

    fn _println(&mut self, symbols: &'a str, pos: usize)
        ensures
            final(self)@ == shown(
                old(self)@,
                text_bytes(symbols.spec_bytes()),
                pos as int,
                pos as int,
            ),
    {
        let t = symbols.as_bytes();
        let mut glyphs: Vec<u8> = Vec::new();
        let mut i: usize = 0;
        while i < t.len()
            invariant
                i <= t@.len(),
                glyphs@ == text_bytes(t@).take(i as int),
            decreases t.len() - i,
        {
            glyphs.push(FullChar::from(t[i] as char).as_byte());
            assert(glyphs@ =~= text_bytes(t@).take(i + 1));
            i += 1;
        }
        assert(glyphs@ =~= text_bytes(t@));
        self.show(glyphs.as_slice(), pos, pos);
    }
}

impl<'a> Println<&'a [u8]> for TMI1638 {
    /// The last decimal digit of number `i` goes to digit `pos + i`.
    open spec fn writes(before: &TMI1638, symbols: &'a [u8], pos: usize, after: &TMI1638) -> bool {
        after@ == shown(before@, number_bytes(symbols@), 0, pos as int)
    }

    fn println(&mut self, symbols: &'a [u8], pos: usize)
        ensures
            final(self)@ == shown(old(self)@, number_bytes(symbols@), 0, pos as int),
    {
        self._println(symbols, pos)
    }

    fn _println(&mut self, symbols: &'a [u8], pos: usize)
        ensures
            final(self)@ == shown(old(self)@, number_bytes(symbols@), 0, pos as int),
    {
        let mut glyphs: Vec<u8> = Vec::new();
        let mut i: usize = 0;
        while i < symbols.len()
            invariant
                i <= symbols@.len(),
                glyphs@ == number_bytes(symbols@).take(i as int),
            decreases symbols.len() - i,
        {
            glyphs.push(FullChar::from(symbols[i]).as_byte());
            assert(glyphs@ =~= number_bytes(symbols@).take(i + 1));
            i += 1;
        }
        assert(glyphs@ =~= number_bytes(symbols@));
        self.show(glyphs.as_slice(), 0, pos);
    }
}

impl<'a> Println<&'a [FullChar]> for TMI1638 {
    /// Symbol `i` goes to digit `pos + i`.
    open spec fn writes(before: &TMI1638, symbols: &'a [FullChar], pos: usize, after: &TMI1638) -> bool {
        after@ == shown(before@, full_char_bytes(symbols@), 0, pos as int)
    }

    fn println(&mut self, symbols: &'a [FullChar], pos: usize)
        ensures
            final(self)@ == shown(old(self)@, full_char_bytes(symbols@), 0, pos as int),
    {
        self._println(symbols, pos)
    }

    fn _println(&mut self, symbols: &'a [FullChar], pos: usize)
        ensures
            final(self)@ == shown(old(self)@, full_char_bytes(symbols@), 0, pos as int),
    {
        let mut glyphs: Vec<u8> = Vec::new();
        let mut i: usize = 0;
        while i < symbols.len()
            invariant
                i <= symbols@.len(),
                glyphs@ == full_char_bytes(symbols@).take(i as int),
            decreases symbols.len() - i,
        {
            glyphs.push(symbols[i].as_byte());
            assert(glyphs@ =~= full_char_bytes(symbols@).take(i + 1));
            i += 1;
        }
        assert(glyphs@ =~= full_char_bytes(symbols@));
        self.show(glyphs.as_slice(), 0, pos);
    }
}

impl<'a> Println<&'a [Char]> for TMI1638 {
    /// Glyph `i` goes to digit `pos + i`, without point.
    open spec fn writes(before: &TMI1638, symbols: &'a [Char], pos: usize, after: &TMI1638) -> bool {
        after@ == shown(before@, char_bytes(symbols@), 0, pos as int)
    }

    fn println(&mut self, symbols: &'a [Char], pos: usize)
        ensures
            final(self)@ == shown(old(self)@, char_bytes(symbols@), 0, pos as int),
    {
        self._println(symbols, pos)
    }

    fn _println(&mut self, symbols: &'a [Char], pos: usize)
        ensures
            final(self)@ == shown(old(self)@, char_bytes(symbols@), 0, pos as int),
    {
        let mut glyphs: Vec<u8> = Vec::new();
        let mut i: usize = 0;
        while i < symbols.len()
            invariant
                i <= symbols@.len(),
                glyphs@ == char_bytes(symbols@).take(i as int),
            decreases symbols.len() - i,
        {
            glyphs.push(FullChar::from(symbols[i]).as_byte());
            assert(glyphs@ =~= char_bytes(symbols@).take(i + 1));
            i += 1;
        }
        assert(glyphs@ =~= char_bytes(symbols@));
        self.show(glyphs.as_slice(), 0, pos);
    }
}

impl<'a> Println<&'a [char]> for TMI1638 {
    /// The glyph of character `i` goes to digit `pos + i`, without point.
    open spec fn writes(before: &TMI1638, symbols: &'a [char], pos: usize, after: &TMI1638) -> bool {
        after@ == shown(before@, chars_bytes(symbols@), 0, pos as int)
    }

    fn println(&mut self, symbols: &'a [char], pos: usize)
        ensures
            final(self)@ == shown(old(self)@, chars_bytes(symbols@), 0, pos as int),
    {
        self._println(symbols, pos)
    }

    fn _println(&mut self, symbols: &'a [char], pos: usize)
        ensures
            final(self)@ == shown(old(self)@, chars_bytes(symbols@), 0, pos as int),
    {
        let mut glyphs: Vec<u8> = Vec::new();
        let mut i: usize = 0;
        while i < symbols.len()
            invariant
                i <= symbols@.len(),
                glyphs@ == chars_bytes(symbols@).take(i as int),
            decreases symbols.len() - i,
        {
            glyphs.push(FullChar::from(symbols[i]).as_byte());
            assert(glyphs@ =~= chars_bytes(symbols@).take(i + 1));
            i += 1;
        }
        assert(glyphs@ =~= chars_bytes(symbols@));
        self.show(glyphs.as_slice(), 0, pos);
    }
}

/// The decimal digit a register byte shows, if it shows one without a point.
pub open spec fn glyph_value(b: u8) -> Option<int> {
    if b == Char::D0.spec_segments() {
        Some(0)
    } else if b == Char::D1.spec_segments() {
        Some(1)
    } else if b == Char::D2.spec_segments() {
        Some(2)
    } else if b == Char::D3.spec_segments() {
        Some(3)
    } else if b == Char::D4.spec_segments() {
        Some(4)
    } else if b == Char::D5.spec_segments() {
        Some(5)
    } else if b == Char::D6.spec_segments() {
        Some(6)
    } else if b == Char::D7.spec_segments() {
        Some(7)
    } else if b == Char::D8.spec_segments() {
        Some(8)
    } else if b == Char::D9.spec_segments() {
        Some(9)
    } else {
        None
    }
}

/// The number a reader sees in the first `k` digit registers, reading the
/// digit glyphs left to right and skipping everything else.
pub open spec fn read_number(digits: Seq<u8>, k: int) -> int
    decreases k,
{
    if k <= 0 {
        0
    } else {
        match glyph_value(digits[k - 1]) {
            Some(v) => read_number(digits, k - 1) * 10 + v,
            None => read_number(digits, k - 1),
        }
    }
}

/// `print_number(n)` shows `n`: reading the eight digits back gives `n`, and
/// every digit left of the number is blank.
pub proof fn law_printed_number_reads_back(n: u8)
    ensures
        read_number(number_image(n), 8) == n,
        forall|k: int| 0 <= k < 8 - decimal_len(n) ==> number_image(n)[k] == 0,
{
    let d = number_image(n);
    assert(glyph_value(0u8) is None);
    assert(read_number(d, 0) == 0);
    assert(read_number(d, 1) == 0);
    assert(read_number(d, 2) == 0);
    assert(read_number(d, 3) == 0);
    assert(read_number(d, 4) == 0);
    assert(read_number(d, 5) == 0);
    if n >= 100 {
        assert(read_number(d, 6) == n as int / 100);
        assert(read_number(d, 7) == n as int / 10);
    } else if n >= 10 {
        assert(read_number(d, 6) == 0);
        assert(read_number(d, 7) == n as int / 10);
    } else {
        assert(read_number(d, 6) == 0);
        assert(read_number(d, 7) == 0);
    }
}

/// After `print_at(symbol, pos)` digit `pos % 8` holds the symbol's byte, the
/// other digits and the leds are as before, and the last frame queued writes
/// that byte to that digit's register.
pub proof fn law_print_at_reads_back(s: DisplayState, byte: u8, pos: usize)
    requires
        s.digits.len() == 8,
    ensures
        printed_at(s, byte, pos).digits[(pos % 8) as int] == byte,
        forall|k: int|
            0 <= k < 8 && k != pos % 8 ==> printed_at(s, byte, pos).digits[k] == s.digits[k],
        printed_at(s, byte, pos).leds == s.leds,
        printed_at(s, byte, pos).sent.last() == ((NULL_ADDRESS + 2 * (pos % 8)) as u8, seq![byte]),
        printed_at(s, byte, pos).mode == Mode::Fixed,
{
}

/// After `set_led(on, p)` led `p` is `on` and the other leds are as before.
pub proof fn law_set_led_reads_back(leds: u8, p: u8, on: bool, k: u8)
    requires
        p < 8,
        k < 8,
    ensures
        bit(with_bit(leds, p, on), k as int) == if k == p {
            on
        } else {
            bit(leds, k as int)
        },
{
    assert(((leds | (1u8 << p)) >> k) & 1u8 == 1u8 <==> (k == p || (leds >> k) & 1u8 == 1u8))
        by (bit_vector)
        requires
            p < 8,
            k < 8,
    ;
    assert(((leds & !(1u8 << p)) >> k) & 1u8 == 1u8 <==> (k != p && (leds >> k) & 1u8 == 1u8))
        by (bit_vector)
        requires
            p < 8,
            k < 8,
    ;
}

/// After a key scan, button `k` reads as pressed exactly when the scan
/// reported it.
pub proof fn law_scan_reads_back(raw: Seq<u8>, buttons: u8, k: u8)
    requires
        raw.len() == 4,
        bits_of(buttons) == scanned_buttons(raw),
    ensures
        bit(buttons, (k % 8) as int) == scanned_buttons(raw)[(k % 8) as int],
{
    assert(bits_of(buttons)[(k % 8) as int] == bit(buttons, (k % 8) as int));
}

/// Switching mode sets the mode, sends the mode command exactly when the mode
/// changes and nothing else, so switching to the same mode twice is the same
/// as switching once.
pub proof fn law_mode_switch(s: DisplayState, m: Mode)
    ensures
        with_mode(s, m).mode == m,
        with_mode(s, m).sent == if s.mode == m {
            s.sent
        } else {
            s.sent.push((m.spec_byte(), seq![]))
        },
        with_mode(s, m).digits == s.digits,
        with_mode(s, m).leds == s.leds,
        with_mode(s, m).buttons == s.buttons,
        with_mode(with_mode(s, m), m) == with_mode(s, m),
{
}

/// The turn-on command does not depend on the brightness asked for: the
/// brightness field of the command is already all ones.
pub proof fn law_turn_on_is_full_brightness(brightness: u8)
    ensures
        Control::TurnOn.spec_byte() | (brightness & 0b111u8) == 0b1000_1111u8,
{
    assert((0b10_00_1_111u8 | (brightness & 0b111u8)) == 0b1000_1111u8) by (bit_vector);
}

/// Showing a row of symbols changes only the digits inside the window from
/// `pos`; the leds are untouched and the whole register image is resent.
pub proof fn law_shown_window(s: DisplayState, bytes: Seq<u8>, from: int, pos: int, k: int)
    requires
        s.digits.len() == 8,
        0 <= pos <= 8,
        0 <= from,
        0 <= k < 8,
    ensures
        shown(s, bytes, from, pos).digits[k] == if pos + from <= k < pos + window_end(
            bytes.len() as int,
            pos,
        ) {
            bytes[k - pos]
        } else {
            s.digits[k]
        },
        shown(s, bytes, from, pos).leds == s.leds,
        shown(s, bytes, from, pos).mode == Mode::Auto,
        shown(s, bytes, from, pos).sent.last() == (
            NULL_ADDRESS,
            register_image(shown(s, bytes, from, pos).digits, s.leds),
        ),
{
}

} // verus!
