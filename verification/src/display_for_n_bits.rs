//! The bit-banged version of the display written over values of any bit
//! width.  Its transmissions clock out only the command byte: the data bytes
//! are handed to operations whose results are never carried out.
use vstd::prelude::*;
use crate::wire::{Signal, bit, frame_signals, send, send_byte, byte_signals};

verus! {

/// A value that is clocked out bit by bit, lowest bit first.
pub trait Bits {
    /// The lowest bit of the value.
    fn last_bit(&self) -> u8;
}

impl Bits for u8 {
    fn last_bit(&self) -> (b: u8)
        ensures
            b == *self & 1u8,
            b == if bit(*self, 0) {
                1u8
            } else {
                0u8
            },
    {
        let v = *self;
        assert((v & 1u8) == 0u8 || (v & 1u8) == 1u8) by (bit_vector);
        assert(((v >> 0u8) & 1u8) == (v & 1u8)) by (bit_vector);
        return v & 1u8;
    }
}

/// Bit `i` of a byte, which is clear from the ninth bit on.
pub open spec fn bit_or_zero(b: u8, i: int) -> bool {
    i < 8 && bit(b, i)
}

/// The signals that clock out `n` bits of `b`, lowest first.
pub open spec fn n_bit_signals(b: u8, n: int) -> Seq<Signal>
    decreases n,
{
    if n <= 0 {
        seq![]
    } else {
        n_bit_signals(b, n - 1) + seq![
            Signal::ClkLow,
            Signal::Dio(bit_or_zero(b, n - 1)),
            Signal::ClkHigh,
        ]
    }
}

/// Clocks out `n_bits` bits of `byte`, lowest first, shifting it right
/// after each bit (so bits past the eighth are zero).
pub fn send_bits(byte: u8, n_bits: usize) -> (out: Vec<Signal>)
    ensures
        out@ == n_bit_signals(byte, n_bits as int),
{
    let mut out: Vec<Signal> = Vec::new();
    let mut value = byte;
    let mut i: usize = 0;
    assert(byte >> 0u8 == byte) by (bit_vector);
    while i < n_bits
        invariant
            i <= n_bits,
            out@ == n_bit_signals(byte, i as int),
            i < 8 ==> value == byte >> (i as u8),
            i >= 8 ==> value == 0,
        decreases n_bits - i,
    {
        out.push(Signal::ClkLow);
        let low = value.last_bit();
        if low == 0 {
            out.push(Signal::Dio(false));
        } else {
            out.push(Signal::Dio(true));
        }
        proof {
            if i < 8 {
                let iu = i as u8;
                assert(((byte >> iu) & 1u8 == 1u8) == (((byte >> iu) >> 0u8) & 1u8 == 1u8))
                    by (bit_vector);
                assert(iu < 7 ==> (byte >> iu) >> 1u8 == byte >> (iu + 1) as u8) by (bit_vector)
                    requires
                        iu < 8,
                ;
                assert(iu == 7 ==> (byte >> iu) >> 1u8 == 0u8) by (bit_vector);
            } else {
                assert((0u8 >> 0u8) & 1u8 == 0u8) by (bit_vector);
                assert(0u8 >> 1u8 == 0u8) by (bit_vector);
            }
        }
        value >>= 1;
        out.push(Signal::ClkHigh);
        assert(out@ =~= n_bit_signals(byte, i + 1));
        i += 1;
    }
    out
}

/// A command transmission: STB low, the command byte, STB high.
pub fn send_command(command: u8) -> (out: Vec<Signal>)
    ensures
        out@ == frame_signals(command, seq![]),
{
    let none: Vec<u8> = Vec::new();
    send(command, none.as_slice())
}

/// A command transmission that was given data: only the command goes out.
pub fn send_command_with_data(command: u8, _data: &[u8]) -> (out: Vec<Signal>)
    ensures
        out@ == frame_signals(command, seq![]),
{
    send_command(command)
}

/// Turns the display on at full brightness.
pub fn turn_on() -> (out: Vec<Signal>)
    ensures
        out@ == frame_signals(0b10_00_1_111u8, seq![]),
{
    send_command(0b10_00_1_111u8)
}

/// Turns the display off.
pub fn turn_off() -> (out: Vec<Signal>)
    ensures
        out@ == frame_signals(0b10_00_0_000u8, seq![]),
{
    send_command(0b10_00_0_000u8)
}

/// A command with data bytes to follow it.
pub struct Packet {
    pub command: u8,
    pub data: Vec<u8>,
}

impl Packet {
    /// The transmission of the packet: the command byte between STB low and
    /// high.  Each data byte is passed to `send_bits`, which clocks nothing.
    pub fn send(&self) -> (out: Vec<Signal>)
        ensures
            out@ == frame_signals(self.command, seq![]),
    {
        let mut out: Vec<Signal> = Vec::new();
        out.push(Signal::StbLow);
        send_byte(&mut out, self.command);
        let ghost head = out@;
        let mut k: usize = 0;
        while k < self.data.len()
            invariant
                k <= self.data@.len(),
                out@ == head,
            decreases self.data.len() - k,
        {
            let mut bits = self.send_bits(self.data[k]);
            out.append(&mut bits);
            assert(out@ =~= head);
            k += 1;
        }
        out.push(Signal::StbHigh);
        assert(frame_signals(self.command, seq![]) =~= seq![Signal::StbLow] + byte_signals(
            self.command,
        ) + crate::wire::data_signals(seq![]) + seq![Signal::StbHigh]);
        assert(out@ =~= frame_signals(self.command, seq![]));
        out
    }

    /// The signals of one data byte: none, as the transfer it starts is
    /// never carried out.
    pub fn send_bits(&self, _bits: u8) -> (out: Vec<Signal>)
        ensures
            out@.len() == 0,
    {
        Vec::new()
    }
}

/// Over eight bits, clocking a value out bit by bit is exactly clocking out
/// the byte.
pub proof fn law_eight_bits_are_the_byte(b: u8, n: int)
    requires
        0 <= n <= 8,
    ensures
        n_bit_signals(b, n) == crate::wire::bit_signals(b, n),
    decreases n,
{
    if n > 0 {
        law_eight_bits_are_the_byte(b, n - 1);
    }
}

} // verus!
