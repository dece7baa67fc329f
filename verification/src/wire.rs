//! The TM1638 serial wire protocol at the pin level.
//!
//! A transmission pulls STB low, clocks out bytes least-significant bit first
//! (CLK low, DIO set to the bit, CLK high — the chip latches DIO on the rising
//! edge) and releases STB.  The functions here produce that pin sequence as
//! data, and assemble bytes from bits read back the same way.
use vstd::prelude::*;

verus! {

/// One change of one line of the serial interface.
#[derive(Copy, Clone, PartialEq, Eq, Structural, Debug)]
pub enum Signal {
    StbLow,
    StbHigh,
    ClkLow,
    ClkHigh,
    Dio(bool),
}

/// Bit `i` of `b`.
pub open spec fn bit(b: u8, i: int) -> bool {
    (b >> (i as u8)) & 1u8 == 1u8
}

/// The bits of `b`, least significant first.
pub open spec fn bits_of(b: u8) -> Seq<bool> {
    Seq::new(8, |i: int| bit(b, i))
}

/// The signals that clock out bits `0..n` of `b`.
pub open spec fn bit_signals(b: u8, n: int) -> Seq<Signal>
    decreases n,
{
    if n <= 0 {
        seq![]
    } else {
        bit_signals(b, n - 1) + seq![Signal::ClkLow, Signal::Dio(bit(b, n - 1)), Signal::ClkHigh]
    }
}

/// The signals that clock out the byte `b`.
pub open spec fn byte_signals(b: u8) -> Seq<Signal> {
    bit_signals(b, 8)
}

/// The signals that clock out the bytes of `data` in order.
pub open spec fn data_signals(data: Seq<u8>) -> Seq<Signal>
    decreases data.len(),
{
    if data.len() == 0 {
        seq![]
    } else {
        data_signals(data.drop_last()) + byte_signals(data.last())
    }
}

/// A whole transmission: STB low, the command byte, the data bytes, STB high.
pub open spec fn frame_signals(command: u8, data: Seq<u8>) -> Seq<Signal> {
    seq![Signal::StbLow] + byte_signals(command) + data_signals(data) + seq![Signal::StbHigh]
}

/// The level of DIO after the signals `s`, starting from `level`.
pub open spec fn dio_level(s: Seq<Signal>, level: bool) -> bool
    decreases s.len(),
{
    if s.len() == 0 {
        level
    } else {
        match s.last() {
            Signal::Dio(v) => v,
            _ => dio_level(s.drop_last(), level),
        }
    }
}

/// What a receiver that latches DIO on every rising CLK edge reads from `s`,
/// with DIO at `level` before the first signal.
pub open spec fn received(s: Seq<Signal>, level: bool) -> Seq<bool>
    decreases s.len(),
{
    if s.len() == 0 {
        seq![]
    } else {
        match s.last() {
            Signal::ClkHigh => received(s.drop_last(), level).push(dio_level(s.drop_last(), level)),
            _ => received(s.drop_last(), level),
        }
    }
}

/// The bits of the bytes of `data` in order, each least significant first.
pub open spec fn data_bits(data: Seq<u8>) -> Seq<bool>
    decreases data.len(),
{
    if data.len() == 0 {
        seq![]
    } else {
        data_bits(data.drop_last()) + bits_of(data.last())
    }
}

proof fn lemma_bit_test(b: u8, i: u8)
    requires
        i < 8,
    ensures
        (b & (1u8 << i) != 0) == bit(b, i as int),
{
    assert((b & (1u8 << i) != 0) == ((b >> i) & 1u8 == 1u8)) by (bit_vector)
        requires
            i < 8,
    ;
}

/// Appends the signals that clock out `byte`, least-significant bit first.
pub fn send_byte(out: &mut Vec<Signal>, byte: u8)
    ensures
        final(out)@ == old(out)@ + byte_signals(byte),
{
    let ghost start = out@;
    let mut i: u8 = 0;
    while i < 8
        invariant
            i <= 8,
            out@ == start + bit_signals(byte, i as int),
        decreases 8 - i,
    {
        proof {
            lemma_bit_test(byte, i);
        }
        out.push(Signal::ClkLow);
        out.push(Signal::Dio(byte & (1u8 << i) != 0));
        out.push(Signal::ClkHigh);
        assert(out@ =~= start + bit_signals(byte, i + 1));
        i += 1;
    }
}

/// The pin sequence that transmits `command` followed by `data`.
pub fn send(command: u8, data: &[u8]) -> (out: Vec<Signal>)
    ensures
        out@ == frame_signals(command, data@),
{
    let mut out: Vec<Signal> = Vec::new();
    out.push(Signal::StbLow);
    send_byte(&mut out, command);
    let ghost head = out@;
    let mut k: usize = 0;
    while k < data.len()
        invariant
            k <= data@.len(),
            head == seq![Signal::StbLow] + byte_signals(command),
            out@ == head + data_signals(data@.subrange(0, k as int)),
        decreases data.len() - k,
    {
        send_byte(&mut out, data[k]);
        assert(data@.subrange(0, k + 1).drop_last() =~= data@.subrange(0, k as int));
        assert(out@ =~= head + data_signals(data@.subrange(0, k + 1)));
        k += 1;
    }
    assert(data@.subrange(0, data@.len() as int) =~= data@);
    out.push(Signal::StbHigh);
    assert(out@ =~= frame_signals(command, data@));
    out
}

/// The opening of a key scan: STB low, the read command, then DIO released
/// high so the chip can drive it.  The scan goes on with 32 read clocks (CLK
/// low, DIO sampled, CLK high) and ends with STB high.
pub open spec fn scan_start_signals(command: u8) -> Seq<Signal> {
    seq![Signal::StbLow] + byte_signals(command) + seq![Signal::Dio(true)]
}

/// The pin sequence that opens a key scan with `command`.
pub fn scan_start(command: u8) -> (out: Vec<Signal>)
    ensures
        out@ == scan_start_signals(command),
{
    let mut out: Vec<Signal> = Vec::new();
    out.push(Signal::StbLow);
    send_byte(&mut out, command);
    out.push(Signal::Dio(true));
    assert(out@ =~= scan_start_signals(command));
    out
}

/// The pin sequence that closes a key scan.
pub fn scan_end() -> (out: Vec<Signal>)
    ensures
        out@ == seq![Signal::StbHigh],
{
    let mut out: Vec<Signal> = Vec::new();
    out.push(Signal::StbHigh);
    assert(out@ =~= seq![Signal::StbHigh]);
    out
}

proof fn lemma_received_concat(a: Seq<Signal>, b: Seq<Signal>, level: bool)
    ensures
        received(a + b, level) == received(a, level) + received(b, dio_level(a, level)),
        dio_level(a + b, level) == dio_level(b, dio_level(a, level)),
    decreases b.len(),
{
    if b.len() == 0 {
        assert(a + b =~= a);
        assert(received(a, level) + received(b, dio_level(a, level)) =~= received(a, level));
    } else {
        lemma_received_concat(a, b.drop_last(), level);
        assert((a + b).drop_last() =~= a + b.drop_last());
        assert((a + b).last() == b.last());
        let l = dio_level(a, level);
        match b.last() {
            Signal::ClkHigh => {
                assert(received(a, level) + received(b, l) =~= (received(a, level)
                    + received(b.drop_last(), l)).push(dio_level(b.drop_last(), l)));
            },
            _ => {},
        }
    }
}

proof fn lemma_received_pulse(v: bool, level: bool)
    ensures
        received(seq![Signal::ClkLow, Signal::Dio(v), Signal::ClkHigh], level) == seq![v],
        dio_level(seq![Signal::ClkLow, Signal::Dio(v), Signal::ClkHigh], level) == v,
{
    let s = seq![Signal::ClkLow, Signal::Dio(v), Signal::ClkHigh];
    assert(s.drop_last() =~= seq![Signal::ClkLow, Signal::Dio(v)]);
    assert(s.drop_last().drop_last() =~= seq![Signal::ClkLow]);
    assert(s.drop_last().drop_last().drop_last() =~= Seq::<Signal>::empty());
    let s1 = s.drop_last().drop_last();
    assert(s1.last() == Signal::ClkLow);
    assert(received(s1, level) == received(s1.drop_last(), level));
    assert(received(s1, level) =~= Seq::<bool>::empty());
    let s2 = s.drop_last();
    assert(s2.last() == Signal::Dio(v));
    assert(received(s2, level) =~= Seq::<bool>::empty());
    assert(dio_level(s2, level) == v);
    assert(s.last() == Signal::ClkHigh);
    assert(received(s, level) =~= seq![v]);
}

proof fn lemma_received_bits(b: u8, n: int, level: bool)
    requires
        0 <= n <= 8,
    ensures
        received(bit_signals(b, n), level) == bits_of(b).take(n),
        n > 0 ==> dio_level(bit_signals(b, n), level) == bit(b, n - 1),
    decreases n,
{
    if n == 0 {
        assert(bits_of(b).take(0) =~= Seq::<bool>::empty());
    } else {
        let prev = bit_signals(b, n - 1);
        let pulse = seq![Signal::ClkLow, Signal::Dio(bit(b, n - 1)), Signal::ClkHigh];
        lemma_received_bits(b, n - 1, level);
        lemma_received_concat(prev, pulse, level);
        lemma_received_pulse(bit(b, n - 1), dio_level(prev, level));
        assert(bits_of(b).take(n) =~= bits_of(b).take(n - 1).push(bit(b, n - 1)));
    }
}

proof fn lemma_received_data(data: Seq<u8>, level: bool)
    ensures
        received(data_signals(data), level) == data_bits(data),
        data.len() > 0 ==> dio_level(data_signals(data), level) == bit(data.last(), 7),
    decreases data.len(),
{
    if data.len() == 0 {
    } else {
        lemma_received_data(data.drop_last(), level);
        let prev = data_signals(data.drop_last());
        lemma_received_concat(prev, byte_signals(data.last()), level);
        lemma_received_bits(data.last(), 8, dio_level(prev, level));
        assert(bits_of(data.last()).take(8) =~= bits_of(data.last()));
    }
}

/// Whatever DIO held before, a receiver that latches DIO on each rising clock
/// edge of a transmission reads exactly the bits of the command followed by the
/// bits of every data byte, each byte least-significant bit first.
pub proof fn law_frame_is_received(command: u8, data: Seq<u8>, level: bool)
    ensures
        received(frame_signals(command, data), level) == bits_of(command) + data_bits(data),
{
    let start = seq![Signal::StbLow];
    let cmd = byte_signals(command);
    let body = data_signals(data);
    let end = seq![Signal::StbHigh];
    assert(frame_signals(command, data) =~= ((start + cmd) + body) + end);
    lemma_received_concat(start, cmd, level);
    lemma_received_concat(start + cmd, body, level);
    lemma_received_concat((start + cmd) + body, end, level);
    assert(start.drop_last() =~= Seq::<Signal>::empty());
    assert(end.drop_last() =~= Seq::<Signal>::empty());
    lemma_received_bits(command, 8, dio_level(start, level));
    assert(bits_of(command).take(8) =~= bits_of(command));
    lemma_received_data(data, dio_level(start + cmd, level));
    assert(start.last() == Signal::StbLow);
    assert(received(start, level) == received(start.drop_last(), level));
    assert(received(start, level) =~= Seq::<bool>::empty());
    let l_end = dio_level((start + cmd) + body, level);
    assert(end.last() == Signal::StbHigh);
    assert(received(end, l_end) == received(end.drop_last(), l_end));
    assert(received(end, l_end) =~= Seq::<bool>::empty());
    assert(received(frame_signals(command, data), level) =~= bits_of(command) + data_bits(data));
}

/// The chip receives the read command of a key scan whole, and DIO is left
/// released high for the chip to answer on.
pub proof fn law_scan_command_is_received(command: u8, level: bool)
    ensures
        received(scan_start_signals(command), level) == bits_of(command),
        dio_level(scan_start_signals(command), level),
{
    let start = seq![Signal::StbLow];
    let cmd = byte_signals(command);
    let rel = seq![Signal::Dio(true)];
    assert(scan_start_signals(command) =~= (start + cmd) + rel);
    lemma_received_concat(start, cmd, level);
    lemma_received_concat(start + cmd, rel, level);
    assert(start.drop_last() =~= Seq::<Signal>::empty());
    assert(start.last() == Signal::StbLow);
    assert(received(start, level) == received(start.drop_last(), level));
    assert(received(start, level) =~= Seq::<bool>::empty());
    lemma_received_bits(command, 8, dio_level(start, level));
    assert(bits_of(command).take(8) =~= bits_of(command));
    let l = dio_level(start + cmd, level);
    assert(rel.drop_last() =~= Seq::<Signal>::empty());
    assert(rel.last() == Signal::Dio(true));
    assert(received(rel, l) == received(rel.drop_last(), l));
    assert(received(rel, l) =~= Seq::<bool>::empty());
    assert(dio_level(rel, l));
    assert(received(scan_start_signals(command), level) =~= bits_of(command));
}

proof fn lemma_set_bit(x: u8, j: u8, k: u8)
    requires
        j < 8,
        k < 8,
    ensures
        ((x | (1u8 << j)) >> k) & 1u8 == 1u8 <==> (k == j || (x >> k) & 1u8 == 1u8),
        ((x & !(1u8 << j)) >> k) & 1u8 == 1u8 <==> (k != j && (x >> k) & 1u8 == 1u8),
{
    assert(((x | (1u8 << j)) >> k) & 1u8 == 1u8 <==> (k == j || (x >> k) & 1u8 == 1u8))
        by (bit_vector)
        requires
            j < 8,
            k < 8,
    ;
    assert(((x & !(1u8 << j)) >> k) & 1u8 == 1u8 <==> (k != j && (x >> k) & 1u8 == 1u8))
        by (bit_vector)
        requires
            j < 8,
            k < 8,
    ;
}

/// Assembles a byte from eight bits read least-significant first: each bit
/// sets or clears its position of a byte that starts at zero.
pub fn byte_from_bits(bits: [bool; 8]) -> (b: u8)
    ensures
        bits_of(b) == bits@,
{
    let mut b: u8 = 0;
    let mut j: u8 = 0;
    assert forall|k: u8| k < 8 implies !bit(0u8, k as int) by {
        assert((0u8 >> k) & 1u8 == 0u8) by (bit_vector);
    }
    while j < 8
        invariant
            j <= 8,
            forall|k: u8| k < j ==> bit(b, k as int) == bits@[k as int],
            forall|k: u8| j <= k < 8 ==> !bit(b, k as int),
        decreases 8 - j,
    {
        let old_b = b;
        if bits[j as usize] {
            b |= 1u8 << j;
        } else {
            b &= !(1u8 << j);
        }
        assert forall|k: u8| k < 8 implies bit(b, k as int) == (if k == j {
            bits@[j as int]
        } else {
            bit(old_b, k as int)
        }) by {
            lemma_set_bit(old_b, j, k);
        }
        j += 1;
    }
    assert forall|i: int| 0 <= i < 8 implies bits_of(b)[i] == bits@[i] by {
        assert(bit(b, (i as u8) as int) == bits@[(i as u8) as int]);
    }
    assert(bits_of(b) =~= bits@);
    b
}

/// A byte is determined by its bits: assembling the bits of `b` gives `b`
/// back, so what `send_byte` clocks out and `byte_from_bits` reads agree.
pub proof fn law_bits_determine_byte(a: u8, b: u8)
    ensures
        bits_of(a) == bits_of(b) <==> a == b,
{
    if bits_of(a) == bits_of(b) {
        assert(bits_of(a)[0] == bits_of(b)[0]);
        assert(bits_of(a)[1] == bits_of(b)[1]);
        assert(bits_of(a)[2] == bits_of(b)[2]);
        assert(bits_of(a)[3] == bits_of(b)[3]);
        assert(bits_of(a)[4] == bits_of(b)[4]);
        assert(bits_of(a)[5] == bits_of(b)[5]);
        assert(bits_of(a)[6] == bits_of(b)[6]);
        assert(bits_of(a)[7] == bits_of(b)[7]);
        assert(a == b) by (bit_vector)
            requires
                ((a >> 0u8) & 1u8 == 1u8) == ((b >> 0u8) & 1u8 == 1u8),
                ((a >> 1u8) & 1u8 == 1u8) == ((b >> 1u8) & 1u8 == 1u8),
                ((a >> 2u8) & 1u8 == 1u8) == ((b >> 2u8) & 1u8 == 1u8),
                ((a >> 3u8) & 1u8 == 1u8) == ((b >> 3u8) & 1u8 == 1u8),
                ((a >> 4u8) & 1u8 == 1u8) == ((b >> 4u8) & 1u8 == 1u8),
                ((a >> 5u8) & 1u8 == 1u8) == ((b >> 5u8) & 1u8 == 1u8),
                ((a >> 6u8) & 1u8 == 1u8) == ((b >> 6u8) & 1u8 == 1u8),
                ((a >> 7u8) & 1u8 == 1u8) == ((b >> 7u8) & 1u8 == 1u8),
        ;
    }
}

} // verus!
