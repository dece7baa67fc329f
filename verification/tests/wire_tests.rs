use smt32_project::display_for_n_bits::{
    send_bits, send_command, send_command_with_data, turn_off, turn_on, Bits, Packet,
};
use smt32_project::wire::{byte_from_bits, scan_end, scan_start, send, send_byte, Signal};

/// A receiver that latches DIO on every rising clock edge.
fn receive(signals: &[Signal]) -> Vec<bool> {
    let mut level = true;
    let mut out = Vec::new();
    for s in signals {
        match s {
            Signal::Dio(v) => level = *v,
            Signal::ClkHigh => out.push(level),
            _ => {}
        }
    }
    out
}

fn bytes_of(bits: &[bool]) -> Vec<u8> {
    bits.chunks(8)
        .map(|c| {
            let mut a = [false; 8];
            a.copy_from_slice(c);
            byte_from_bits(a)
        })
        .collect()
}

#[test]
fn send_byte_clocks_lsb_first() {
    let mut out = Vec::new();
    send_byte(&mut out, 0b0000_0101);
    assert_eq!(out.len(), 24);
    let expected_bits = [true, false, true, false, false, false, false, false];
    for i in 0..8 {
        assert_eq!(out[3 * i], Signal::ClkLow);
        assert_eq!(out[3 * i + 1], Signal::Dio(expected_bits[i]));
        assert_eq!(out[3 * i + 2], Signal::ClkHigh);
    }
}

#[test]
fn send_byte_appends() {
    let mut out = vec![Signal::StbLow];
    send_byte(&mut out, 0xFF);
    assert_eq!(out.len(), 25);
    assert_eq!(out[0], Signal::StbLow);
    assert_eq!(out[2], Signal::Dio(true));
}

#[test]
fn frame_is_strobed_and_received_back() {
    let out = send(0xC0, &[0x3F, 0x01, 0x80]);
    assert_eq!(out.len(), 2 + 24 * 4);
    assert_eq!(out[0], Signal::StbLow);
    assert_eq!(*out.last().unwrap(), Signal::StbHigh);
    assert_eq!(bytes_of(&receive(&out)), vec![0xC0, 0x3F, 0x01, 0x80]);
}

#[test]
fn empty_frame_carries_command_only() {
    let out = send(0x40, &[]);
    assert_eq!(out.len(), 26);
    assert_eq!(bytes_of(&receive(&out)), vec![0x40]);
}

#[test]
fn byte_from_bits_round_trip() {
    for b in 0..=255u8 {
        let mut bits = [false; 8];
        for i in 0..8 {
            bits[i] = (b >> i) & 1 == 1;
        }
        assert_eq!(byte_from_bits(bits), b);
    }
    assert_eq!(byte_from_bits([true, true, false, false, false, false, false, true]), 0x83);
}

#[test]
fn last_bit_of_bytes() {
    assert_eq!(6u8.last_bit(), 0);
    assert_eq!(7u8.last_bit(), 1);
}

#[test]
fn send_bits_pads_with_zeros_past_the_byte() {
    let out = send_bits(0b1000_0001, 10);
    assert_eq!(out.len(), 30);
    assert_eq!(
        receive(&out),
        vec![true, false, false, false, false, false, false, true, false, false]
    );
    let mut byte = Vec::new();
    send_byte(&mut byte, 0b1000_0001);
    assert_eq!(send_bits(0b1000_0001, 8), byte);
    assert!(send_bits(0xFF, 0).is_empty());
}

#[test]
fn commands_of_the_bit_banged_version() {
    assert_eq!(send_command(0x8F), send(0x8F, &[]));
    assert_eq!(send_command_with_data(0xC0, &[1, 2, 3]), send(0xC0, &[]));
    assert_eq!(bytes_of(&receive(&turn_on())), vec![0x8F]);
    assert_eq!(bytes_of(&receive(&turn_off())), vec![0x80]);
}

#[test]
fn packet_sends_only_its_command() {
    let p = Packet { command: 0xC0, data: vec![1, 2, 3] };
    assert_eq!(p.send(), send(0xC0, &[]));
    assert!(p.send_bits(0xFF).is_empty());
}

#[test]
fn key_scan_opening_and_closing() {
    let start = scan_start(0x42);
    assert_eq!(start.len(), 26);
    assert_eq!(start[0], Signal::StbLow);
    assert_eq!(*start.last().unwrap(), Signal::Dio(true));
    assert_eq!(bytes_of(&receive(&start)), vec![0x42]);
    assert_eq!(scan_end(), vec![Signal::StbHigh]);
}
