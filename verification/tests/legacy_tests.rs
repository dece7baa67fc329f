use smt32_project::display::reg::{Char, FullChar};
use smt32_project::display_old::{demo_writes, FullSymbol, Symbol, TMI1638};
use smt32_project::multi_numbers::{Digit, DottedChar};

#[test]
fn symbol_set_has_no_nine() {
    assert_eq!(Symbol::from('8'), Symbol::D8);
    assert_eq!(Symbol::from('9'), Symbol::Blank);
    assert_eq!(Symbol::from('x'), Symbol::Blank);
    assert_eq!(Symbol::from(12u8), Symbol::D2);
    assert_eq!(Symbol::from(9u8), Symbol::Blank);
    assert_eq!(Symbol::D7.segments(), 0b111);
}

#[test]
fn full_symbol_register_pair() {
    let s = FullSymbol { symbol: Symbol::D1, dot: true, extra_led: false };
    assert_eq!(s.to_spi(), (0b1000_0110, 0));
    let s = FullSymbol { symbol: Symbol::D0, dot: false, extra_led: true };
    assert_eq!(s.to_spi(), (0b0011_1111, 1));
}

#[test]
fn old_control_commands_write_nothing() {
    let mut d = TMI1638::new();
    d.turn_on(4);
    d.turn_off();
    assert!(d.take_writes().is_empty());
    d.send(&[0x40]);
    d.turn_on(7);
    d.send(&[0xC0, 0x3F]);
    assert_eq!(d.take_writes(), vec![vec![0x40], vec![0xC0, 0x3F]]);
    assert!(d.take_writes().is_empty());
}

#[test]
fn demonstration_writes() {
    let (mode, data, control) = demo_writes();
    assert_eq!(mode, vec![0x40]);
    let mut expected = vec![0u8; 17];
    expected[0] = 0xC0;
    expected[1] = 0b101_1011;
    expected[2] = 1;
    expected[3] = 0b111_1111;
    assert_eq!(data, expected);
    assert_eq!(control, vec![0x8C]);
}

#[test]
fn counter_digit_wraps_and_toggles_point() {
    let mut d = Digit::new();
    assert_eq!(d.data, 0);
    for k in 1..10u8 {
        let shown = d.inc();
        assert_eq!(d.data, k);
        assert_eq!(shown.full_char.ch, Char::from(k));
        assert!(!shown.full_char.dot);
        assert!(!shown.led.is_on);
    }
    let shown = d.inc();
    assert_eq!(d.data, 0);
    assert_eq!(shown.full_char.ch, Char::D0);
    assert!(shown.full_char.dot);
    assert!(shown.led.is_on);
    for _ in 0..10 {
        d.inc();
    }
    assert!(!d.symbol.full_char.dot);
    assert!(d.symbol.led.is_on);
}

#[test]
fn dotted_char_symbol() {
    let d = DottedChar { ch: Char::D4, dot: true };
    assert_eq!(d.full_char(), FullChar::Dot(Char::D4));
    let d = DottedChar { ch: Char::D4, dot: false };
    assert_eq!(d.full_char(), FullChar::No(Char::D4));
}
