use smt32_project::display::reg::{Char, Control, FullChar, Mode, NULL_ADDRESS};
use smt32_project::display::{Frame, Println, TMI1638};

fn frame(command: u8, data: &[u8]) -> Frame {
    Frame { command, data: data.to_vec() }
}

fn image(digits: [u8; 8], leds: u8) -> Vec<u8> {
    let mut v = Vec::new();
    for i in 0..8 {
        v.push(digits[i]);
        v.push((leds >> i) & 1);
    }
    v
}

fn fresh() -> TMI1638 {
    let mut d = TMI1638::new();
    d.take_frames();
    d
}

#[test]
fn char_from_char_maps_digits_and_blanks_the_rest() {
    assert_eq!(Char::from('0'), Char::D0);
    assert_eq!(Char::from('5'), Char::D5);
    assert_eq!(Char::from('9'), Char::D9);
    assert_eq!(Char::from('a'), Char::Blank);
    assert_eq!(Char::from('_'), Char::Blank);
}

#[test]
fn char_from_u8_uses_last_decimal_digit() {
    assert_eq!(Char::from(0u8), Char::D0);
    assert_eq!(Char::from(7u8), Char::D7);
    assert_eq!(Char::from(19u8), Char::D9);
    assert_eq!(Char::from(250u8), Char::D0);
    assert_eq!(Char::from(255u8), Char::D5);
}

#[test]
fn full_char_bytes() {
    assert_eq!(FullChar::No(Char::D8).as_byte(), 0b0111_1111);
    assert_eq!(FullChar::Dot(Char::D8).as_byte(), 0b1111_1111);
    assert_eq!(FullChar::Dot(Char::D1).as_byte(), 0b1000_0110);
    assert_eq!(FullChar::Custom(0x39).as_byte(), 0x39);
    assert_eq!(FullChar::from(3u8), FullChar::No(Char::D3));
    assert_eq!(FullChar::from('4'), FullChar::No(Char::D4));
    assert_eq!(FullChar::from(Char::D2), FullChar::No(Char::D2));
    assert_eq!(FullChar::Dot(Char::Blank).as_byte(), 0x80);
}

#[test]
fn register_constants() {
    assert_eq!(Control::TurnOn.byte(), 0b1000_1111);
    assert_eq!(Control::TurnOff.byte(), 0b1000_0000);
    assert_eq!(Mode::Fixed.byte(), 0b0100_0100);
    assert_eq!(Mode::Auto.byte(), 0b0100_0000);
    assert_eq!(NULL_ADDRESS, 0xC0);
}

#[test]
fn new_selects_auto_mode_clears_and_turns_on() {
    let mut d = TMI1638::new();
    let frames = d.take_frames();
    assert_eq!(
        frames,
        vec![frame(0x40, &[]), frame(0xC0, &[0u8; 16]), frame(0x8F, &[])]
    );
    assert!(d.take_frames().is_empty());
}

#[test]
fn print_at_switches_to_fixed_mode_once_and_wraps_position() {
    let mut d = fresh();
    d.print_at(FullChar::Dot(Char::D1), 10);
    d.print_at(FullChar::No(Char::D3), 7);
    assert_eq!(
        d.take_frames(),
        vec![frame(0x44, &[]), frame(0xC4, &[0x86]), frame(0xCE, &[0x4F])]
    );
}

#[test]
fn set_led_writes_led_register_and_is_kept_in_image() {
    let mut d = fresh();
    d.set_led(true, 3);
    d.set_led(true, 256 + 5);
    d.set_led(false, 3);
    d.set_led(true, 0);
    assert_eq!(
        d.take_frames(),
        vec![
            frame(0x44, &[]),
            frame(0xC7, &[1]),
            frame(0xCB, &[1]),
            frame(0xC7, &[0]),
            frame(0xC1, &[1]),
        ]
    );
    d.print_number(0);
    let frames = d.take_frames();
    assert_eq!(frames[0], frame(0x40, &[]));
    assert_eq!(frames[1], frame(0xC0, &image([0, 0, 0, 0, 0, 0, 0, 0x3F], 0b0010_0001)));
}

#[test]
fn print_number_right_aligns_decimal() {
    let mut d = fresh();
    d.print_number(123);
    assert_eq!(
        d.take_frames(),
        vec![frame(0xC0, &image([0, 0, 0, 0, 0, 0x06, 0x5B, 0x4F], 0))]
    );
    d.print_number(7);
    assert_eq!(d.take_frames(), vec![frame(0xC0, &image([0, 0, 0, 0, 0, 0, 0, 0x07], 0))]);
    d.print_number(255);
    assert_eq!(
        d.take_frames(),
        vec![frame(0xC0, &image([0, 0, 0, 0, 0, 0x5B, 0x6D, 0x6D], 0))]
    );
    d.print_number(40);
    assert_eq!(d.take_frames(), vec![frame(0xC0, &image([0, 0, 0, 0, 0, 0, 0x66, 0x3F], 0))]);
}

#[test]
fn print_number_clears_previous_digits() {
    let mut d = fresh();
    d.print_at(FullChar::No(Char::D8), 0);
    d.print_number(5);
    let frames = d.take_frames();
    assert_eq!(frames.last().unwrap(), &frame(0xC0, &image([0, 0, 0, 0, 0, 0, 0, 0x6D], 0)));
}

#[test]
fn turn_on_ignores_brightness() {
    let mut d = fresh();
    d.turn_on(0);
    d.turn_on(3);
    d.turn_off();
    assert_eq!(d.take_frames(), vec![frame(0x8F, &[]), frame(0x8F, &[]), frame(0x80, &[])]);
}

#[test]
fn key_scan_decodes_buttons() {
    let mut d = fresh();
    assert_eq!(d.read_command(), 0x42);
    assert!(!d.is_any_button_pressed());
    d.update_buttons([0b0000_0001, 0b0001_0000, 0, 0b0001_0001]);
    assert!(d.is_any_button_pressed());
    let pressed: Vec<bool> = (0..8).map(|k| d.is_button_pressed(k)).collect();
    assert_eq!(pressed, vec![true, false, false, true, false, true, false, true]);
    assert!(d.is_button_pressed(8));
    assert!(!d.is_button_pressed(9));
    d.update_buttons([0b1110_1110, 0, 0, 0]);
    assert!(!d.is_any_button_pressed());
    d.print_at(FullChar::No(Char::D0), 0);
    assert_eq!(d.read_command(), 0x46);
    assert!(d.take_frames().len() == 2);
}

#[test]
fn println_text_writes_only_from_pos_on() {
    let mut d = fresh();
    d.println("12345678", 0);
    assert_eq!(
        d.take_frames(),
        vec![frame(0xC0, &image([0x06, 0x5B, 0x4F, 0x66, 0x6D, 0x7D, 0x07, 0x7F], 0))]
    );
    d.println("____", 0);
    assert_eq!(
        d.take_frames(),
        vec![frame(0xC0, &image([0, 0, 0, 0, 0x6D, 0x7D, 0x07, 0x7F], 0))]
    );
    // from position 1 the text starts at its own second character
    d.println("9876", 1);
    assert_eq!(
        d.take_frames(),
        vec![frame(0xC0, &image([0, 0, 0x7F, 0x07, 0x7D, 0x7D, 0x07, 0x7F], 0))]
    );
    // from position 2 a text of two characters writes nothing
    d.println("00", 2);
    assert_eq!(
        d.take_frames(),
        vec![frame(0xC0, &image([0, 0, 0x7F, 0x07, 0x7D, 0x7D, 0x07, 0x7F], 0))]
    );
}

#[test]
fn println_slices() {
    let mut d = fresh();
    let nums: [u8; 4] = [1, 2, 13, 0];
    d.println(&nums[..], 4);
    assert_eq!(
        d.take_frames(),
        vec![frame(0xC0, &image([0, 0, 0, 0, 0x06, 0x5B, 0x4F, 0x3F], 0))]
    );
    let syms = [FullChar::Custom(0x79), FullChar::Dot(Char::D2)];
    d.println(&syms[..], 7);
    assert_eq!(
        d.take_frames(),
        vec![frame(0xC0, &image([0, 0, 0, 0, 0x06, 0x5B, 0x4F, 0x79], 0))]
    );
    let chars = [Char::D9, Char::Blank, Char::D1];
    d._println(&chars[..], 0);
    assert_eq!(
        d.take_frames(),
        vec![frame(0xC0, &image([0x6F, 0, 0x06, 0, 0x06, 0x5B, 0x4F, 0x79], 0))]
    );
}

#[test]
fn println_after_fixed_mode_switches_back_to_auto() {
    let mut d = fresh();
    d.print_at(FullChar::No(Char::D1), 0);
    d.take_frames();
    let nums: [u8; 1] = [2];
    d.println(&nums[..], 0);
    assert_eq!(
        d.take_frames(),
        vec![frame(0x40, &[]), frame(0xC0, &image([0x5B, 0, 0, 0, 0, 0, 0, 0], 0))]
    );
}

#[test]
fn glyphs_are_distinct_and_leave_the_point_free() {
    let all = [
        Char::D0, Char::D1, Char::D2, Char::D3, Char::D4, Char::D5, Char::D6, Char::D7,
        Char::D8, Char::D9, Char::Blank,
    ];
    for (i, a) in all.iter().enumerate() {
        assert!(a.segments() < 0x80);
        assert_eq!(FullChar::Dot(*a).as_byte(), a.segments() + 0x80);
        for (j, b) in all.iter().enumerate() {
            assert_eq!(a.segments() == b.segments(), i == j);
        }
    }
}

#[test]
fn println_char_slice() {
    let mut d = fresh();
    let chars = ['3', 'x', '7'];
    d.println(&chars[..], 6);
    assert_eq!(
        d.take_frames(),
        vec![frame(0xC0, &image([0, 0, 0, 0, 0, 0, 0x4F, 0], 0))]
    );
    d._println(&chars[..], 0);
    assert_eq!(
        d.take_frames(),
        vec![frame(0xC0, &image([0x4F, 0, 0x07, 0, 0, 0, 0x4F, 0], 0))]
    );
}
