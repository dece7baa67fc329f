use smt32_project::bulls_and_cows::{
    char_bull, char_cow, check_is_uniq, count_bulls, count_cows, err_symbols, game_rng,
    gen_attempt, place_digit, secret_from_draws, Bounded, Game, KeyOutcome, WinLights,
};
use smt32_project::display::reg::{Char, FullChar};
use smt32_project::display::{Frame, TMI1638};
use smt32_project::keypad::{Button, KeyPad};

fn digit(d: u8) -> Button<'static> {
    const LABELS: [&str; 10] = ["0", "1", "2", "3", "4", "5", "6", "7", "8", "9"];
    Button { row: 0, col: 0, digit: Some(d), string: LABELS[d as usize] }
}

fn named(s: &'static str) -> Button<'static> {
    Button { row: 0, col: 0, digit: None, string: s }
}

fn frame(command: u8, data: &[u8]) -> Frame {
    Frame { command, data: data.to_vec() }
}

fn setup() -> (TMI1638, Game) {
    let mut d = TMI1638::new();
    d.take_frames();
    let g = Game::start(&mut d);
    (d, g)
}

#[test]
fn bounded_inc_and_dec_wrap() {
    let mut x = 3u8;
    x.inc(4);
    assert_eq!(x, 0);
    x.dec(4);
    assert_eq!(x, 3);
    x.dec(4);
    assert_eq!(x, 2);
    let mut y = 0u8;
    y.dec(10);
    assert_eq!(y, 9);
    y.inc(10);
    assert_eq!(y, 0);
    let mut z = 12u8;
    z.inc(10);
    assert_eq!(z, 13);
}

#[test]
fn uniqueness_check() {
    assert!(check_is_uniq(&[0, 1, 2, 3]));
    assert!(check_is_uniq(&[9, 8, 7, 6]));
    assert!(!check_is_uniq(&[1, 2, 3, 1]));
    assert!(!check_is_uniq(&[0, 0, 2, 3]));
    assert!(!check_is_uniq(&[5, 6, 7, 7]));
}

#[test]
fn bulls_and_cows_counts() {
    assert_eq!(count_bulls(&[1, 2, 3, 4], &[0, 1, 2, 3]), 0);
    assert_eq!(count_cows(&[1, 2, 3, 4], &[0, 1, 2, 3]), 3);
    assert_eq!(count_bulls(&[0, 1, 2, 3], &[0, 1, 2, 3]), 4);
    assert_eq!(count_cows(&[0, 1, 2, 3], &[0, 1, 2, 3]), 0);
    assert_eq!(count_bulls(&[3, 1, 2, 0], &[0, 1, 2, 3]), 2);
    assert_eq!(count_cows(&[3, 1, 2, 0], &[0, 1, 2, 3]), 2);
    // a repeated guess digit counts against every other position
    assert_eq!(count_cows(&[5, 5, 5, 5], &[5, 5, 5, 5]), 12);
}

#[test]
fn symbols_of_the_game() {
    assert_eq!(char_cow(), FullChar::Custom(0b0011_1001));
    assert_eq!(char_bull(), FullChar::Custom(0b0111_1111));
    assert_eq!(
        err_symbols(),
        [
            FullChar::Custom(0b0111_1001),
            FullChar::Custom(0b0011_0001),
            FullChar::Custom(0b0011_0001),
            FullChar::No(Char::Blank),
        ]
    );
}

#[test]
fn placing_random_digits() {
    let mut a = [0u8; 4];
    assert!(place_digit(&mut a, 0, 17));
    assert_eq!(a[0], 7);
    assert!(!place_digit(&mut a, 1, 1237));
    assert_eq!(a, [7, 0, 0, 0]);
    assert!(place_digit(&mut a, 1, 1230));
    assert_eq!(a, [7, 0, 0, 0]);
    assert!(place_digit(&mut a, 2, 4));
    assert_eq!(a, [7, 0, 4, 0]);
}

#[test]
fn drawing_a_secret_gives_distinct_digits() {
    let mut rng = game_rng();
    for _ in 0..20 {
        let mut a = [0u8; 4];
        for i in 0..4 {
            while !gen_attempt(&mut a, i, &mut rng) {}
        }
        assert!(check_is_uniq(&a));
        assert!(a.iter().all(|&d| d < 10));
    }
}

#[test]
fn start_shows_zero_guess_with_point() {
    let (mut d, g) = setup();
    assert_eq!(g.user(), [0, 0, 0, 0]);
    assert_eq!(g.secret(), [0, 1, 2, 3]);
    assert_eq!(g.pos(), 0);
    let mut image = vec![0u8; 16];
    for i in 4..8 {
        image[2 * i] = 0x3F;
    }
    assert_eq!(
        d.take_frames(),
        vec![frame(0xC0, &image), frame(0x44, &[]), frame(0xC8, &[0xBF])]
    );
}

#[test]
fn digit_keys_edit_and_advance() {
    let (mut d, mut g) = setup();
    d.take_frames();
    assert_eq!(g.on_key(&mut d, &digit(7)), KeyOutcome::Moved);
    assert_eq!(g.user(), [7, 0, 0, 0]);
    assert_eq!(g.pos(), 1);
    assert_eq!(
        d.take_frames(),
        vec![frame(0xC8, &[0x87]), frame(0xC8, &[0x07]), frame(0xCA, &[0xBF])]
    );
}

#[test]
fn arrows_move_and_wrap() {
    let (mut d, mut g) = setup();
    assert_eq!(g.on_key(&mut d, &named("LEFT")), KeyOutcome::Moved);
    assert_eq!(g.pos(), 3);
    assert_eq!(g.on_key(&mut d, &named("RIGHT")), KeyOutcome::Moved);
    assert_eq!(g.pos(), 0);
    d.take_frames();
    assert_eq!(g.on_key(&mut d, &named("DOWN")), KeyOutcome::Moved);
    assert_eq!(g.user(), [9, 0, 0, 0]);
    assert_eq!(d.take_frames(), vec![frame(0xC8, &[0x6F]), frame(0xC8, &[0xEF])]);
    assert_eq!(g.on_key(&mut d, &named("UP")), KeyOutcome::Moved);
    assert_eq!(g.user(), [0, 0, 0, 0]);
}

#[test]
fn other_keys_are_ignored() {
    let (mut d, mut g) = setup();
    d.take_frames();
    assert_eq!(g.on_key(&mut d, &named("F1")), KeyOutcome::Ignored);
    assert_eq!(g.on_key(&mut d, &named("#")), KeyOutcome::Ignored);
    assert!(d.take_frames().is_empty());
    assert_eq!(g.on_key(&mut d, &named("ESC")), KeyOutcome::Escaped);
    assert!(d.take_frames().is_empty());
}

#[test]
fn repeated_digits_are_refused_with_err() {
    let (mut d, mut g) = setup();
    d.take_frames();
    assert_eq!(g.on_key(&mut d, &named("ENTER")), KeyOutcome::Refused);
    let frames = d.take_frames();
    let mut image = vec![0u8; 16];
    image[0] = 0x79;
    image[2] = 0x31;
    image[4] = 0x31;
    for i in 4..8 {
        image[2 * i] = 0x3F;
    }
    image[8] = 0xBF;
    assert_eq!(frames, vec![frame(0x40, &[]), frame(0xC0, &image)]);
}

#[test]
fn scoring_a_guess() {
    let (mut d, mut g) = setup();
    for k in [1u8, 2, 3, 4] {
        g.on_key(&mut d, &digit(k));
    }
    assert_eq!(g.user(), [1, 2, 3, 4]);
    assert_eq!(g.pos(), 0);
    d.take_frames();
    assert_eq!(g.on_key(&mut d, &named("ENTER")), KeyOutcome::Scored { bulls: 0, cows: 3 });
    assert_eq!(
        d.take_frames(),
        vec![
            frame(0xC0, &[0x7F]),
            frame(0xC4, &[0x39]),
            frame(0xC6, &[0x4F]),
            frame(0xC2, &[0x3F]),
            frame(0xC8, &[0x06]),
            frame(0xC8, &[0x86]),
        ]
    );
}

#[test]
fn hitting_the_secret_wins() {
    let (mut d, mut g) = setup();
    for k in [0u8, 1, 2, 3] {
        g.on_key(&mut d, &digit(k));
    }
    d.take_frames();
    assert_eq!(g.on_key(&mut d, &named("ENTER")), KeyOutcome::Won);
    assert_eq!(d.take_frames().len(), 4);
}

#[test]
fn up_on_255_is_not_taken() {
    let (mut d, mut g) = setup();
    g.on_key(&mut d, &Button { row: 0, col: 0, digit: Some(255), string: "255" });
    g.on_key(&mut d, &named("LEFT"));
    assert_eq!(g.user(), [255, 0, 0, 0]);
    assert!(!g.can_take(&named("UP")));
    assert!(g.can_take(&named("DOWN")));
    assert_eq!(g.on_key(&mut d, &named("DOWN")), KeyOutcome::Moved);
    assert_eq!(g.user(), [254, 0, 0, 0]);
    assert!(g.can_take(&named("UP")));
}

#[test]
fn end_round_blanks_left_half() {
    let (mut d, g) = setup();
    d.print_at(FullChar::No(Char::D8), 1);
    d.take_frames();
    g.end_round(&mut d);
    let mut image = vec![0u8; 16];
    for i in 4..8 {
        image[2 * i] = 0x3F;
    }
    image[8] = 0xBF;
    assert_eq!(d.take_frames(), vec![frame(0x40, &[]), frame(0xC0, &image)]);
}

#[test]
fn secret_draws_keep_the_guess() {
    let (_d, mut g) = setup();
    let mut rng = game_rng();
    for i in 0..4 {
        while !g.draw_secret_digit(i, &mut rng) {}
    }
    assert!(check_is_uniq(&g.secret()));
    assert_eq!(g.user(), [0, 0, 0, 0]);
}

#[test]
fn win_lights_run_until_press_after_release() {
    let (mut d, _g) = setup();
    let mut keypad = KeyPad::new([["1"]]);
    let mut w = WinLights::new();
    d.take_frames();
    w.step(&mut d);
    assert_eq!(
        d.take_frames(),
        vec![frame(0xC1, &[0]), frame(0xC3, &[1])]
    );
    keypad.buffer = 1;
    assert!(!w.observe(&keypad));
    keypad.buffer = 0;
    assert!(!w.observe(&keypad));
    for _ in 0..7 {
        w.step(&mut d);
    }
    assert_eq!(d.take_frames().last().unwrap(), &frame(0xC1, &[1]));
    keypad.buffer = 1;
    assert!(w.observe(&keypad));
    w.finish(&mut d);
    assert_eq!(d.take_frames(), vec![frame(0xC1, &[0])]);
}

/// The sixteen display registers as a chip would hold them after `frames`.
fn registers(frames: &[Frame], regs: &mut [u8; 16], auto: &mut bool) {
    for f in frames {
        match f.command {
            0x40 => *auto = true,
            0x44 => *auto = false,
            c if c & 0xF0 == 0xC0 => {
                let start = (c & 0x0F) as usize;
                if *auto {
                    for (k, b) in f.data.iter().enumerate() {
                        regs[(start + k) % 16] = *b;
                    }
                } else if let Some(b) = f.data.first() {
                    regs[start] = *b;
                }
            }
            _ => {}
        }
    }
}

fn glyph(v: u8) -> u8 {
    FullChar::from(v).as_byte()
}

#[test]
fn display_always_shows_the_guess() {
    let mut d = TMI1638::new();
    let mut regs = [0u8; 16];
    let mut auto = true;
    registers(&d.take_frames(), &mut regs, &mut auto);
    let mut g = Game::start(&mut d);
    let keys = [
        digit(5), named("DOWN"), named("RIGHT"), named("UP"), named("ENTER"), digit(1),
        named("LEFT"), named("F1"), digit(2), digit(3), digit(4), named("ENTER"), named("ESC"),
    ];
    for k in keys.iter() {
        registers(&d.take_frames(), &mut regs, &mut auto);
        let user = g.user();
        let pos = g.pos() as usize;
        for i in 0..4 {
            let expected = if i == pos { glyph(user[i]) | 0x80 } else { glyph(user[i]) };
            assert_eq!(regs[2 * (4 + i)], expected);
        }
        g.on_key(&mut d, k);
    }
    g.end_round(&mut d);
    registers(&d.take_frames(), &mut regs, &mut auto);
    let user = g.user();
    for i in 0..4 {
        let expected = if i == g.pos() as usize { glyph(user[i]) | 0x80 } else { glyph(user[i]) };
        assert_eq!(regs[2 * (4 + i)], expected);
    }
    for i in 0..4 {
        assert_eq!(regs[2 * i], 0);
    }
}

#[test]
fn no_guess_scores_more_than_four() {
    let secrets = [[0u8, 1, 2, 3], [9, 8, 7, 6], [5, 0, 3, 8]];
    for s in secrets.iter() {
        for n in 0..10000u32 {
            let u = [(n / 1000) as u8, (n / 100 % 10) as u8, (n / 10 % 10) as u8, (n % 10) as u8];
            let b = count_bulls(&u, s);
            let c = count_cows(&u, s);
            assert!(b + c <= 4);
            assert_eq!(b == 4, u == *s);
        }
    }
}

#[test]
fn first_secret_digit_is_placed_at_the_first_draw() {
    let mut rng = game_rng();
    for _ in 0..50 {
        let mut a = [7u8, 7, 7, 7];
        assert!(gen_attempt(&mut a, 0, &mut rng));
        assert!(a[0] < 10);
        assert_eq!(&a[1..], &[7, 7, 7]);
        let (_d, mut g) = setup();
        assert!(g.draw_secret_digit(0, &mut rng));
    }
}

#[test]
fn decimal_keys_keep_digits_below_ten() {
    let (mut d, mut g) = setup();
    let keys = [
        named("DOWN"), named("UP"), named("UP"), digit(9), named("UP"), named("LEFT"),
        named("DOWN"), named("RIGHT"), named("RIGHT"), named("ENTER"),
    ];
    for k in keys.iter() {
        g.on_key(&mut d, k);
        assert!(g.pos() < 4);
        assert!(g.user().iter().all(|&v| v < 10));
        assert_eq!(g.secret(), [0, 1, 2, 3]);
    }
    // a label that reads as a number of two digits leaves the decimal range
    g.on_key(&mut d, &Button { row: 0, col: 0, digit: Some(42), string: "42" });
    assert!(g.user().iter().any(|&v| v >= 10));
}

#[test]
fn drawing_a_whole_secret() {
    let (mut d, mut g) = setup();
    g.on_key(&mut d, &digit(5));
    let mut rng = game_rng();
    for _ in 0..20 {
        let (done, draws) = g.draw_secret(&mut rng, u64::MAX);
        assert!(done);
        assert_eq!(secret_from_draws(&draws, u64::MAX), Some(g.secret()));
        assert_eq!(secret_from_draws(&draws[..draws.len() - 1], u64::MAX), None);
        assert!(check_is_uniq(&g.secret()));
        assert!(g.secret().iter().all(|&v| v < 10));
        assert_eq!(g.user(), [5, 0, 0, 0]);
        assert_eq!(g.pos(), 1);
    }
    // with no failed draws allowed the draw may stop early, leaving the guess
    let (done, draws) = g.draw_secret(&mut rng, 0);
    if done {
        assert!(check_is_uniq(&g.secret()));
        assert_eq!(secret_from_draws(&draws, 0), Some(g.secret()));
    } else {
        assert_eq!(secret_from_draws(&draws, 0), None);
    }
    assert_eq!(g.user(), [5, 0, 0, 0]);
}

#[test]
fn secret_made_from_draws() {
    assert_eq!(secret_from_draws(&[11, 1, 2, 13, 4], 1), Some([1, 2, 3, 4]));
    assert_eq!(secret_from_draws(&[11, 1, 2, 13, 4], 0), None);
    assert_eq!(secret_from_draws(&[5, 15, 25, 6, 7, 8, 9], 2), Some([5, 6, 7, 8]));
    assert_eq!(secret_from_draws(&[5, 15, 25, 35, 6, 7, 8], 2), None);
    assert_eq!(secret_from_draws(&[1, 2, 3], 10), None);
    assert_eq!(secret_from_draws(&[], 10), None);
    assert_eq!(secret_from_draws(&[9, 8, 7, 6, 9, 9], 0), Some([9, 8, 7, 6]));
}
