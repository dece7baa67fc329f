# smt32_project

Logic for an STM32 board with a TM1638 display/key module and a matrix
keypad, and the "bulls and cows" game played on them, verified with Verus.

- `src/display/reg.rs` — command bytes and the seven-segment character set.
- `src/wire.rs` — the serial protocol as pin-level signal sequences, and the
  assembly of bytes read back bit by bit.
- `src/display.rs` — the display model: digit and led registers, key scan,
  addressing mode, and the frames every operation transmits.
- `src/keypad.rs` — the keypad model: scan buffer, key lookup, labels.
- `src/bulls_and_cows.rs` — the game as a state machine over key presses,
  the secret draw, scoring, and the win lights.
- `src/display_old.rs`, `src/display_for_n_bits.rs`, `src/multi_numbers.rs` —
  the earlier display versions and the counter demonstration.
- `app/` — the board program: pins, waiting, timing, and the game task.
