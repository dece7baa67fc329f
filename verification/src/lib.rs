//! Driver logic for a TM1638 LED/key board and a 5x4 matrix keypad, and the
//! "bulls and cows" game played on them.
//!
//! Everything here is pure state and computation: the display and keypad are
//! modelled by the values they hold, and what travels on the wires is produced
//! as data (frames and pin-level signal sequences) for a board support layer to
//! put on real pins.

pub mod display;
pub mod wire;
pub mod keypad;
pub mod bulls_and_cows;
pub mod display_old;
pub mod display_for_n_bits;
pub mod multi_numbers;

