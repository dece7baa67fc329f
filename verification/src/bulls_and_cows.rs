//! The "bulls and cows" game on the display and keypad.
//!
//! The player edits a four-digit guess shown on digits 4..8 (the digit being
//! edited carries a point) and asks for a score with ENTER: bulls count right
//! digits in the right place, cows right digits in the wrong place.  The
//! decisions live here as a state machine; waiting for keys and pacing the
//! lights is left to the caller.
use vstd::prelude::*;
use crate::display::reg::{Char, FullChar, digit_char};
use crate::display::{
    TMI1638, DisplayState, printed_at, shown, full_char_bytes, number_bytes, text_bytes, led_set,
};
use vstd::string::StringSliceAdditionalSpecFns;
use crate::display::Println;
use crate::keypad::{Button, KeyPad, ones_count};
use rand::rngs::SmallRng;

verus! {

/// Stepping a value around a cycle `0..right`.
pub trait Bounded: Sized {
    /// Whether `inc` can step from `self`.
    spec fn can_inc(self, right: u8) -> bool;

    /// The value `inc` steps to.
    spec fn incremented(self, right: u8) -> Self;

    /// Whether `dec` can step from `self`.
    spec fn can_dec(self, right: u8) -> bool;

    /// The value `dec` steps to.
    spec fn decremented(self, right: u8) -> Self;

    /// Steps up, wrapping from `right - 1` to 0.
    fn inc(&mut self, right: u8)
        requires
            old(self).can_inc(right),
        ensures
            *final(self) == old(self).incremented(right),
    ;

    /// Steps down, wrapping from 0 to `right - 1`.
    fn dec(&mut self, right: u8)
        requires
            old(self).can_dec(right),
        ensures
            *final(self) == old(self).decremented(right),
    ;
}

impl Bounded for u8 {
    /// `inc` adds one first, so it needs room for that.
    open spec fn can_inc(self, right: u8) -> bool {
        self < 255
    }

    open spec fn incremented(self, right: u8) -> u8 {
        if self + 1 == right {
            0
        } else {
            (self + 1) as u8
        }
    }

    /// `dec` from 0 gives `right - 1`, so `right` must then be positive.
    open spec fn can_dec(self, right: u8) -> bool {
        self != 0 || right != 0
    }

    open spec fn decremented(self, right: u8) -> u8 {
        if self == 0 {
            (right - 1) as u8
        } else {
            (self - 1) as u8
        }
    }

    fn inc(&mut self, right: u8) {
        *self += 1;
        if *self == right {
            *self = 0;
        }
    }

    fn dec(&mut self, right: u8) {
        if *self == 0 {
            *self = right - 1;
        } else {
            *self -= 1;
        }
    }
}

/// On a cycle `0..right`, `inc` and `dec` stay on the cycle and undo each other.
pub proof fn law_inc_dec_cycle(x: u8, right: u8)
    requires
        x < right,
    ensures
        x.incremented(right) < right,
        x.decremented(right) < right,
        x.incremented(right).decremented(right) == x,
        x.decremented(right).incremented(right) == x,
{
}

/// Whether the four digits are pairwise different.
pub open spec fn all_distinct(a: Seq<u8>) -> bool {
    forall|i: int, j: int| 0 <= i < j < 4 ==> a[i] != a[j]
}

/// Whether the four digits of a guess are pairwise different.
pub fn check_is_uniq(arr: &[u8; 4]) -> (r: bool)
    ensures
        r == all_distinct(arr@),
{
    let mut i: usize = 0;
    while i < 3
        invariant
            i <= 3,
            forall|a: int, b: int| 0 <= a < i && a < b < 4 ==> arr@[a] != arr@[b],
        decreases 3 - i,
    {
        let mut j = i + 1;
        while j < 4
            invariant
                i < 3,
                i + 1 <= j <= 4,
                forall|a: int, b: int| 0 <= a < i && a < b < 4 ==> arr@[a] != arr@[b],
                forall|b: int| i < b < j ==> arr@[i as int] != arr@[b],
            decreases 4 - j,
        {
            if arr[i] == arr[j] {
                return false;
            }
            j += 1;
        }
        i += 1;
    }
    true
}

/// Positions `0..n` where guess and secret agree.
pub open spec fn bulls_upto(user: Seq<u8>, secret: Seq<u8>, n: int) -> int
    decreases n,
{
    if n <= 0 {
        0
    } else {
        bulls_upto(user, secret, n - 1) + if user[n - 1] == secret[n - 1] {
            1int
        } else {
            0int
        }
    }
}

/// Secret positions `j < n` other than `i` that hold guess digit `i`.
pub open spec fn cows_at(user: Seq<u8>, secret: Seq<u8>, i: int, n: int) -> int
    decreases n,
{
    if n <= 0 {
        0
    } else {
        cows_at(user, secret, i, n - 1) + if i != n - 1 && user[i] == secret[n - 1] {
            1int
        } else {
            0int
        }
    }
}

/// Cows of guess positions `0..n`.
pub open spec fn cows_upto(user: Seq<u8>, secret: Seq<u8>, n: int) -> int
    decreases n,
{
    if n <= 0 {
        0
    } else {
        cows_upto(user, secret, n - 1) + cows_at(user, secret, n - 1, 4)
    }
}

/// The bulls of a guess: digits in their right place.
pub open spec fn bulls_of(user: Seq<u8>, secret: Seq<u8>) -> int {
    bulls_upto(user, secret, 4)
}

/// The cows of a guess: pairs of a guess digit and an equal secret digit at
/// another position.
pub open spec fn cows_of(user: Seq<u8>, secret: Seq<u8>) -> int {
    cows_upto(user, secret, 4)
}

proof fn lemma_bulls_bound(user: Seq<u8>, secret: Seq<u8>, n: int)
    requires
        0 <= n,
    ensures
        0 <= bulls_upto(user, secret, n) <= n,
    decreases n,
{
    if n > 0 {
        lemma_bulls_bound(user, secret, n - 1);
    }
}

proof fn lemma_cows_at_bound(user: Seq<u8>, secret: Seq<u8>, i: int, n: int)
    requires
        0 <= n,
    ensures
        0 <= cows_at(user, secret, i, n) <= n,
    decreases n,
{
    if n > 0 {
        lemma_cows_at_bound(user, secret, i, n - 1);
    }
}

proof fn lemma_cows_bound(user: Seq<u8>, secret: Seq<u8>, n: int)
    requires
        0 <= n,
    ensures
        0 <= cows_upto(user, secret, n) <= 4 * n,
    decreases n,
{
    if n > 0 {
        lemma_cows_bound(user, secret, n - 1);
        lemma_cows_at_bound(user, secret, n - 1, 4);
    }
}

/// Counts the bulls of a guess.
pub fn count_bulls(user: &[u8; 4], secret: &[u8; 4]) -> (c: u8)
    ensures
        c == bulls_of(user@, secret@),
{
    let mut c: u8 = 0;
    let mut i: usize = 0;
    while i < 4
        invariant
            i <= 4,
            c == bulls_upto(user@, secret@, i as int),
        decreases 4 - i,
    {
        proof {
            lemma_bulls_bound(user@, secret@, i as int);
        }
        if user[i] == secret[i] {
            c += 1
        }
        i += 1;
    }
    c
}

/// Counts the cows of a guess.
pub fn count_cows(user: &[u8; 4], secret: &[u8; 4]) -> (c: u8)
    ensures
        c == cows_of(user@, secret@),
{
    let mut c: u8 = 0;
    let mut i: usize = 0;
    while i < 4
        invariant
            i <= 4,
            c == cows_upto(user@, secret@, i as int),
        decreases 4 - i,
    {
        let mut j: usize = 0;
        while j < 4
            invariant
                i < 4,
                j <= 4,
                c == cows_upto(user@, secret@, i as int) + cows_at(
                    user@,
                    secret@,
                    i as int,
                    j as int,
                ),
            decreases 4 - j,
        {
            proof {
                lemma_cows_bound(user@, secret@, i as int);
                lemma_cows_at_bound(user@, secret@, i as int, j as int);
            }
            if i != j && user[i] == secret[j] {
                c += 1;
            }
            j += 1;
        }
        i += 1;
    }
    c
}

/// Four bulls means the guess is the secret, and the secret gives four bulls.
pub proof fn law_four_bulls_is_a_hit(user: Seq<u8>, secret: Seq<u8>)
    requires
        user.len() == 4,
        secret.len() == 4,
    ensures
        bulls_of(user, secret) == 4 <==> user == secret,
{
    reveal_with_fuel(bulls_upto, 5);
    lemma_bulls_bound(user, secret, 3);
    lemma_bulls_bound(user, secret, 2);
    lemma_bulls_bound(user, secret, 1);
    if bulls_of(user, secret) == 4 {
        assert(user =~= secret);
    }
}

proof fn lemma_row_at_most_one(user: Seq<u8>, secret: Seq<u8>, i: int)
    requires
        secret.len() == 4,
        all_distinct(secret),
        0 <= i < 4,
    ensures
        cows_at(user, secret, i, 4) + (if user[i] == secret[i] {
            1int
        } else {
            0int
        }) <= 1,
{
    reveal_with_fuel(cows_at, 5);
}

/// Against a secret of distinct digits no guess scores more than four
/// bulls and cows together.
pub proof fn law_score_at_most_four(user: Seq<u8>, secret: Seq<u8>)
    requires
        user.len() == 4,
        secret.len() == 4,
        all_distinct(secret),
    ensures
        bulls_of(user, secret) + cows_of(user, secret) <= 4,
{
    reveal_with_fuel(bulls_upto, 5);
    reveal_with_fuel(cows_upto, 5);
    lemma_row_at_most_one(user, secret, 0);
    lemma_row_at_most_one(user, secret, 1);
    lemma_row_at_most_one(user, secret, 2);
    lemma_row_at_most_one(user, secret, 3);
}

/// The pattern shown when a guess repeats a digit: "Err" and a blank.
pub open spec fn err_seq() -> Seq<FullChar> {
    seq![
        FullChar::Custom(0b0111_1001u8),
        FullChar::Custom(0b0011_0001u8),
        FullChar::Custom(0b0011_0001u8),
        FullChar::No(Char::Blank),
    ]
}

/// The symbols shown when a guess repeats a digit.
pub fn err_symbols() -> (r: [FullChar; 4])
    ensures
        r@ == err_seq(),
{
    let r = [
        FullChar::Custom(0b0111_1001),
        FullChar::Custom(0b0011_0001),
        FullChar::Custom(0b0011_0001),
        FullChar::No(Char::Blank),
    ];
    assert(r@ =~= err_seq());
    r
}

/// The glyph that labels the cow count.
pub fn char_cow() -> (c: FullChar)
    ensures
        c == FullChar::Custom(0b0011_1001u8),
{
    FullChar::Custom(0b0011_1001)
}

/// The glyph that labels the bull count.
pub fn char_bull() -> (c: FullChar)
    ensures
        c == FullChar::Custom(0b0111_1111u8),
{
    FullChar::Custom(0b0111_1111)
}

/// `rand::rngs::SmallRng`, the game's random source, carried through as an
/// opaque value.
#[verifier::external_type_specification]
#[verifier::external_body]
pub struct ExSmallRng(rand::rngs::SmallRng);

/// `SeedableRng::seed_from_u64` for `SmallRng`: a generator seeded from `seed`.
/// Nothing is stated of the generator: its state is private to `rand`, and
/// the outputs a seed gives differ between platforms.
#[verifier::external_body]
fn seeded_rng(seed: u64) -> SmallRng {
    <SmallRng as rand::SeedableRng>::seed_from_u64(seed)
}

/// `RngCore::next_u32` on a `SmallRng`: the generator's next output.  Nothing
/// is stated of the value, which depends on the generator's hidden state.
#[verifier::external_body]
fn next_random(rng: &mut SmallRng) -> u32 {
    rand::RngCore::next_u32(rng)
}

/// The random source of the game, seeded with the game's fixed seed.
pub fn game_rng() -> SmallRng {
    seeded_rng(1232145778)
}

/// Whether `a[0..n]` are pairwise distinct decimal digits.
pub open spec fn distinct_digits(a: Seq<u8>, n: int) -> bool {
    &&& forall|j: int| 0 <= j < n ==> a[j] < 10
    &&& forall|j: int, k: int| 0 <= j < k < n ==> a[j] != a[k]
}

/// Places the last decimal digit of a random draw at `array[i]` when it
/// differs from `array[0..i]`; tells whether it did.
pub fn place_digit(array: &mut [u8; 4], i: usize, rand_num: u32) -> (placed: bool)
    requires
        i < 4,
    ensures
        placed == (forall|j: int| 0 <= j < i ==> old(array)@[j] != (rand_num % 10) as u8),
        placed ==> final(array)@ == old(array)@.update(i as int, (rand_num % 10) as u8),
        !placed ==> final(array)@ == old(array)@,
{
    let d = (rand_num % 10) as u8;
    let mut j: usize = 0;
    while j < i
        invariant
            j <= i < 4,
            *array == *old(array),
            d == (rand_num % 10) as u8,
            forall|k: int| 0 <= k < j ==> array@[k] != d,
        decreases i - j,
    {
        if array[j] == d {
            assert(old(array)@[j as int] == (rand_num % 10) as u8);
            return false;
        }
        j += 1;
    }
    array[i] = d;
    assert(array@ =~= old(array)@.update(i as int, d));
    true
}

/// Where drawing a secret stands: the digits placed so far and the number of
/// draws that repeated a digit.
pub open spec fn draw_done(st: (Seq<u8>, int), budget: int) -> bool {
    st.0.len() >= 4 || st.1 > budget
}

/// One more draw: once the secret is complete or more than `budget` draws
/// have repeated a digit nothing changes; otherwise the draw's last decimal
/// digit is placed next when it is new, and counted as a repeat when not.
pub open spec fn draw_step(st: (Seq<u8>, int), budget: int, d: u32) -> (Seq<u8>, int) {
    if draw_done(st, budget) {
        st
    } else if st.0.contains((d % 10) as u8) {
        (st.0, st.1 + 1)
    } else {
        (st.0.push((d % 10) as u8), st.1)
    }
}

/// Where drawing stands after the draws `draws`, in order.
pub open spec fn draw_state(draws: Seq<u32>, budget: int) -> (Seq<u8>, int)
    decreases draws.len(),
{
    if draws.len() == 0 {
        (seq![], 0)
    } else {
        draw_step(draw_state(draws.drop_last(), budget), budget, draws.last())
    }
}

/// The secret a run of draws makes: its four digits, or nothing when more
/// than `budget` draws repeat a digit before it is complete, or when the
/// draws run out first.
pub open spec fn secret_of_draws(draws: Seq<u32>, budget: int) -> Option<Seq<u8>> {
    let st = draw_state(draws, budget);
    if st.0.len() == 4 && st.1 <= budget {
        Some(st.0)
    } else {
        None
    }
}

/// Drawing only ever places new decimal digits, at most four of them, and
/// stops counting repeats one past the budget.
pub proof fn law_draws_place_distinct_digits(draws: Seq<u32>, budget: int)
    requires
        budget >= 0,
    ensures
        draw_state(draws, budget).0.len() <= 4,
        distinct_digits(draw_state(draws, budget).0, draw_state(draws, budget).0.len() as int),
        0 <= draw_state(draws, budget).1 <= budget + 1,
        draw_state(draws, budget).1 > budget ==> draw_state(draws, budget).0.len() < 4,
    decreases draws.len(),
{
    if draws.len() > 0 {
        law_draws_place_distinct_digits(draws.drop_last(), budget);
        let st = draw_state(draws.drop_last(), budget);
        let v = (draws.last() % 10) as u8;
        if !draw_done(st, budget) && !st.0.contains(v) {
            let p = st.0.push(v);
            assert forall|j: int, k: int| 0 <= j < k < p.len() implies p[j] != p[k] by {
                if k == p.len() - 1 {
                    assert(p[j] == st.0[j]);
                    if p[j] == p[k] {
                        assert(st.0.contains(v));
                    }
                }
            }
        }
    }
}

/// Once drawing is done, further draws change nothing.
proof fn lemma_done_stays(draws: Seq<u32>, k: int, budget: int)
    requires
        0 <= k <= draws.len(),
        draw_done(draw_state(draws.take(k), budget), budget),
    ensures
        draw_state(draws, budget) == draw_state(draws.take(k), budget),
    decreases draws.len(),
{
    if k < draws.len() {
        assert(draws.drop_last().take(k) =~= draws.take(k));
        lemma_done_stays(draws.drop_last(), k, budget);
    } else {
        assert(draws.take(k) =~= draws);
    }
}

/// Takes one draw while drawing a secret: `secret[0..*i]` holds the digits
/// placed, `*spent` the repeats counted up to `budget`, and `*over` whether
/// one more repeat came after that.
fn take_draw(
    secret: &mut [u8; 4],
    i: &mut usize,
    spent: &mut u64,
    over: &mut bool,
    budget: u64,
    d: u32,
)
    requires
        *old(i) < 4,
        !*old(over),
        *old(spent) <= budget,
    ensures
        (final(secret)@.take(*final(i) as int), if *final(over) {
            budget + 1
        } else {
            *final(spent) as int
        }) == draw_step((old(secret)@.take(*old(i) as int), *old(spent) as int), budget as int, d),
        final(secret)@.skip(*final(i) as int) == old(secret)@.skip(*final(i) as int),
        *final(i) <= 4,
        *final(spent) <= budget,
        *final(i) > *old(i) || *final(over) || *final(spent) > *old(spent),
        *final(i) >= *old(i),
        *final(spent) >= *old(spent),
{
    let ghost p = old(secret)@.take(*old(i) as int);
    let ghost v = (d % 10) as u8;
    let placed = place_digit(secret, *i, d);
    proof {
        if p.contains(v) {
            let j = choose|j: int| 0 <= j < p.len() && p[j] == v;
            assert(old(secret)@[j] == v);
        }
    }
    assert(p.len() == *i);
    assert(!draw_done((p, *spent as int), budget as int));
    if placed {
        assert(!p.contains(v));
        assert(secret@.take(*i + 1) =~= p.push(v));
        *i += 1;
        assert(secret@.skip(*i as int) =~= old(secret)@.skip(*i as int));
    } else {
        proof {
            let j = choose|j: int| 0 <= j < *i && old(secret)@[j] == v;
            assert(p[j] == v);
            assert(p.contains(v));
            assert(secret@.take(*i as int) =~= p);
        }
    }
    if placed {
    } else if *spent == budget {
        *over = true;
    } else {
        *spent += 1;
    }
}

/// The secret a run of draws makes (see [`secret_of_draws`]).
pub fn secret_from_draws(draws: &[u32], budget: u64) -> (r: Option<[u8; 4]>)
    ensures
        match r {
            Some(a) => secret_of_draws(draws@, budget as int) == Some(a@),
            None => secret_of_draws(draws@, budget as int) is None,
        },
{
    let mut secret = [0u8; 4];
    let mut i: usize = 0;
    let mut spent: u64 = 0;
    let mut over = false;
    let mut k: usize = 0;
    assert(draws@.take(0) =~= Seq::<u32>::empty());
    assert(secret@.take(0) =~= Seq::<u8>::empty());
    while k < draws.len() && i < 4 && !over
        invariant
            k <= draws@.len(),
            i <= 4,
            spent <= budget,
            (secret@.take(i as int), if over {
                budget + 1
            } else {
                spent as int
            }) == draw_state(draws@.take(k as int), budget as int),
        decreases draws.len() - k,
    {
        proof {
            assert(draws@.take(k + 1).drop_last() =~= draws@.take(k as int));
        }
        take_draw(&mut secret, &mut i, &mut spent, &mut over, budget, draws[k]);
        k += 1;
    }
    proof {
        let st = draw_state(draws@.take(k as int), budget as int);
        if k < draws.len() {
            lemma_done_stays(draws@, k as int, budget as int);
        } else {
            assert(draws@.take(k as int) =~= draws@);
        }
        assert(secret@.take(4) =~= secret@);
    }
    if i == 4 && !over {
        Some(secret)
    } else {
        None
    }
}

/// One draw for secret digit `i`: places a fresh digit or leaves the secret
/// as it was.  The first digit has nothing to differ from, so its draw
/// always succeeds; whether a later one does depends on the draw.  Repeating it until it succeeds, for `i` from 0 to 3, makes a
/// secret of four distinct digits.
pub fn gen_attempt(array: &mut [u8; 4], i: usize, rng: &mut SmallRng) -> (placed: bool)
    requires
        i < 4,
    ensures
        placed ==> final(array)@ == old(array)@.update(i as int, final(array)@[i as int]),
        placed ==> final(array)@[i as int] < 10,
        placed ==> forall|j: int| 0 <= j < i ==> old(array)@[j] != final(array)@[i as int],
        !placed ==> final(array)@ == old(array)@,
        i == 0 ==> placed,
        distinct_digits(old(array)@, i as int) && placed ==> distinct_digits(
            final(array)@,
            i + 1,
        ),
{
    let rand_num = next_random(rng);
    place_digit(array, i, rand_num)
}

/// A secret grown by successful draws is four distinct digits, which a
/// guess may copy.
pub proof fn law_drawn_secret_is_unique(a: Seq<u8>)
    requires
        a.len() == 4,
        distinct_digits(a, 4),
    ensures
        all_distinct(a),
{
}

/// The byte of a digit with its point lit.
pub open spec fn point_byte(v: u8) -> u8 {
    FullChar::Dot(digit_char((v % 10) as int)).spec_as_byte()
}

/// The byte of a digit without point.
pub open spec fn plain_byte(v: u8) -> u8 {
    FullChar::No(digit_char((v % 10) as int)).spec_as_byte()
}

/// The state of a game: the secret, the guess being edited and the
/// position of the digit under edit.
#[verifier::ext_equal]
pub struct GameState {
    pub secret: Seq<u8>,
    pub user: Seq<u8>,
    pub pos: u8,
}

/// What a key press did, and so what the caller does next.
#[derive(Copy, Clone, PartialEq, Eq, Structural, Debug)]
pub enum KeyOutcome {
    /// A key with no meaning: keep reading keys.
    Ignored,
    /// ENTER on a guess with a repeated digit: "Err" is shown; keep reading keys.
    Refused,
    /// The guess or the cursor changed and was redrawn: wait for the key's release.
    Moved,
    /// ENTER scored a guess that is not the secret: wait for the key's release.
    Scored { bulls: u8, cows: u8 },
    /// ENTER scored four bulls: the round is won.
    Won,
    /// ESC: the round is given up.
    Escaped,
}

/// The guess redrawn after an edit: the digit left loses its point, the
/// digit now under edit gets one.
pub open spec fn redrawn(g: GameState, d: DisplayState, last_pos: u8) -> DisplayState {
    printed_at(
        printed_at(d, plain_byte(g.user[last_pos as int]), (last_pos + 4) as usize),
        point_byte(g.user[g.pos as int]),
        (g.pos + 4) as usize,
    )
}

/// The display after scoring: bull and cow labels on digits 0 and 2, the
/// counts on digits 1 and 3.
pub open spec fn scored(d: DisplayState, bulls: u8, cows: u8) -> DisplayState {
    printed_at(
        printed_at(
            printed_at(
                printed_at(d, FullChar::Custom(0b0111_1111u8).spec_as_byte(), 0),
                FullChar::Custom(0b0011_1001u8).spec_as_byte(),
                2,
            ),
            plain_byte(cows),
            3,
        ),
        plain_byte(bulls),
        1,
    )
}

/// A key without number whose label is `text`.
pub open spec fn named(key: Button, text: Seq<char>) -> bool {
    key.digit is None && key.string@ == text
}

/// The game and display after `key`, and what it did.
pub open spec fn key_step(g: GameState, d: DisplayState, key: Button) -> (
    GameState,
    DisplayState,
    KeyOutcome,
) {
    let p = g.pos;
    match key.digit {
        Some(v) => {
            let g1 = GameState { user: g.user.update(p as int, v), pos: p.incremented(4), ..g };
            (g1, redrawn(g1, printed_at(d, point_byte(v), (p + 4) as usize), p), KeyOutcome::Moved)
        },
        None => {
            if key.string@ == "UP"@ {
                let g1 = GameState { user: g.user.update(p as int, g.user[p as int].incremented(10)), ..g };
                (g1, redrawn(g1, d, p), KeyOutcome::Moved)
            } else if key.string@ == "DOWN"@ {
                let g1 = GameState { user: g.user.update(p as int, g.user[p as int].decremented(10)), ..g };
                (g1, redrawn(g1, d, p), KeyOutcome::Moved)
            } else if key.string@ == "LEFT"@ {
                let g1 = GameState { pos: p.decremented(4), ..g };
                (g1, redrawn(g1, d, p), KeyOutcome::Moved)
            } else if key.string@ == "RIGHT"@ {
                let g1 = GameState { pos: p.incremented(4), ..g };
                (g1, redrawn(g1, d, p), KeyOutcome::Moved)
            } else if key.string@ == "ESC"@ {
                (g, d, KeyOutcome::Escaped)
            } else if key.string@ == "ENTER"@ {
                if !all_distinct(g.user) {
                    (g, shown(d, full_char_bytes(err_seq()), 0, 0), KeyOutcome::Refused)
                } else {
                    let b = bulls_of(g.user, g.secret) as u8;
                    let c = cows_of(g.user, g.secret) as u8;
                    if b == 4 {
                        (g, scored(d, b, c), KeyOutcome::Won)
                    } else {
                        (g, redrawn(g, scored(d, b, c), p), KeyOutcome::Scored { bulls: b, cows: c })
                    }
                }
            } else {
                (g, d, KeyOutcome::Ignored)
            }
        },
    }
}

/// `str` equality: whether the two strings hold the same characters.
#[verifier::external_body]
fn same_text(a: &str, b: &str) -> (r: bool)
    ensures
        r == (a@ == b@),
{
    a == b
}

/// Whether digits 4..8 of the display show the guess, the digit under edit
/// with its point lit.
pub open spec fn shows_guess(g: GameState, d: DisplayState) -> bool {
    &&& d.digits.len() == 8
    &&& forall|i: int|
        0 <= i < 4 ==> #[trigger] d.digits[4 + i] == if i == g.pos {
            point_byte(g.user[i])
        } else {
            plain_byte(g.user[i])
        }
}

/// The display after the round ends: the left four digits blanked.
pub open spec fn round_cleared(d: DisplayState) -> DisplayState {
    shown(d, seq![0u8, 0u8, 0u8, 0u8], 0, 0)
}

/// A round of bulls and cows in progress.
pub struct Game {
    secret: [u8; 4],
    user: [u8; 4],
    pos: u8,
}

impl Game {
    #[verifier::type_invariant]
    spec fn well_formed(self) -> bool {
        self.pos < 4
    }
}

impl View for Game {
    type V = GameState;

    closed spec fn view(&self) -> GameState {
        GameState { secret: self.secret@, user: self.user@, pos: self.pos }
    }
}

impl Game {
    /// A game holds a guess and a secret of four digits each.
    pub proof fn law_four_digits(&self)
        ensures
            self@.user.len() == 4,
            self@.secret.len() == 4,
    {
    }

    /// The guess the game starts with.
    pub open spec fn initial() -> GameState {
        GameState { secret: seq![0u8, 1u8, 2u8, 3u8], user: seq![0u8, 0u8, 0u8, 0u8], pos: 0 }
    }

    /// Starts the game: shows the guess 0000 on digits 4..8 with the point on
    /// the first digit.  The secret is 0123 until one is drawn.
    pub fn start(display: &mut TMI1638) -> (g: Game)
        ensures
            g@ == Self::initial(),
            final(display)@ == printed_at(
                shown(old(display)@, number_bytes(seq![0u8, 0u8, 0u8, 0u8]), 0, 4),
                point_byte(0),
                4,
            ),
    {
        let secret: [u8; 4] = [0, 1, 2, 3];
        let user = [0u8; 4];
        assert(user@ =~= seq![0u8, 0u8, 0u8, 0u8]);
        display.println(user.as_slice(), 4);
        let pos: u8 = 0;
        display.print_at(FullChar::Dot(Char::from(user[pos as usize])), (pos as usize) + 4);
        let g = Game { secret, user, pos };
        assert(g@ =~= Self::initial());
        g
    }

    pub fn secret(&self) -> (s: [u8; 4])
        ensures
            s@ == self@.secret,
    {
        self.secret
    }

    pub fn user(&self) -> (u: [u8; 4])
        ensures
            u@ == self@.user,
    {
        self.user
    }

    pub fn pos(&self) -> (p: u8)
        ensures
            p == self@.pos,
            p < 4,
    {
        proof {
            use_type_invariant(self);
        }
        self.pos
    }

    /// Draws a new secret of four distinct digits, digit by digit, drawing
    /// each again until it differs from those before it, and allowing at
    /// most `budget` repeated draws in all.  Returns whether the secret was
    /// completed and the draws taken from the generator, in order: the secret
    /// is what [`secret_from_draws`] makes of them.  On giving up, the digits
    /// placed so far stand in front of the old secret's remaining digits.
    pub fn draw_secret(&mut self, rng: &mut SmallRng, budget: u64) -> (res: (bool, Vec<u32>))
        ensures
            res.0 == (secret_of_draws(res.1@, budget as int) is Some),
            res.0 ==> secret_of_draws(res.1@, budget as int) == Some(final(self)@.secret),
            draw_done(draw_state(res.1@, budget as int), budget as int),
            forall|k: int|
                0 <= k < res.1@.len() ==> !draw_done(
                    #[trigger] draw_state(res.1@.take(k), budget as int),
                    budget as int,
                ),
            final(self)@.secret == draw_state(res.1@, budget as int).0 + old(self)@.secret.skip(
                draw_state(res.1@, budget as int).0.len() as int,
            ),
            res.0 ==> distinct_digits(final(self)@.secret, 4),
            final(self)@.user == old(self)@.user,
            final(self)@.pos == old(self)@.pos,
    {
        proof {
            use_type_invariant(&*self);
        }
        let mut secret = self.secret;
        let mut i: usize = 0;
        let mut spent: u64 = 0;
        let mut over = false;
        let mut draws: Vec<u32> = Vec::new();
        assert(secret@.take(0) =~= Seq::<u8>::empty());
        while i < 4 && !over
            invariant
                i <= 4,
                spent <= budget,
                (secret@.take(i as int), if over {
                    budget + 1
                } else {
                    spent as int
                }) == draw_state(draws@, budget as int),
                secret@.skip(i as int) == self.secret@.skip(i as int),
                forall|k: int|
                    0 <= k < draws@.len() ==> !draw_done(
                        #[trigger] draw_state(draws@.take(k), budget as int),
                        budget as int,
                    ),
            decreases 4 - i, 2 * (budget - spent) + if over {
                0int
            } else {
                1int
            },
        {
            let d = next_random(rng);
            let ghost before = draws@;
            assert(!draw_done(draw_state(before, budget as int), budget as int));
            draws.push(d);
            proof {
                assert(draws@.drop_last() =~= before);
                assert forall|k: int|
                    0 <= k < draws@.len() implies !draw_done(
                        #[trigger] draw_state(draws@.take(k), budget as int),
                        budget as int,
                    ) by {
                    if k < before.len() {
                        assert(draws@.take(k) =~= before.take(k));
                    } else {
                        assert(draws@.take(k) =~= before);
                    }
                }
            }
            let ghost old_i = i;
            take_draw(&mut secret, &mut i, &mut spent, &mut over, budget, d);
            proof {
                assert(secret@.skip(i as int) =~= self.secret@.skip(i as int)) by {
                    assert forall|j: int| 0 <= j < secret@.skip(i as int).len() implies secret@.skip(i as int)[j] == self.secret@.skip(i as int)[j] by {
                        assert(self.secret@.skip(old_i as int)[j + (i - old_i)] == self.secret@[i + j]);
                    }
                }
            }
        }
        let ghost st = draw_state(draws@, budget as int);
        proof {
            law_draws_place_distinct_digits(draws@, budget as int);
            assert(secret@ =~= secret@.take(i as int) + secret@.skip(i as int));
        }
        self.secret = secret;
        assert(self@.secret =~= st.0 + old(self)@.secret.skip(st.0.len() as int));
        (i == 4 && !over, draws)
    }

    /// One draw for secret digit `i` (see [`gen_attempt`]).
    pub fn draw_secret_digit(&mut self, i: usize, rng: &mut SmallRng) -> (placed: bool)
        requires
            i < 4,
        ensures
            placed ==> final(self)@ == (GameState {
                secret: old(self)@.secret.update(i as int, final(self)@.secret[i as int]),
                ..old(self)@
            }),
            placed ==> final(self)@.secret[i as int] < 10,
            placed ==> forall|j: int|
                0 <= j < i ==> old(self)@.secret[j] != final(self)@.secret[i as int],
            !placed ==> final(self)@ == old(self)@,
            i == 0 ==> placed,
            distinct_digits(old(self)@.secret, i as int) && placed ==> distinct_digits(
                final(self)@.secret,
                i + 1,
            ),
    {
        proof {
            use_type_invariant(&*self);
        }
        let mut secret = self.secret;
        let placed = gen_attempt(&mut secret, i, rng);
        self.secret = secret;
        assert(placed ==> self@ =~= (GameState {
            secret: old(self)@.secret.update(i as int, self@.secret[i as int]),
            ..old(self)@
        }));
        assert(!placed ==> self@ =~= old(self)@);
        placed
    }

    /// Ends a round: "____" on the left half blanks it (an underscore has
    /// no glyph).
    pub fn end_round(&self, display: &mut TMI1638)
        ensures
            final(display)@ == round_cleared(old(display)@),
    {
        let text = "____";
        proof {
            reveal_strlit("____");
            vstd::string::is_ascii_spec_bytes(text);
            assert(text.spec_bytes() =~= seq![0x5fu8, 0x5fu8, 0x5fu8, 0x5fu8]);
            assert(text_bytes(text.spec_bytes()) =~= seq![0u8, 0u8, 0u8, 0u8]);
        }
        display.println(text, 0);
    }

    /// Whether `on_key` may take `key`: UP on a digit of 255 would overflow.
    pub fn can_take(&self, key: &Button) -> (r: bool)
        ensures
            r == !(named(*key, "UP"@) && self@.user[self@.pos as int] == 255),
    {
        proof {
            use_type_invariant(self);
        }
        !(key.digit.is_none() && same_text(key.string, "UP") && self.user[self.pos as usize] == 255)
    }

    /// Reacts to one key press.
    pub fn on_key(&mut self, display: &mut TMI1638, key: &Button) -> (o: KeyOutcome)
        requires
            !(named(*key, "UP"@) && old(self)@.user[old(self)@.pos as int] == 255),
        ensures
            final(self)@ == key_step(old(self)@, old(display)@, *key).0,
            final(display)@ == key_step(old(self)@, old(display)@, *key).1,
            o == key_step(old(self)@, old(display)@, *key).2,
            final(self)@.pos < 4,
    {
        proof {
            use_type_invariant(&*self);
        }
        let last_pos = self.pos;
        let outcome;
        match key.digit {
            Some(digit) => {
                self.user[self.pos as usize] = digit;
                display.print_at(FullChar::Dot(Char::from(self.user[self.pos as usize])), (self.pos as usize) + 4);
                let mut p = self.pos;
                p.inc(4);
                self.pos = p;
                outcome = KeyOutcome::Moved;
            },
            None => {
                if same_text(key.string, "UP") {
                    let mut v = self.user[self.pos as usize];
                    v.inc(10);
                    self.user[self.pos as usize] = v;
                    outcome = KeyOutcome::Moved;
                } else if same_text(key.string, "DOWN") {
                    let mut v = self.user[self.pos as usize];
                    v.dec(10);
                    self.user[self.pos as usize] = v;
                    outcome = KeyOutcome::Moved;
                } else if same_text(key.string, "LEFT") {
                    let mut p = self.pos;
                    p.dec(4);
                    self.pos = p;
                    outcome = KeyOutcome::Moved;
                } else if same_text(key.string, "RIGHT") {
                    let mut p = self.pos;
                    p.inc(4);
                    self.pos = p;
                    outcome = KeyOutcome::Moved;
                } else if same_text(key.string, "ESC") {
                    return KeyOutcome::Escaped;
                } else if same_text(key.string, "ENTER") {
                    if !check_is_uniq(&self.user) {
                        let err = err_symbols();
                        display.println(err.as_slice(), 0);
                        return KeyOutcome::Refused;
                    }
                    let bulls = count_bulls(&self.user, &self.secret);
                    let cows = count_cows(&self.user, &self.secret);
                    display.print_at(char_bull(), 0);
                    display.print_at(char_cow(), 2);
                    display.print_at(FullChar::from(cows), 3);
                    display.print_at(FullChar::from(bulls), 1);
                    if bulls == 4 {
                        return KeyOutcome::Won;
                    }
                    outcome = KeyOutcome::Scored { bulls, cows };
                } else {
                    return KeyOutcome::Ignored;
                }
            },
        }
        display.print_at(FullChar::No(Char::from(self.user[last_pos as usize])), (last_pos as usize) + 4);
        display.print_at(FullChar::Dot(Char::from(self.user[self.pos as usize])), (self.pos as usize) + 4);
        outcome
    }
}

/// The running light shown after a won round: one led lit, stepping right
/// until a key is pressed after all keys were released.
pub struct WinLights {
    c: u8,
    one_time_low: bool,
}

impl WinLights {
    #[verifier::type_invariant]
    spec fn well_formed(self) -> bool {
        self.c < 8
    }
}

impl View for WinLights {
    /// The lit led and whether all keys have been seen released.
    type V = (u8, bool);

    closed spec fn view(&self) -> (u8, bool) {
        (self.c, self.one_time_low)
    }
}

impl WinLights {
    /// The light on led 0, no release seen yet.
    pub fn new() -> (w: Self)
        ensures
            w@ == (0u8, false),
    {
        WinLights { c: 0, one_time_low: false }
    }

    /// Moves the light one led to the right, wrapping after the last.
    pub fn step(&mut self, display: &mut TMI1638)
        ensures
            final(self)@ == (old(self)@.0.incremented(8), old(self)@.1),
            final(display)@ == led_set(
                led_set(old(display)@, false, old(self)@.0),
                true,
                old(self)@.0.incremented(8),
            ),
            final(self)@.0 < 8,
    {
        proof {
            use_type_invariant(&*self);
        }
        display.set_led(false, self.c as usize);
        let mut c = self.c;
        c.inc(8);
        self.c = c;
        display.set_led(true, self.c as usize);
    }

    /// Takes a key scan into account; tells whether the light stops: a key
    /// is down and all keys were released at some earlier scan.
    pub fn observe<'d, const ROW_N: usize, const COL_N: usize>(
        &mut self,
        keypad: &KeyPad<'d, ROW_N, COL_N>,
    ) -> (stop: bool)
        ensures
            final(self)@ == (old(self)@.0, old(self)@.1 || ones_count(keypad.buffer) == 0),
            stop == (final(self)@.1 && ones_count(keypad.buffer) != 0),
    {
        proof {
            use_type_invariant(&*self);
        }
        if keypad.buffer.count_ones() == 0 {
            self.one_time_low = true
        }
        self.one_time_low && keypad.buffer.count_ones() != 0
    }

    /// Switches the light off.
    pub fn finish(&self, display: &mut TMI1638)
        ensures
            final(display)@ == led_set(old(display)@, false, self@.0),
    {
        proof {
            use_type_invariant(self);
        }
        display.set_led(false, self.c as usize);
    }
}

proof fn lemma_printed_digits(d: DisplayState, b: u8, p: usize)
    ensures
        printed_at(d, b, p).digits == d.digits.update((p % 8) as int, b),
{
}

proof fn lemma_redrawn_digits(g: GameState, d: DisplayState, last: u8)
    requires
        last < 4,
        g.pos < 4,
    ensures
        redrawn(g, d, last).digits == d.digits.update(4 + last as int, plain_byte(g.user[last as int])).update(
            4 + g.pos as int,
            point_byte(g.user[g.pos as int]),
        ),
{
    let d1 = printed_at(d, plain_byte(g.user[last as int]), (last + 4) as usize);
    lemma_printed_digits(d, plain_byte(g.user[last as int]), (last + 4) as usize);
    lemma_printed_digits(d1, point_byte(g.user[g.pos as int]), (g.pos + 4) as usize);
}

proof fn lemma_scored_digits(d: DisplayState, b: u8, c: u8)
    requires
        d.digits.len() == 8,
    ensures
        scored(d, b, c).digits.len() == 8,
        forall|k: int| 4 <= k < 8 ==> scored(d, b, c).digits[k] == d.digits[k],
{
    let d1 = printed_at(d, FullChar::Custom(0b0111_1111u8).spec_as_byte(), 0);
    let d2 = printed_at(d1, FullChar::Custom(0b0011_1001u8).spec_as_byte(), 2);
    let d3 = printed_at(d2, plain_byte(c), 3);
    lemma_printed_digits(d, FullChar::Custom(0b0111_1111u8).spec_as_byte(), 0);
    lemma_printed_digits(d1, FullChar::Custom(0b0011_1001u8).spec_as_byte(), 2);
    lemma_printed_digits(d2, plain_byte(c), 3);
    lemma_printed_digits(d3, plain_byte(b), 1);
}

proof fn lemma_left_half_shown(d: DisplayState, bytes: Seq<u8>)
    requires
        d.digits.len() == 8,
        bytes.len() == 4,
    ensures
        shown(d, bytes, 0, 0).digits.len() == 8,
        forall|k: int| 4 <= k < 8 ==> shown(d, bytes, 0, 0).digits[k] == d.digits[k],
{
}

/// Digits 4..8 always show the guess: whatever key is pressed, if they
/// showed it before, they show the guess after the key.
pub proof fn law_key_keeps_guess_shown(g: GameState, d: DisplayState, key: Button)
    requires
        g.user.len() == 4,
        g.pos < 4,
        shows_guess(g, d),
    ensures
        shows_guess(key_step(g, d, key).0, key_step(g, d, key).1),
        key_step(g, d, key).0.pos < 4,
        key_step(g, d, key).0.user.len() == 4,
{
    let p = g.pos;
    match key.digit {
        Some(v) => {
            let g1 = GameState { user: g.user.update(p as int, v), pos: p.incremented(4), ..g };
            let d1 = printed_at(d, point_byte(v), (p + 4) as usize);
            lemma_printed_digits(d, point_byte(v), (p + 4) as usize);
            lemma_redrawn_digits(g1, d1, p);
        },
        None => {
            if key.string@ == "UP"@ {
                let g1 = GameState { user: g.user.update(p as int, g.user[p as int].incremented(10)), ..g };
                lemma_redrawn_digits(g1, d, p);
            } else if key.string@ == "DOWN"@ {
                let g1 = GameState { user: g.user.update(p as int, g.user[p as int].decremented(10)), ..g };
                lemma_redrawn_digits(g1, d, p);
            } else if key.string@ == "LEFT"@ {
                let g1 = GameState { pos: p.decremented(4), ..g };
                lemma_redrawn_digits(g1, d, p);
            } else if key.string@ == "RIGHT"@ {
                let g1 = GameState { pos: p.incremented(4), ..g };
                lemma_redrawn_digits(g1, d, p);
            } else if key.string@ == "ESC"@ {
            } else if key.string@ == "ENTER"@ {
                if !all_distinct(g.user) {
                    assert(full_char_bytes(err_seq()).len() == 4);
                    lemma_left_half_shown(d, full_char_bytes(err_seq()));
                } else {
                    let b = bulls_of(g.user, g.secret) as u8;
                    let c = cows_of(g.user, g.secret) as u8;
                    lemma_scored_digits(d, b, c);
                    if b != 4 {
                        lemma_redrawn_digits(g, scored(d, b, c), p);
                    }
                }
            } else {
            }
        },
    }
}

/// A game in play: the position names a digit, every guess digit is a
/// decimal digit, the secret is four distinct decimal digits, and digits 4..8
/// of the display show the guess.
pub open spec fn playing(g: GameState, d: DisplayState) -> bool {
    &&& g.pos < 4
    &&& g.user.len() == 4
    &&& g.secret.len() == 4
    &&& forall|k: int| 0 <= k < 4 ==> g.user[k] < 10
    &&& distinct_digits(g.secret, 4)
    &&& shows_guess(g, d)
}

/// A key whose label reads as a single decimal digit or as no number.
pub open spec fn decimal_key(key: Button) -> bool {
    match key.digit {
        Some(v) => v < 10,
        None => true,
    }
}

/// Keys that read as at most one decimal digit keep a game in play; the
/// secret is never changed by a key.
pub proof fn law_key_keeps_playing(g: GameState, d: DisplayState, key: Button)
    requires
        playing(g, d),
        decimal_key(key),
    ensures
        playing(key_step(g, d, key).0, key_step(g, d, key).1),
        key_step(g, d, key).0.secret == g.secret,
{
    law_key_keeps_guess_shown(g, d, key);
}

/// The game and display after the keys of `keys`, in order.
pub open spec fn keys_played(g: GameState, d: DisplayState, keys: Seq<Button>) -> (
    GameState,
    DisplayState,
)
    decreases keys.len(),
{
    if keys.len() == 0 {
        (g, d)
    } else {
        let before = keys_played(g, d, keys.drop_last());
        let after = key_step(before.0, before.1, keys.last());
        (after.0, after.1)
    }
}

/// Any run of keys that read as at most one decimal digit keeps a game in
/// play and its secret unchanged.
pub proof fn law_keys_keep_playing(g: GameState, d: DisplayState, keys: Seq<Button>)
    requires
        playing(g, d),
        forall|i: int| 0 <= i < keys.len() ==> decimal_key(#[trigger] keys[i]),
    ensures
        playing(keys_played(g, d, keys).0, keys_played(g, d, keys).1),
        keys_played(g, d, keys).0.secret == g.secret,
    decreases keys.len(),
{
    if keys.len() > 0 {
        let rest = keys.drop_last();
        assert forall|i: int| 0 <= i < rest.len() implies decimal_key(#[trigger] rest[i]) by {
            assert(rest[i] == keys[i]);
        }
        law_keys_keep_playing(g, d, rest);
        let before = keys_played(g, d, rest);
        assert(decimal_key(keys[keys.len() - 1]));
        law_key_keeps_playing(before.0, before.1, keys.last());
    }
}

/// The game starts in play.
pub proof fn law_start_is_playing(d: DisplayState)
    requires
        d.digits.len() == 8,
    ensures
        playing(
            Game::initial(),
            printed_at(shown(d, number_bytes(seq![0u8, 0u8, 0u8, 0u8]), 0, 4), point_byte(0), 4),
        ),
{
    law_start_shows_guess(d);
}

/// Replacing the secret by a newly drawn one of four distinct digits,
/// ending a round and running the win lights keep a game in play.
pub proof fn law_round_keeps_playing(g: GameState, d: DisplayState, secret: Seq<u8>, on: bool, p: u8)
    requires
        playing(g, d),
        secret.len() == 4,
        distinct_digits(secret, 4),
    ensures
        playing(GameState { secret: secret, ..g }, d),
        playing(g, round_cleared(d)),
        playing(g, led_set(d, on, p)),
{
    law_end_round_keeps_guess_shown(g, d);
}

/// The game starts with its guess shown.
pub proof fn law_start_shows_guess(d: DisplayState)
    requires
        d.digits.len() == 8,
    ensures
        shows_guess(
            Game::initial(),
            printed_at(shown(d, number_bytes(seq![0u8, 0u8, 0u8, 0u8]), 0, 4), point_byte(0), 4),
        ),
{
    let d1 = shown(d, number_bytes(seq![0u8, 0u8, 0u8, 0u8]), 0, 4);
    assert(number_bytes(seq![0u8, 0u8, 0u8, 0u8]).len() == 4);
    lemma_printed_digits(d1, point_byte(0), 4);
}

/// Ending a round leaves the guess shown.
pub proof fn law_end_round_keeps_guess_shown(g: GameState, d: DisplayState)
    requires
        shows_guess(g, d),
    ensures
        shows_guess(g, round_cleared(d)),
{
    lemma_left_half_shown(d, seq![0u8, 0u8, 0u8, 0u8]);
}

/// The running light leaves the guess alone.
pub proof fn law_lights_keep_guess_shown(g: GameState, d: DisplayState, on: bool, p: u8)
    requires
        shows_guess(g, d),
    ensures
        shows_guess(g, led_set(d, on, p)),
{
}

/// 1 when `b` holds, 0 otherwise.
pub open spec fn one_if(b: bool) -> int {
    if b {
        1
    } else {
        0
    }
}

/// The bulls of a guess are the positions where guess and secret agree,
/// each position counted on its own.
pub proof fn law_bulls_count_positions(user: Seq<u8>, secret: Seq<u8>)
    requires
        user.len() == 4,
        secret.len() == 4,
    ensures
        bulls_of(user, secret) == one_if(user[0] == secret[0]) + one_if(user[1] == secret[1])
            + one_if(user[2] == secret[2]) + one_if(user[3] == secret[3]),
{
    reveal_with_fuel(bulls_upto, 5);
}

/// The cows that guess digit `i` scores: the secret positions other than
/// `i` holding it.
pub open spec fn cows_of_digit(user: Seq<u8>, secret: Seq<u8>, i: int) -> int {
    one_if(i != 0 && user[i] == secret[0]) + one_if(i != 1 && user[i] == secret[1]) + one_if(
        i != 2 && user[i] == secret[2],
    ) + one_if(i != 3 && user[i] == secret[3])
}

/// The cows of a guess are the pairs of a guess position `i` and another
/// secret position `j` with the same digit, whatever the digit.
pub proof fn law_cows_count_pairs(user: Seq<u8>, secret: Seq<u8>)
    requires
        user.len() == 4,
        secret.len() == 4,
    ensures
        cows_of(user, secret) == cows_of_digit(user, secret, 0) + cows_of_digit(user, secret, 1)
            + cows_of_digit(user, secret, 2) + cows_of_digit(user, secret, 3),
{
    reveal_with_fuel(cows_upto, 5);
    reveal_with_fuel(cows_at, 5);
}

/// A guess that holds the digits of a secret of distinct digits in any
/// order scores four: each digit is a bull or a cow.
pub proof fn law_permutation_scores_four(user: Seq<u8>, secret: Seq<u8>)
    requires
        user.len() == 4,
        secret.len() == 4,
        all_distinct(secret),
        forall|i: int| 0 <= i < 4 ==> secret.contains(#[trigger] user[i]),
    ensures
        bulls_of(user, secret) + cows_of(user, secret) == 4,
{
    law_bulls_count_positions(user, secret);
    law_cows_count_pairs(user, secret);
    assert forall|i: int| 0 <= i < 4 implies one_if(user[i] == secret[i]) + cows_of_digit(
        user,
        secret,
        i,
    ) == 1 by {
        assert(secret.contains(user[i]));
        let j = choose|j: int| 0 <= j < secret.len() && secret[j] == user[i];
        assert(secret[j] == user[i]);
    }
    assert(one_if(user[0] == secret[0]) + cows_of_digit(user, secret, 0) == 1);
    assert(one_if(user[1] == secret[1]) + cows_of_digit(user, secret, 1) == 1);
    assert(one_if(user[2] == secret[2]) + cows_of_digit(user, secret, 2) == 1);
    assert(one_if(user[3] == secret[3]) + cows_of_digit(user, secret, 3) == 1);
}

/// The labels of the game's keys are all different.
proof fn lemma_labels_differ()
    ensures
        "UP"@ != "DOWN"@,
        "UP"@ != "LEFT"@,
        "UP"@ != "RIGHT"@,
        "UP"@ != "ESC"@,
        "UP"@ != "ENTER"@,
        "DOWN"@ != "LEFT"@,
        "DOWN"@ != "RIGHT"@,
        "DOWN"@ != "ESC"@,
        "DOWN"@ != "ENTER"@,
        "LEFT"@ != "RIGHT"@,
        "LEFT"@ != "ESC"@,
        "LEFT"@ != "ENTER"@,
        "RIGHT"@ != "ESC"@,
        "RIGHT"@ != "ENTER"@,
        "ESC"@ != "ENTER"@,
{
    reveal_strlit("UP");
    reveal_strlit("DOWN");
    reveal_strlit("LEFT");
    reveal_strlit("RIGHT");
    reveal_strlit("ESC");
    reveal_strlit("ENTER");
    assert("UP"@.len() != "DOWN"@.len());
    assert("UP"@.len() != "LEFT"@.len());
    assert("UP"@.len() != "RIGHT"@.len());
    assert("UP"@.len() != "ESC"@.len());
    assert("UP"@.len() != "ENTER"@.len());
    assert("DOWN"@[0] != "LEFT"@[0]);
    assert("DOWN"@.len() != "RIGHT"@.len());
    assert("DOWN"@.len() != "ESC"@.len());
    assert("DOWN"@.len() != "ENTER"@.len());
    assert("LEFT"@.len() != "RIGHT"@.len());
    assert("LEFT"@.len() != "ESC"@.len());
    assert("LEFT"@.len() != "ENTER"@.len());
    assert("RIGHT"@.len() != "ESC"@.len());
    assert("RIGHT"@[0] != "ENTER"@[0]);
    assert("ESC"@.len() != "ENTER"@.len());
}

/// ENTER on a guess of distinct digits wins the round exactly when the guess
/// is the secret; otherwise it scores the guess: its bulls are the positions
/// that agree, its cows the pairs of a guess digit and an equal secret digit
/// elsewhere.  The guess and cursor stay as they were.
pub proof fn law_enter_scores_or_wins(g: GameState, d: DisplayState, key: Button)
    requires
        g.user.len() == 4,
        g.secret.len() == 4,
        named(key, "ENTER"@),
        all_distinct(g.user),
    ensures
        (key_step(g, d, key).2 == KeyOutcome::Won) <==> g.user == g.secret,
        g.user != g.secret ==> key_step(g, d, key).2 == (KeyOutcome::Scored {
            bulls: (one_if(g.user[0] == g.secret[0]) + one_if(g.user[1] == g.secret[1]) + one_if(
                g.user[2] == g.secret[2],
            ) + one_if(g.user[3] == g.secret[3])) as u8,
            cows: (cows_of_digit(g.user, g.secret, 0) + cows_of_digit(g.user, g.secret, 1)
                + cows_of_digit(g.user, g.secret, 2) + cows_of_digit(g.user, g.secret, 3)) as u8,
        }),
        key_step(g, d, key).0 == g,
{
    lemma_labels_differ();
    law_bulls_count_positions(g.user, g.secret);
    law_cows_count_pairs(g.user, g.secret);
    if g.user == g.secret {
        assert(bulls_of(g.user, g.secret) == 4);
    } else {
        let k = choose|k: int| 0 <= k < 4 && g.user[k] != g.secret[k];
        if g.user[0] == g.secret[0] && g.user[1] == g.secret[1] && g.user[2] == g.secret[2]
            && g.user[3] == g.secret[3] {
            assert(g.user =~= g.secret);
        }
        assert(bulls_of(g.user, g.secret) < 4);
    }
}

/// ENTER on a guess with a repeated digit is refused and changes nothing of
/// the game.
pub proof fn law_enter_refuses_repeats(g: GameState, d: DisplayState, key: Button)
    requires
        named(key, "ENTER"@),
        !all_distinct(g.user),
    ensures
        key_step(g, d, key).2 == KeyOutcome::Refused,
        key_step(g, d, key).0 == g,
{
    lemma_labels_differ();
}

/// Editing keys on a game in play: a digit key writes its number under the
/// cursor and moves the cursor one right; UP and DOWN step the digit under the
/// cursor by one, wrapping between 9 and 0; RIGHT and LEFT move the cursor
/// one place, wrapping between the ends; ESC gives up the round.
pub proof fn law_editing_keys(g: GameState, d: DisplayState, key: Button)
    requires
        g.user.len() == 4,
        g.pos < 4,
        g.user[g.pos as int] < 10,
    ensures
        key.digit is Some ==> key_step(g, d, key).0 == (GameState {
            user: g.user.update(g.pos as int, key.digit->0),
            pos: ((g.pos + 1) % 4) as u8,
            ..g
        }),
        named(key, "UP"@) ==> key_step(g, d, key).0 == (GameState {
            user: g.user.update(g.pos as int, ((g.user[g.pos as int] + 1) % 10) as u8),
            ..g
        }),
        named(key, "DOWN"@) ==> key_step(g, d, key).0 == (GameState {
            user: g.user.update(g.pos as int, ((g.user[g.pos as int] + 9) % 10) as u8),
            ..g
        }),
        named(key, "RIGHT"@) ==> key_step(g, d, key).0 == (GameState {
            pos: ((g.pos + 1) % 4) as u8,
            ..g
        }),
        named(key, "LEFT"@) ==> key_step(g, d, key).0 == (GameState {
            pos: ((g.pos + 3) % 4) as u8,
            ..g
        }),
        named(key, "ESC"@) ==> key_step(g, d, key).0 == g && key_step(g, d, key).2
            == KeyOutcome::Escaped,
{
    lemma_labels_differ();
}

/// LEFT undoes RIGHT and RIGHT undoes LEFT: the cursor comes back.
pub proof fn law_left_undoes_right(
    g: GameState,
    d: DisplayState,
    left: Button,
    right: Button,
)
    requires
        g.user.len() == 4,
        g.pos < 4,
        named(left, "LEFT"@),
        named(right, "RIGHT"@),
    ensures
        key_step(key_step(g, d, right).0, key_step(g, d, right).1, left).0 == g,
        key_step(key_step(g, d, left).0, key_step(g, d, left).1, right).0 == g,
{
    lemma_labels_differ();
    let r = key_step(g, d, right).0;
    let l = key_step(g, d, left).0;
    assert(key_step(r, key_step(g, d, right).1, left).0 =~= g);
    assert(key_step(l, key_step(g, d, left).1, right).0 =~= g);
}

/// Each draw stands for its last decimal digit: while the secret is being
/// drawn, a draw whose last digit is new is placed next, and one whose last
/// digit is already placed counts as a repeat.
pub proof fn law_draw_uses_last_digit(draws: Seq<u32>, budget: int, d: u32)
    requires
        !draw_done(draw_state(draws, budget), budget),
    ensures
        ({
            let before = draw_state(draws, budget);
            let after = draw_state(draws.push(d), budget);
            if exists|j: int| 0 <= j < before.0.len() && before.0[j] == d % 10 {
                after == (before.0, before.1 + 1)
            } else {
                after.0 == before.0.push((d % 10) as u8) && after.1 == before.1
            }
        }),
{
    let before = draw_state(draws, budget);
    assert(draws.push(d).drop_last() =~= draws);
    if exists|j: int| 0 <= j < before.0.len() && before.0[j] == d % 10 {
        let j = choose|j: int| 0 <= j < before.0.len() && before.0[j] == d % 10;
        assert(before.0[j] == (d % 10) as u8);
        assert(before.0.contains((d % 10) as u8));
    } else {
        if before.0.contains((d % 10) as u8) {
            let j = choose|j: int| 0 <= j < before.0.len() && before.0[j] == (d % 10) as u8;
            assert(before.0[j] == d % 10);
        }
    }
}

/// Four draws with different last decimal digits make the secret of those
/// digits, in order, whatever the budget.
pub proof fn law_four_fresh_draws(d0: u32, d1: u32, d2: u32, d3: u32, budget: int)
    requires
        budget >= 0,
        d0 % 10 != d1 % 10,
        d0 % 10 != d2 % 10,
        d0 % 10 != d3 % 10,
        d1 % 10 != d2 % 10,
        d1 % 10 != d3 % 10,
        d2 % 10 != d3 % 10,
    ensures
        secret_of_draws(seq![d0, d1, d2, d3], budget) == Some(
            seq![(d0 % 10) as u8, (d1 % 10) as u8, (d2 % 10) as u8, (d3 % 10) as u8],
        ),
{
    let s0 = Seq::<u32>::empty();
    let s1 = s0.push(d0);
    let s2 = s1.push(d1);
    let s3 = s2.push(d2);
    let s4 = s3.push(d3);
    assert(s4 =~= seq![d0, d1, d2, d3]);
    assert(draw_state(s0, budget) == (Seq::<u8>::empty(), 0int));
    law_draw_uses_last_digit(s0, budget, d0);
    assert(draw_state(s1, budget).0 =~= seq![(d0 % 10) as u8]);
    law_draw_uses_last_digit(s1, budget, d1);
    assert(draw_state(s2, budget).0 =~= seq![(d0 % 10) as u8, (d1 % 10) as u8]);
    law_draw_uses_last_digit(s2, budget, d2);
    assert(draw_state(s3, budget).0 =~= seq![(d0 % 10) as u8, (d1 % 10) as u8, (d2 % 10) as u8]);
    law_draw_uses_last_digit(s3, budget, d3);
    assert(draw_state(s4, budget).0 =~= seq![
        (d0 % 10) as u8,
        (d1 % 10) as u8,
        (d2 % 10) as u8,
        (d3 % 10) as u8,
    ]);
}

/// On a cycle `0..right`, `inc` is one step up and `dec` one step down,
/// modulo `right`.
pub proof fn law_inc_dec_are_steps(x: u8, right: u8)
    requires
        x < right,
    ensures
        x.incremented(right) == (x + 1) % (right as int),
        x.decremented(right) == (x + right - 1) % (right as int),
{
    if x + 1 == right {
        assert((x + 1) % (right as int) == 0) by (nonlinear_arith)
            requires
                x + 1 == right,
                right > 0,
        ;
    } else {
        assert((x + 1) % (right as int) == x + 1) by (nonlinear_arith)
            requires
                x + 1 < right,
                right > 0,
                x >= 0,
        ;
    }
    if x == 0 {
        assert((x + right - 1) % (right as int) == right - 1) by (nonlinear_arith)
            requires
                x == 0,
                right > 0,
        ;
    } else {
        assert((x + right - 1) % (right as int) == x - 1) by (nonlinear_arith)
            requires
                1 <= x < right,
        ;
    }
}

/// A guess has pairwise different digits exactly when no two of its six
/// pairs of positions hold the same digit.
pub proof fn law_distinct_is_six_pairs(a: Seq<u8>)
    requires
        a.len() == 4,
    ensures
        all_distinct(a) <==> (a[0] != a[1] && a[0] != a[2] && a[0] != a[3] && a[1] != a[2] && a[1]
            != a[3] && a[2] != a[3]),
{
}

} // verus!
