//! The review scheduler: how long a card rests after an answer.

use fastrand::Rng as FuzzSource;
use vstd::prelude::*;

verus! {

/// Intervals are stored in 16 bits; a computed interval beyond this is held
/// at it.
pub const MAX_INTERVAL: u16 = 0xffff;

/// The interval an established card grows to after a correct answer, before
/// any fuzz: two and a half times the previous interval, scaled by the deck's
/// modifier in percent, rounded down.
pub open spec fn grown_interval(previous_interval: u16, interval_modifier: u16) -> int {
    (previous_interval as int * 5 * interval_modifier as int) / 200
}

/// The interval an established card falls back to after a wrong answer: seven
/// tenths of the previous one, rounded down, and at least a day.
pub open spec fn penalized_interval(previous_interval: u16) -> int {
    if (previous_interval as int * 7) / 10 < 1 {
        1
    } else {
        (previous_interval as int * 7) / 10
    }
}

/// The largest fuzz for a card: a quarter of a short interval, fifteen percent
/// of a medium one, five percent of a long one, rounded down.
pub open spec fn max_fuzz(previous_interval: u16) -> int {
    if previous_interval < 7 {
        (previous_interval as int * 25) / 100
    } else if previous_interval < 30 {
        (previous_interval as int * 15) / 100
    } else {
        (previous_interval as int * 5) / 100
    }
}

/// `x` held between one day and the largest interval that can be stored.
pub open spec fn clamp_interval(x: int) -> int {
    if x < 1 {
        1
    } else if x > MAX_INTERVAL {
        MAX_INTERVAL as int
    } else {
        x
    }
}

/// The next interval of a card, given the fuzz that was drawn and whether it
/// is added or taken away.
///
/// A card that was never reviewed rests one day. A card with one review
/// behind it rests four days, or one day when that review was answered
/// wrongly. An established card grows (with fuzz) after a correct answer and
/// is penalized after a wrong one.
pub open spec fn interval_after(
    previous_interval: u16,
    was_correct: Option<bool>,
    interval_modifier: u16,
    fuzz: u16,
    add_fuzz: bool,
) -> int {
    if previous_interval == 0 {
        1
    } else if previous_interval == 1 {
        if was_correct == Some(false) {
            1
        } else {
            4
        }
    } else if was_correct == Some(false) {
        penalized_interval(previous_interval)
    } else if add_fuzz {
        clamp_interval(grown_interval(previous_interval, interval_modifier) + fuzz)
    } else {
        clamp_interval(grown_interval(previous_interval, interval_modifier) - fuzz)
    }
}

/// Whether `next` is an interval that the scheduler may hand out for these
/// inputs: the one that some admissible fuzz gives.
pub open spec fn is_next_interval(
    previous_interval: u16,
    was_correct: Option<bool>,
    interval_modifier: u16,
    next: u16,
) -> bool {
    exists|fuzz: u16, add_fuzz: bool|
        fuzz <= max_fuzz(previous_interval) && next == #[trigger] interval_after(
            previous_interval,
            was_correct,
            interval_modifier,
            fuzz,
            add_fuzz,
        )
}

/// Computes `max_fuzz`.
pub fn fuzz_limit(previous_interval: u16) -> (limit: u16)
    ensures
        limit == max_fuzz(previous_interval),
        limit < MAX_INTERVAL,
{
    let p: u32 = previous_interval as u32;
    if previous_interval < 7 {
        (p * 25 / 100) as u16
    } else if previous_interval < 30 {
        (p * 15 / 100) as u16
    } else {
        (p * 5 / 100) as u16
    }
}

/// The next interval for a given draw of fuzz.
pub fn next_interval_with_fuzz(
    previous_interval: u16,
    was_correct: Option<bool>,
    interval_modifier: u16,
    fuzz: u16,
    add_fuzz: bool,
) -> (next: u16)
    requires
        previous_interval > 1 ==> was_correct.is_some(),
    ensures
        next == interval_after(previous_interval, was_correct, interval_modifier, fuzz, add_fuzz),
        next >= 1,
{
    if previous_interval == 0 {
        return 1;
    }
    let wrong: bool = match was_correct {
        Some(correct) => !correct,
        None => false,
    };
    if previous_interval == 1 {
        return if wrong {
            1
        } else {
            4
        };
    }
    if was_correct.is_none() {
        // An established card always has an answer behind it.
        return vstd::pervasive::unreached();
    }
    if wrong {
        let reduced: u32 = previous_interval as u32 * 7 / 10;
        return if reduced < 1 {
            1
        } else {
            reduced as u16
        };
    }
    let scaled: u64 = previous_interval as u64 * 5;
    assert(scaled * interval_modifier <= 327_675 * 65_535) by (nonlinear_arith)
        requires
            scaled <= 327_675,
            interval_modifier <= 65_535,
    ;
    let grown: u64 = scaled * interval_modifier as u64 / 200;
    let fuzzed: u64 = if add_fuzz {
        grown + fuzz as u64
    } else if grown >= fuzz as u64 {
        grown - fuzz as u64
    } else {
        0
    };
    if fuzzed < 1 {
        1
    } else if fuzzed > MAX_INTERVAL as u64 {
        MAX_INTERVAL
    } else {
        fuzzed as u16
    }
}

/// A policy that decides how long a card rests after a review.
pub trait Schedule {
    /// Whether `next` is an interval that this policy may hand out for these
    /// inputs. A policy that does not say allows every interval.
    open spec fn allows(
        previous_interval: u16,
        was_correct: Option<bool>,
        interval_modifier: u16,
        next: u16,
    ) -> bool {
        true
    }

    /// The number of days until the card is shown again, given the interval
    /// it last rested, whether the answer before this one was correct (if
    /// there was one), and the deck's interval modifier in percent.
    fn next_interval(
        &mut self,
        previous_interval: u16,
        was_correct: Option<bool>,
        interval_modifier: u16,
    ) -> (next: u16)
        requires
            previous_interval > 1 ==> was_correct.is_some(),
        ensures
            next >= 1,
            Self::allows(previous_interval, was_correct, interval_modifier, next),
    ;
}

/// The generator of the `fastrand` crate, which the schedule draws its fuzz
/// from. All that is visible of it here is the number that `fuzz_state`
/// names.
#[verifier::external_type_specification]
#[verifier::external_body]
pub struct ExFuzzSource(FuzzSource);

/// The state of a `fastrand` generator: the one 64-bit number that it holds.
pub uninterp spec fn fuzz_state(rng: FuzzSource) -> u64;

/// What `fastrand::Rng::u16` makes of a generator in state `state` when it is
/// asked for a number in `0..=max`: the number, and the state that the
/// generator is left in.
pub uninterp spec fn fuzz_draw(state: u64, max: u16) -> (u16, u64);

/// What `fastrand::Rng::bool` makes of a generator in state `state`: the
/// truth value, and the state that the generator is left in.
pub uninterp spec fn direction_draw(state: u64) -> (bool, u64);

/// Calls `fastrand::Rng::new`, which seeds a generator from the thread's
/// global one. Nothing is claimed of it.
#[verifier::external_body]
fn fresh_fuzz_source() -> FuzzSource {
    FuzzSource::new()
}

/// Calls `fastrand::Rng::with_seed`, which makes a generator that holds the
/// seed as its state.
#[verifier::external_body]
fn seeded_fuzz_source(seed: u64) -> (rng: FuzzSource)
    ensures
        fuzz_state(rng) == seed,
{
    FuzzSource::with_seed(seed)
}

/// Calls `fastrand::Rng::u16` on the range `0..=max`. The range is never
/// empty, so the call does not panic, and the number it returns lies in the
/// range. The number and the state in which the generator is left depend on
/// nothing but the state in which it was and on `max`.
#[verifier::external_body]
fn draw_fuzz(rng: &mut FuzzSource, max: u16) -> (fuzz: u16)
    ensures
        fuzz <= max,
        fuzz == fuzz_draw(fuzz_state(*old(rng)), max).0,
        fuzz_state(*final(rng)) == fuzz_draw(fuzz_state(*old(rng)), max).1,
{
    rng.u16(0..=max)
}

/// Calls `fastrand::Rng::bool`. The outcome and the state in which the
/// generator is left depend on nothing but the state in which it was.
#[verifier::external_body]
fn draw_direction(rng: &mut FuzzSource) -> (add_fuzz: bool)
    ensures
        add_fuzz == direction_draw(fuzz_state(*old(rng))).0,
        fuzz_state(*final(rng)) == direction_draw(fuzz_state(*old(rng))).1,
{
    rng.bool()
}

/// A schedule in the style of low-key Anki: fixed growth, a fixed penalty,
/// and a little randomness so that cards added together drift apart.
pub struct LowKeyAnki {
    rng: FuzzSource,
}

impl View for LowKeyAnki {
    type V = u64;

    /// The state of the generator that the schedule draws its fuzz from.
    closed spec fn view(&self) -> u64 {
        fuzz_state(self.rng)
    }
}

impl LowKeyAnki {
    /// A schedule whose fuzz comes from a freshly seeded generator.
    pub fn new() -> Self {
        Self { rng: fresh_fuzz_source() }
    }

    /// A schedule whose fuzz is reproducible from `seed`: its generator
    /// starts in state `seed`, and every interval that the schedule hands out
    /// follows from that state.
    pub fn with_seed(seed: u64) -> (schedule: Self)
        ensures
            schedule@ == seed,
    {
        Self { rng: seeded_fuzz_source(seed) }
    }
}

/// Whether the schedule draws fuzz for a card: it does for an established
/// card whose answer before this one was correct.
pub open spec fn draws_fuzz(previous_interval: u16, was_correct: Option<bool>) -> bool {
    previous_interval > 1 && was_correct == Some(true)
}

/// The interval that a schedule whose generator is in state `state` hands
/// out, and the state in which it leaves the generator. Where it draws, it
/// draws the fuzz first, within the card's limit, and then the direction.
pub open spec fn drawn_interval(
    state: u64,
    previous_interval: u16,
    was_correct: Option<bool>,
    interval_modifier: u16,
) -> (int, u64) {
    if draws_fuzz(previous_interval, was_correct) {
        let fuzz = fuzz_draw(state, max_fuzz(previous_interval) as u16);
        let direction = direction_draw(fuzz.1);
        (
            interval_after(previous_interval, was_correct, interval_modifier, fuzz.0, direction.0),
            direction.1,
        )
    } else {
        (interval_after(previous_interval, was_correct, interval_modifier, 0, false), state)
    }
}

impl Schedule for LowKeyAnki {
    open spec fn allows(
        previous_interval: u16,
        was_correct: Option<bool>,
        interval_modifier: u16,
        next: u16,
    ) -> bool {
        is_next_interval(previous_interval, was_correct, interval_modifier, next)
    }

    fn next_interval(
        &mut self,
        previous_interval: u16,
        was_correct: Option<bool>,
        interval_modifier: u16,
    ) -> (next: u16)
        ensures
            next == drawn_interval(
                old(self)@,
                previous_interval,
                was_correct,
                interval_modifier,
            ).0,
            final(self)@ == drawn_interval(
                old(self)@,
                previous_interval,
                was_correct,
                interval_modifier,
            ).1,
            previous_interval == 0 ==> next == 1,
            previous_interval == 1 && was_correct != Some(false) ==> next == 4,
            previous_interval >= 2 && was_correct == Some(false) ==> next == penalized_interval(
                previous_interval,
            ),
    {
        let grows: bool = previous_interval > 1 && was_correct == Some(true);
        let mut fuzz: u16 = 0;
        let mut add_fuzz: bool = false;
        if grows {
            fuzz = draw_fuzz(&mut self.rng, fuzz_limit(previous_interval));
            add_fuzz = draw_direction(&mut self.rng);
        }
        let next: u16 = next_interval_with_fuzz(
            previous_interval,
            was_correct,
            interval_modifier,
            fuzz,
            add_fuzz,
        );
        assert(next == interval_after(
            previous_interval,
            was_correct,
            interval_modifier,
            fuzz,
            add_fuzz,
        ));
        next
    }
}

/// A card that was never reviewed rests one day, whatever the answer history,
/// the modifier and the fuzz.
pub proof fn law_new_card_rests_one_day(
    was_correct: Option<bool>,
    interval_modifier: u16,
    fuzz: u16,
    add_fuzz: bool,
)
    ensures
        interval_after(0, was_correct, interval_modifier, fuzz, add_fuzz) == 1,
{
}

/// A card with one review behind it rests four days after a correct answer.
pub proof fn law_first_review_rests_four_days(interval_modifier: u16, fuzz: u16, add_fuzz: bool)
    ensures
        interval_after(1, Some(true), interval_modifier, fuzz, add_fuzz) == 4,
{
}

/// An established card answered wrongly rests seven tenths of its previous
/// interval, rounded down, and at least one day.
pub proof fn law_wrong_answer_penalty(
    previous_interval: u16,
    interval_modifier: u16,
    fuzz: u16,
    add_fuzz: bool,
)
    requires
        previous_interval >= 2,
    ensures
        interval_after(previous_interval, Some(false), interval_modifier, fuzz, add_fuzz) == (
        previous_interval * 7) / 10,
        interval_after(previous_interval, Some(false), interval_modifier, fuzz, add_fuzz) >= 1,
{
}

/// Without fuzz, an established card answered correctly rests two and a half
/// times its previous interval, scaled by the modifier and rounded down,
/// provided the modifier is one a deck can have and the result can be stored.
pub proof fn law_correct_answer_growth(
    previous_interval: u16,
    interval_modifier: u16,
    add_fuzz: bool,
)
    requires
        previous_interval >= 2,
        interval_modifier >= 50,
        grown_interval(previous_interval, interval_modifier) <= MAX_INTERVAL,
    ensures
        interval_after(previous_interval, Some(true), interval_modifier, 0, add_fuzz) == (
        previous_interval * 5 * interval_modifier) / 200,
{
    lemma_growth_at_least(previous_interval, interval_modifier);
}

/// Whatever fuzz is drawn within its limit, it never pulls a grown interval
/// of a deck with an admissible modifier below the previous interval.
pub proof fn law_fuzz_never_shrinks(
    previous_interval: u16,
    interval_modifier: u16,
    fuzz: u16,
    add_fuzz: bool,
)
    requires
        previous_interval >= 2,
        interval_modifier >= 50,
        fuzz <= max_fuzz(previous_interval),
    ensures
        interval_after(previous_interval, Some(true), interval_modifier, fuzz, add_fuzz)
            >= previous_interval,
{
    lemma_growth_at_least(previous_interval, interval_modifier);
}

/// With a modifier of at least fifty percent an interval grows to at least
/// five quarters of itself.
proof fn lemma_growth_at_least(previous_interval: u16, interval_modifier: u16)
    requires
        interval_modifier >= 50,
    ensures
        grown_interval(previous_interval, interval_modifier) >= (previous_interval * 5) / 4,
{
    let p = previous_interval as int;
    let m = interval_modifier as int;
    assert(p * 5 * m >= p * 250) by (nonlinear_arith)
        requires
            m >= 50,
            p >= 0,
    ;
    assert((p * 5 * m) / 200 >= (p * 250) / 200) by (nonlinear_arith)
        requires
            p * 5 * m >= p * 250,
    ;
    assert((p * 250) / 200 == (p * 5) / 4) by (nonlinear_arith)
        requires
            p >= 0,
    ;
}

} // verus!
