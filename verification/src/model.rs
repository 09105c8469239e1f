//! What a store of decks, cards and answers holds, as mathematical values,
//! and how each operation changes it.

use crate::clock::{spec_end_of_tomorrow, spec_thirty_days_ago, start_of_next_day, MILLIS_PER_DAY};
use crate::error::Error;
use vstd::prelude::*;

verus! {

/// The smallest interval modifier a deck can have, in percent.
pub const MIN_INTERVAL_MODIFIER: u16 = 50;

/// The interval modifier of a new deck, in percent.
pub const DEFAULT_INTERVAL_MODIFIER: u16 = 100;

/// A card whose next interval reaches this many days counts as learned and
/// leaves the review cycle.
pub const AUTO_SUSPEND_INTERVAL: u16 = 365;

/// A card with this many wrong answers on record is a leech.
pub const WRONG_ANSWERS_FOR_LEECH: usize = 4;

/// Counts over the whole store.
#[derive(Clone, Copy, Debug, PartialEq, Eq, Structural)]
pub struct GlobalStats {
    /// Cards that are scheduled and no leech.
    pub active: u32,
    /// Cards that are not scheduled and no leech.
    pub suspended: u32,
    /// Leeches.
    pub leech: u16,
    /// Cards due before the end of tomorrow.
    pub for_review: u16,
}

/// One answer on record.
#[derive(Clone, Copy, Debug, PartialEq, Eq, Structural)]
pub struct AnswerRow {
    pub card_id: u64,
    pub is_correct: bool,
    pub timestamp: u64,
}

/// A deck, with its name as a sequence of characters.
pub struct DeckModel {
    pub id: u64,
    pub name: Seq<char>,
    pub interval_modifier: u16,
    pub creation_time: u64,
}

/// A card and its schedule, with its texts as sequences of characters.
pub struct CardModel {
    pub id: u64,
    pub deck_id: u64,
    pub front: Seq<char>,
    pub back: Seq<char>,
    pub creation_time: u64,
    pub interval_days: Option<u16>,
    pub scheduled_for: Option<u64>,
    pub is_leech: bool,
}

/// Everything a store holds, as mathematical sequences.
pub struct State {
    /// The decks, by rising id.
    pub decks: Seq<DeckModel>,
    /// The cards, by rising id.
    pub cards: Seq<CardModel>,
    /// The answers, oldest first.
    pub answers: Seq<AnswerRow>,
    /// The id that the next deck gets.
    pub next_deck_id: u64,
    /// The id that the next card gets.
    pub next_card_id: u64,
    /// The store's time zone, as seconds east of UTC.
    pub utc_offset_seconds: i32,
}

/// Whether a deck with this id is among `decks`.
pub open spec fn has_deck(decks: Seq<DeckModel>, id: u64) -> bool {
    exists|i: int| 0 <= i < decks.len() && (#[trigger] decks[i]).id == id
}

/// Whether a card with this id is among `cards`.
pub open spec fn has_card(cards: Seq<CardModel>, id: u64) -> bool {
    exists|i: int| 0 <= i < cards.len() && (#[trigger] cards[i]).id == id
}

/// The position of the deck with this id.
pub open spec fn deck_position(decks: Seq<DeckModel>, id: u64) -> int {
    choose|i: int| 0 <= i < decks.len() && (#[trigger] decks[i]).id == id
}

/// The position of the card with this id.
pub open spec fn card_position(cards: Seq<CardModel>, id: u64) -> int {
    choose|i: int| 0 <= i < cards.len() && (#[trigger] cards[i]).id == id
}

/// Whether ids rise along the decks.
pub open spec fn deck_ids_rise(decks: Seq<DeckModel>) -> bool {
    forall|i: int, j: int|
        0 <= i < j < decks.len() ==> (#[trigger] decks[i]).id < (#[trigger] decks[j]).id
}

/// Whether ids rise along the cards.
pub open spec fn card_ids_rise(cards: Seq<CardModel>) -> bool {
    forall|i: int, j: int|
        0 <= i < j < cards.len() ==> (#[trigger] cards[i]).id < (#[trigger] cards[j]).id
}

impl State {
    /// What every store satisfies.
    ///
    /// Ids rise along the decks and along the cards and lie below the next
    /// id to hand out, so none occurs twice and none comes back after a
    /// deletion. Every card belongs to a deck of the store and every answer
    /// to a card of the store. Names and fronts are not empty, and modifiers
    /// are at least the minimum. A card has a due instant exactly when it has
    /// an interval, and a leech has neither.
    pub open spec fn wf(self) -> bool {
        &&& self.decks_wf()
        &&& self.cards_wf()
        &&& self.answers_wf()
    }

    /// What holds of the decks: rising ids below the next one, names, and
    /// modifiers of at least the minimum.
    pub open spec fn decks_wf(self) -> bool {
        &&& deck_ids_rise(self.decks)
        &&& forall|i: int|
            0 <= i < self.decks.len() ==> {
                &&& (#[trigger] self.decks[i]).id < self.next_deck_id
                &&& self.decks[i].name.len() > 0
                &&& self.decks[i].interval_modifier >= MIN_INTERVAL_MODIFIER
            }
    }

    /// What holds of the cards: rising ids below the next one, fronts, a
    /// deck for each, and schedules that are whole.
    pub open spec fn cards_wf(self) -> bool {
        &&& card_ids_rise(self.cards)
        &&& forall|i: int|
            0 <= i < self.cards.len() ==> {
                &&& (#[trigger] self.cards[i]).id < self.next_card_id
                &&& self.cards[i].front.len() > 0
                &&& has_deck(self.decks, self.cards[i].deck_id)
                &&& self.cards[i].scheduled_for.is_some() == self.cards[i].interval_days.is_some()
                &&& self.cards[i].is_leech ==> self.cards[i].scheduled_for.is_none()
            }
    }

    /// What holds of the answers: a card for each.
    pub open spec fn answers_wf(self) -> bool {
        forall|i: int|
            0 <= i < self.answers.len() ==> has_card(
                self.cards,
                (#[trigger] self.answers[i]).card_id,
            )
    }

    /// The deck with this id. Meaningful where there is one.
    pub open spec fn deck(self, id: u64) -> DeckModel {
        self.decks[deck_position(self.decks, id)]
    }

    /// The card with this id. Meaningful where there is one.
    pub open spec fn card(self, id: u64) -> CardModel {
        self.cards[card_position(self.cards, id)]
    }
}

/// The state of a store that was just made.
pub open spec fn empty_state(utc_offset_seconds: i32) -> State {
    State {
        decks: Seq::empty(),
        cards: Seq::empty(),
        answers: Seq::empty(),
        next_deck_id: 1,
        next_card_id: 1,
        utc_offset_seconds,
    }
}

/// The state after a deck named `name` was made at `now`.
pub open spec fn with_deck(state: State, name: Seq<char>, now: u64) -> State {
    State {
        decks: state.decks.push(
            DeckModel {
                id: state.next_deck_id,
                name,
                interval_modifier: DEFAULT_INTERVAL_MODIFIER,
                creation_time: now,
            },
        ),
        next_deck_id: (state.next_deck_id + 1) as u64,
        ..state
    }
}

/// The state after the modifier of the deck with this id was set.
pub open spec fn with_interval_modifier(state: State, id: u64, modifier: u16) -> State {
    let at = deck_position(state.decks, id);
    State {
        decks: state.decks.update(at, DeckModel { interval_modifier: modifier, ..state.decks[at] }),
        ..state
    }
}

/// The state after a card was added to the deck with this id at `now`:
/// never reviewed, due at once, and no leech.
pub open spec fn with_card(
    state: State,
    deck_id: u64,
    front: Seq<char>,
    back: Seq<char>,
    now: u64,
) -> State {
    State {
        cards: state.cards.push(
            CardModel {
                id: state.next_card_id,
                deck_id,
                front,
                back,
                creation_time: now,
                interval_days: Some(0u16),
                scheduled_for: Some(now),
                is_leech: false,
            },
        ),
        next_card_id: (state.next_card_id + 1) as u64,
        ..state
    }
}

/// The state after the texts of the card with this id were replaced. Its
/// schedule and its answers stay.
pub open spec fn with_card_text(state: State, id: u64, front: Seq<char>, back: Seq<char>) -> State {
    let at = card_position(state.cards, id);
    State { cards: state.cards.update(at, CardModel { front, back, ..state.cards[at] }), ..state }
}

/// The state after the card with this id moved to another deck.
pub open spec fn with_card_in_deck(state: State, card_id: u64, deck_id: u64) -> State {
    let at = card_position(state.cards, card_id);
    State { cards: state.cards.update(at, CardModel { deck_id, ..state.cards[at] }), ..state }
}

/// The answers that belong to one of `cards`, in their order.
pub open spec fn answers_of(answers: Seq<AnswerRow>, cards: Seq<CardModel>) -> Seq<AnswerRow>
    decreases answers.len(),
{
    if answers.len() == 0 {
        answers
    } else if has_card(cards, answers.last().card_id) {
        answers_of(answers.drop_last(), cards).push(answers.last())
    } else {
        answers_of(answers.drop_last(), cards)
    }
}

/// The cards that do not belong to the deck with this id, in their order.
pub open spec fn cards_outside(cards: Seq<CardModel>, deck_id: u64) -> Seq<CardModel>
    decreases cards.len(),
{
    if cards.len() == 0 {
        cards
    } else if cards.last().deck_id != deck_id {
        cards_outside(cards.drop_last(), deck_id).push(cards.last())
    } else {
        cards_outside(cards.drop_last(), deck_id)
    }
}

/// The state after the card with this id was deleted, together with its
/// schedule and its answers.
pub open spec fn without_card(state: State, id: u64) -> State {
    let cards = state.cards.remove(card_position(state.cards, id));
    State { cards, answers: answers_of(state.answers, cards), ..state }
}

/// The state after the deck with this id was deleted, together with its
/// cards, their schedules and their answers.
pub open spec fn without_deck(state: State, id: u64) -> State {
    let cards = cards_outside(state.cards, id);
    State {
        decks: state.decks.remove(deck_position(state.decks, id)),
        cards,
        answers: answers_of(state.answers, cards),
        ..state
    }
}

/// How many wrong answers to the card with this id are on record.
pub open spec fn wrong_answers(answers: Seq<AnswerRow>, card_id: u64) -> nat
    decreases answers.len(),
{
    if answers.len() == 0 {
        0
    } else if answers.last().card_id == card_id && !answers.last().is_correct {
        wrong_answers(answers.drop_last(), card_id) + 1
    } else {
        wrong_answers(answers.drop_last(), card_id)
    }
}

/// Whether the latest answer to the card with this id was correct, where
/// there is an answer to it.
pub open spec fn last_answer(answers: Seq<AnswerRow>, card_id: u64) -> Option<bool>
    decreases answers.len(),
{
    if answers.len() == 0 {
        None
    } else if answers.last().card_id == card_id {
        Some(answers.last().is_correct)
    } else {
        last_answer(answers.drop_last(), card_id)
    }
}

/// The instant from which a card is due that rests `interval` days from
/// `now`, held at the last instant that can be recorded.
pub open spec fn due_instant(now: u64, interval: u16) -> u64 {
    if now + interval * MILLIS_PER_DAY > u64::MAX {
        u64::MAX
    } else {
        (now + interval * MILLIS_PER_DAY) as u64
    }
}

/// A card after an answer. A card that becomes a leech loses its schedule
/// for good. Otherwise a card whose next interval reaches the threshold is
/// suspended, and any other card rests `next` days from `now`.
pub open spec fn rescheduled_card(
    card: CardModel,
    becomes_leech: bool,
    now: u64,
    next: u16,
) -> CardModel {
    if becomes_leech {
        CardModel { interval_days: None, scheduled_for: None, is_leech: true, ..card }
    } else if next >= AUTO_SUSPEND_INTERVAL {
        CardModel { interval_days: None, scheduled_for: None, ..card }
    } else {
        CardModel {
            interval_days: Some(next),
            scheduled_for: Some(due_instant(now, next)),
            ..card
        }
    }
}

/// Whether an answer makes its card a leech: it is wrong, and with it the
/// wrong answers on record reach the threshold.
pub open spec fn makes_leech(answers: Seq<AnswerRow>, card_id: u64, is_correct: bool) -> bool {
    !is_correct && wrong_answers(answers, card_id) + 1 >= WRONG_ANSWERS_FOR_LEECH
}

/// The state after an answer to the card with this id was recorded at `now`,
/// where `next` is the interval that the scheduler chose.
pub open spec fn with_answer(
    state: State,
    card_id: u64,
    is_correct: bool,
    now: u64,
    next: u16,
) -> State {
    let at = card_position(state.cards, card_id);
    State {
        cards: state.cards.update(
            at,
            rescheduled_card(
                state.cards[at],
                makes_leech(state.answers, card_id, is_correct),
                now,
                next,
            ),
        ),
        answers: state.answers.push(AnswerRow { card_id, is_correct, timestamp: now }),
        ..state
    }
}

/// What the scheduler is asked about a card.
#[derive(Clone, Copy, Debug, PartialEq, Eq, Structural)]
pub struct ReviewInputs {
    /// The interval that the card last rested.
    pub previous_interval: u16,
    /// Whether the latest answer on record was correct, if there is one.
    pub was_correct: Option<bool>,
    /// The interval modifier of the card's deck.
    pub interval_modifier: u16,
}

/// What the scheduler is asked about the card with this id, or why the card
/// cannot be answered: there is no such card, it is not scheduled, or it is
/// established and yet has no answer on record.
pub open spec fn review_inputs_of(state: State, card_id: u64) -> Result<ReviewInputs, Error> {
    if !has_card(state.cards, card_id) {
        Err(Error::UnknownCard)
    } else {
        let card = state.card(card_id);
        match card.interval_days {
            None => Err(Error::NotScheduled),
            Some(interval) => {
                let was_correct = last_answer(state.answers, card_id);
                if interval > 1 && was_correct.is_none() {
                    Err(Error::MissingAnswerHistory)
                } else {
                    Ok(
                        ReviewInputs {
                            previous_interval: interval,
                            was_correct,
                            interval_modifier: state.deck(card.deck_id).interval_modifier,
                        },
                    )
                }
            },
        }
    }
}

/// A card as it is shown in a review.
pub struct CardText {
    pub id: u64,
    pub front: Seq<char>,
    pub back: Seq<char>,
}

/// What a review shows of a card.
pub open spec fn text_of(card: CardModel) -> CardText {
    CardText { id: card.id, front: card.front, back: card.back }
}

/// Whether a card is due for a review that takes place at `as_of`: it is no
/// leech, it is scheduled, and it is scheduled for an instant before the day
/// after `as_of` begins in the store's time zone.
pub open spec fn is_due(card: CardModel, as_of: u64, utc_offset_seconds: i32) -> bool {
    &&& !card.is_leech
    &&& card.scheduled_for.is_some()
    &&& card.scheduled_for.unwrap() < start_of_next_day(as_of, utc_offset_seconds)
}

/// The cards of the deck with this id that are due at `as_of`, as the store
/// holds them.
pub open spec fn due_in_deck(
    cards: Seq<CardModel>,
    deck_id: u64,
    as_of: u64,
    utc_offset_seconds: i32,
) -> Seq<CardText>
    decreases cards.len(),
{
    if cards.len() == 0 {
        Seq::empty()
    } else if cards.last().deck_id == deck_id && is_due(cards.last(), as_of, utc_offset_seconds) {
        due_in_deck(cards.drop_last(), deck_id, as_of, utc_offset_seconds).push(
            text_of(cards.last()),
        )
    } else {
        due_in_deck(cards.drop_last(), deck_id, as_of, utc_offset_seconds)
    }
}

/// The decks that have a card due at `as_of`, by rising id.
pub open spec fn decks_with_due(state: State, decks: Seq<DeckModel>, as_of: u64) -> Seq<DeckModel>
    decreases decks.len(),
{
    if decks.len() == 0 {
        Seq::empty()
    } else if due_in_deck(state.cards, decks.last().id, as_of, state.utc_offset_seconds).len()
        > 0 {
        decks_with_due(state, decks.drop_last(), as_of).push(decks.last())
    } else {
        decks_with_due(state, decks.drop_last(), as_of)
    }
}

/// The name of a review's group and the cards that it shows, in order.
pub struct GroupModel {
    pub deck_name: Seq<char>,
    pub cards: Seq<CardText>,
}

/// A review: its groups, and the state in which it leaves the generator
/// that shuffled them.
pub struct ReviewModel {
    pub groups: Seq<GroupModel>,
    pub rng: u64,
}

/// The review of the due cards of `decks` at `as_of`, shuffled by a
/// generator in state `rng`: one group for each deck that has due cards, in
/// the order of the decks, each shuffled with the generator as the groups
/// before it left it. (A group too long for the generator to shuffle keeps
/// the store's order.)
pub open spec fn review_of(state: State, decks: Seq<DeckModel>, as_of: u64, rng: u64) -> ReviewModel
    decreases decks.len(),
{
    if decks.len() == 0 {
        ReviewModel { groups: Seq::empty(), rng }
    } else {
        let due = due_in_deck(state.cards, decks.first().id, as_of, state.utc_offset_seconds);
        if due.len() == 0 {
            review_of(state, decks.drop_first(), as_of, rng)
        } else if due.len() < u16::MAX {
            let rest = review_of(
                state,
                decks.drop_first(),
                as_of,
                crate::rand::state_after_shuffle(rng, due.len() as int, 1),
            );
            ReviewModel {
                groups: seq![
                    GroupModel {
                        deck_name: decks.first().name,
                        cards: crate::rand::shuffled(due, rng),
                    },
                ] + rest.groups,
                rng: rest.rng,
            }
        } else {
            let rest = review_of(state, decks.drop_first(), as_of, rng);
            ReviewModel {
                groups: seq![GroupModel { deck_name: decks.first().name, cards: due }]
                    + rest.groups,
                rng: rest.rng,
            }
        }
    }
}

/// What is counted of the cards.
#[derive(Clone, Copy, Debug, PartialEq, Eq, Structural)]
pub enum Tally {
    /// Cards that are scheduled and no leech.
    Active,
    /// Cards that are not scheduled and no leech.
    Suspended,
    /// Leeches.
    Leech,
    /// Cards scheduled for an instant before a given end.
    ForReview,
}

/// Whether a card counts: it belongs to the deck with the given id, where
/// one is given, and it is what `tally` counts. `end` matters for
/// `Tally::ForReview` only.
pub open spec fn card_counts(card: CardModel, deck: Option<u64>, tally: Tally, end: int) -> bool {
    &&& deck matches Some(id) ==> card.deck_id == id
    &&& match tally {
        Tally::Active => card.scheduled_for.is_some() && !card.is_leech,
        Tally::Suspended => card.scheduled_for.is_none() && !card.is_leech,
        Tally::Leech => card.is_leech,
        Tally::ForReview => card.scheduled_for.is_some() && card.scheduled_for.unwrap() < end,
    }
}

/// How many of `cards` count.
pub open spec fn counted_cards(
    cards: Seq<CardModel>,
    deck: Option<u64>,
    tally: Tally,
    end: int,
) -> nat
    decreases cards.len(),
{
    if cards.len() == 0 {
        0
    } else if card_counts(cards.last(), deck, tally, end) {
        counted_cards(cards.drop_last(), deck, tally, end) + 1
    } else {
        counted_cards(cards.drop_last(), deck, tally, end)
    }
}

/// Whether an answer counts towards a deck's recent accuracy: it was given
/// after `since` to a card that now belongs to the deck, and it is as
/// correct as asked.
pub open spec fn answer_counts(
    state: State,
    answer: AnswerRow,
    deck_id: u64,
    is_correct: bool,
    since: int,
) -> bool {
    &&& answer.is_correct == is_correct
    &&& answer.timestamp > since
    &&& has_card(state.cards, answer.card_id)
    &&& state.card(answer.card_id).deck_id == deck_id
}

/// How many of `answers` count.
pub open spec fn counted_answers(
    state: State,
    answers: Seq<AnswerRow>,
    deck_id: u64,
    is_correct: bool,
    since: int,
) -> nat
    decreases answers.len(),
{
    if answers.len() == 0 {
        0
    } else if answer_counts(state, answers.last(), deck_id, is_correct, since) {
        counted_answers(state, answers.drop_last(), deck_id, is_correct, since) + 1
    } else {
        counted_answers(state, answers.drop_last(), deck_id, is_correct, since)
    }
}

/// A count held at the largest number that 32 bits hold.
pub open spec fn held_u32(count: nat) -> u32 {
    if count > u32::MAX {
        u32::MAX
    } else {
        count as u32
    }
}

/// A count held at the largest number that 16 bits hold.
pub open spec fn held_u16(count: nat) -> u16 {
    if count > u16::MAX {
        u16::MAX
    } else {
        count as u16
    }
}

/// The counts over the whole store at `as_of`.
pub open spec fn global_stats_of(state: State, as_of: u64) -> GlobalStats {
    let end = spec_end_of_tomorrow(as_of, state.utc_offset_seconds);
    GlobalStats {
        active: held_u32(counted_cards(state.cards, None, Tally::Active, end)),
        suspended: held_u32(counted_cards(state.cards, None, Tally::Suspended, end)),
        leech: held_u16(counted_cards(state.cards, None, Tally::Leech, end)),
        for_review: held_u16(counted_cards(state.cards, None, Tally::ForReview, end)),
    }
}

/// The counts over one deck, with the deck's name as a sequence of
/// characters.
pub struct DeckStatsModel {
    pub name: Seq<char>,
    pub active: u32,
    pub suspended: u32,
    pub leech: u16,
    pub for_review: u16,
    pub correct: u16,
    pub wrong: u16,
}

/// The counts over `deck` at `as_of`.
pub open spec fn deck_stats_of(state: State, deck: DeckModel, as_of: u64) -> DeckStatsModel {
    let end = spec_end_of_tomorrow(as_of, state.utc_offset_seconds);
    let since = spec_thirty_days_ago(as_of, state.utc_offset_seconds);
    DeckStatsModel {
        name: deck.name,
        active: held_u32(counted_cards(state.cards, Some(deck.id), Tally::Active, end)),
        suspended: held_u32(counted_cards(state.cards, Some(deck.id), Tally::Suspended, end)),
        leech: held_u16(counted_cards(state.cards, Some(deck.id), Tally::Leech, end)),
        for_review: held_u16(counted_cards(state.cards, Some(deck.id), Tally::ForReview, end)),
        correct: held_u16(counted_answers(state, state.answers, deck.id, true, since)),
        wrong: held_u16(counted_answers(state, state.answers, deck.id, false, since)),
    }
}

/// A line of the card list.
pub struct PreviewModel {
    pub id: u64,
    pub front: Seq<char>,
    pub is_leech: bool,
}

/// The line that lists a card.
pub open spec fn preview_of(card: CardModel) -> PreviewModel {
    PreviewModel { id: card.id, front: card.front, is_leech: card.is_leech }
}

/// The lines of those of `cards` that are leeches (or, for `leeches` false,
/// that are none), newest first.
pub open spec fn previews_newest_first(cards: Seq<CardModel>, leeches: bool) -> Seq<PreviewModel>
    decreases cards.len(),
{
    if cards.len() == 0 {
        Seq::empty()
    } else if cards.first().is_leech == leeches {
        previews_newest_first(cards.drop_first(), leeches).push(preview_of(cards.first()))
    } else {
        previews_newest_first(cards.drop_first(), leeches)
    }
}

/// The card list: the leeches, then the other cards, each newest first.
pub open spec fn card_list(cards: Seq<CardModel>) -> Seq<PreviewModel> {
    previews_newest_first(cards, true) + previews_newest_first(cards, false)
}

/// What `cards_outside` keeps: exactly the cards of other decks.
pub proof fn lemma_cards_outside_contains(cards: Seq<CardModel>, deck_id: u64)
    ensures
        cards_outside(cards, deck_id).len() <= cards.len(),
        forall|c: CardModel| #[trigger]
            cards_outside(cards, deck_id).contains(c) <==> cards.contains(c) && c.deck_id
                != deck_id,
    decreases cards.len(),
{
    let kept = cards_outside(cards, deck_id);
    if cards.len() > 0 {
        let front = cards.drop_last();
        let last = cards.last();
        let before = cards_outside(front, deck_id);
        lemma_cards_outside_contains(front, deck_id);
        assert forall|c: CardModel| #[trigger]
            kept.contains(c) <==> cards.contains(c) && c.deck_id != deck_id by {
            if kept.contains(c) {
                let k = choose|k: int| 0 <= k < kept.len() && kept[k] == c;
                if k < before.len() {
                    assert(before[k] == c);
                    assert(before.contains(c));
                    assert(front.contains(c));
                    let i = choose|i: int| 0 <= i < front.len() && front[i] == c;
                    assert(cards[i] == c);
                } else {
                    assert(cards[cards.len() - 1] == c);
                }
            }
            if cards.contains(c) && c.deck_id != deck_id {
                let i = choose|i: int| 0 <= i < cards.len() && cards[i] == c;
                if i < front.len() {
                    assert(front[i] == c);
                    assert(front.contains(c));
                    assert(before.contains(c));
                    let k = choose|k: int| 0 <= k < before.len() && before[k] == c;
                    assert(kept[k] == c);
                } else {
                    assert(kept[kept.len() - 1] == c);
                }
            }
        }
    }
}

/// `cards_outside` keeps rising ids rising.
pub proof fn lemma_cards_outside_rise(cards: Seq<CardModel>, deck_id: u64)
    requires
        card_ids_rise(cards),
    ensures
        card_ids_rise(cards_outside(cards, deck_id)),
        cards_outside(cards, deck_id).len() > 0 ==> cards.len() > 0 && cards_outside(
            cards,
            deck_id,
        ).last().id <= cards.last().id,
    decreases cards.len(),
{
    let kept = cards_outside(cards, deck_id);
    if cards.len() > 0 {
        let front = cards.drop_last();
        let before = cards_outside(front, deck_id);
        assert(card_ids_rise(front)) by {
            assert forall|i: int, j: int| 0 <= i < j < front.len() implies (#[trigger] front[i]).id
                < (#[trigger] front[j]).id by {
                assert(cards[i].id < cards[j].id);
            }
        }
        lemma_cards_outside_rise(front, deck_id);
        if before.len() > 0 {
            assert(front.last() == cards[cards.len() - 2]);
            assert(cards[cards.len() - 2].id < cards[cards.len() - 1].id);
        }
        assert forall|i: int, j: int| 0 <= i < j < kept.len() implies (#[trigger] kept[i]).id < (
        #[trigger] kept[j]).id by {
            if j < before.len() {
                assert(before[i].id < before[j].id);
            } else {
                if i < before.len() - 1 {
                    assert(before[i].id < before[before.len() - 1].id);
                }
            }
        }
    }
}

/// What `answers_of` keeps: exactly the answers to one of the cards.
pub proof fn lemma_answers_of(answers: Seq<AnswerRow>, cards: Seq<CardModel>)
    ensures
        answers_of(answers, cards).len() <= answers.len(),
        forall|k: int|
            0 <= k < answers_of(answers, cards).len() ==> has_card(
                cards,
                (#[trigger] answers_of(answers, cards)[k]).card_id,
            ),
    decreases answers.len(),
{
    if answers.len() > 0 {
        lemma_answers_of(answers.drop_last(), cards);
    }
}

/// Cards that changed in nothing but their texts or their deck are found
/// under the same ids.
pub proof fn lemma_same_ids_same_cards(before: Seq<CardModel>, after: Seq<CardModel>)
    requires
        before.len() == after.len(),
        forall|i: int| 0 <= i < before.len() ==> (#[trigger] before[i]).id == after[i].id,
    ensures
        forall|id: u64| has_card(before, id) ==> #[trigger] has_card(after, id),
{
    assert forall|id: u64| has_card(before, id) implies #[trigger] has_card(after, id) by {
        let i = choose|i: int| 0 <= i < before.len() && (#[trigger] before[i]).id == id;
        assert(after[i].id == id);
    }
}

} // verus!
