//! What holds of the store whatever it holds: the laws that its operations
//! obey together.

use crate::clock::{
    lemma_next_day_is_near, start_of_next_day, MILLIS_PER_DAY,
};
use crate::model::{
    card_ids_rise, card_position, counted_cards, deck_position, due_in_deck, due_instant,
    has_card, has_deck, is_due, lemma_cards_outside_contains, makes_leech, rescheduled_card,
    text_of, with_answer, with_card, without_deck, wrong_answers, CardModel, CardText, State,
    Tally, AUTO_SUSPEND_INTERVAL, WRONG_ANSWERS_FOR_LEECH,
};
use vstd::prelude::*;

verus! {

/// Whether a list of due cards names the card with this id.
pub open spec fn lists(due: Seq<CardText>, id: u64) -> bool {
    exists|k: int| 0 <= k < due.len() && (#[trigger] due[k]).id == id
}

/// Every card in a deck's due list is a due card of that deck.
pub proof fn lemma_due_cards_are_due(
    cards: Seq<CardModel>,
    deck_id: u64,
    as_of: u64,
    utc_offset_seconds: i32,
)
    ensures
        forall|k: int|
            0 <= k < due_in_deck(cards, deck_id, as_of, utc_offset_seconds).len() ==> exists|
                i: int,
            |
                0 <= i < cards.len() && cards[i].deck_id == deck_id && is_due(
                    cards[i],
                    as_of,
                    utc_offset_seconds,
                ) && text_of(cards[i]) == #[trigger] due_in_deck(
                    cards,
                    deck_id,
                    as_of,
                    utc_offset_seconds,
                )[k],
    decreases cards.len(),
{
    let due = due_in_deck(cards, deck_id, as_of, utc_offset_seconds);
    if cards.len() > 0 {
        let front = cards.drop_last();
        let before = due_in_deck(front, deck_id, as_of, utc_offset_seconds);
        lemma_due_cards_are_due(front, deck_id, as_of, utc_offset_seconds);
        assert forall|k: int| 0 <= k < due.len() implies exists|i: int|
            0 <= i < cards.len() && cards[i].deck_id == deck_id && is_due(
                cards[i],
                as_of,
                utc_offset_seconds,
            ) && text_of(cards[i]) == #[trigger] due[k] by {
            if k < before.len() {
                let i = choose|i: int|
                    0 <= i < front.len() && front[i].deck_id == deck_id && is_due(
                        front[i],
                        as_of,
                        utc_offset_seconds,
                    ) && text_of(front[i]) == before[k];
                assert(cards[i] == front[i]);
            } else {
                assert(text_of(cards[cards.len() - 1]) == due[k]);
            }
        }
    }
}

/// Every due card of a deck is in the deck's due list.
pub proof fn law_due_cards_are_listed(
    cards: Seq<CardModel>,
    deck_id: u64,
    as_of: u64,
    utc_offset_seconds: i32,
    i: int,
)
    requires
        0 <= i < cards.len(),
        cards[i].deck_id == deck_id,
        is_due(cards[i], as_of, utc_offset_seconds),
    ensures
        lists(due_in_deck(cards, deck_id, as_of, utc_offset_seconds), cards[i].id),
    decreases cards.len(),
{
    let due = due_in_deck(cards, deck_id, as_of, utc_offset_seconds);
    let front = cards.drop_last();
    if i == cards.len() - 1 {
        assert(due[due.len() - 1].id == cards[i].id);
    } else {
        assert(front[i] == cards[i]);
        law_due_cards_are_listed(front, deck_id, as_of, utc_offset_seconds, i);
        let before = due_in_deck(front, deck_id, as_of, utc_offset_seconds);
        let k = choose|k: int| 0 <= k < before.len() && (#[trigger] before[k]).id == cards[i].id;
        assert(due[k].id == cards[i].id);
    }
}

/// No due list names the id that the next card gets.
pub proof fn lemma_next_id_is_not_listed(state: State, any_deck: u64, as_of: u64)
    requires
        state.wf(),
    ensures
        !lists(
            due_in_deck(state.cards, any_deck, as_of, state.utc_offset_seconds),
            state.next_card_id,
        ),
{
    let offset = state.utc_offset_seconds;
    let due = due_in_deck(state.cards, any_deck, as_of, offset);
    lemma_due_cards_are_due(state.cards, any_deck, as_of, offset);
    if lists(due, state.next_card_id) {
        let k = choose|k: int|
            0 <= k < due.len() && (#[trigger] due[k]).id == state.next_card_id;
        let i = choose|i: int|
            0 <= i < state.cards.len() && state.cards[i].deck_id == any_deck && is_due(
                state.cards[i],
                as_of,
                offset,
            ) && text_of(state.cards[i]) == due[k];
        assert(state.cards[i].id < state.next_card_id);
    }
}

/// A card that was just made is due in its own deck and in no other, from
/// the moment it was made, and it is no leech: the count of leeches is what
/// it was.
pub proof fn law_new_card_is_due_in_its_deck_only(
    state: State,
    deck_id: u64,
    front: Seq<char>,
    back: Seq<char>,
    now: u64,
    as_of: u64,
    any_deck: u64,
    end: int,
)
    requires
        state.wf(),
        has_deck(state.decks, deck_id),
        state.next_card_id < u64::MAX,
        now <= as_of,
    ensures
        lists(
            due_in_deck(
                with_card(state, deck_id, front, back, now).cards,
                any_deck,
                as_of,
                state.utc_offset_seconds,
            ),
            state.next_card_id,
        ) == (any_deck == deck_id),
        due_in_deck(
            with_card(state, deck_id, front, back, now).cards,
            deck_id,
            as_of,
            state.utc_offset_seconds,
        ) == due_in_deck(state.cards, deck_id, as_of, state.utc_offset_seconds).push(
            CardText { id: state.next_card_id, front, back },
        ),
        !lists(
            due_in_deck(state.cards, deck_id, as_of, state.utc_offset_seconds),
            state.next_card_id,
        ),
        counted_cards(
            with_card(state, deck_id, front, back, now).cards,
            None,
            Tally::Leech,
            end,
        ) == counted_cards(state.cards, None, Tally::Leech, end),
{
    let after = with_card(state, deck_id, front, back, now);
    let offset = state.utc_offset_seconds;
    let id = state.next_card_id;
    lemma_next_day_is_near(as_of, offset);
    assert(after.cards.drop_last() =~= state.cards);
    assert(is_due(after.cards.last(), as_of, offset));
    let old_due = due_in_deck(state.cards, any_deck, as_of, offset);
    lemma_next_id_is_not_listed(state, any_deck, as_of);
    lemma_next_id_is_not_listed(state, deck_id, as_of);
    let new_due = due_in_deck(after.cards, any_deck, as_of, offset);
    if any_deck == deck_id {
        assert(new_due[new_due.len() - 1].id == id);
    } else {
        assert(new_due == old_due);
    }
}

/// The answer that brings a card's wrong answers to the threshold makes it
/// a leech without a schedule.
pub proof fn law_wrong_answers_make_leech(state: State, card_id: u64, now: u64, next: u16)
    requires
        state.wf(),
        has_card(state.cards, card_id),
        wrong_answers(state.answers, card_id) + 1 >= WRONG_ANSWERS_FOR_LEECH,
    ensures
        with_answer(state, card_id, false, now, next).card(card_id).is_leech,
        with_answer(state, card_id, false, now, next).card(card_id).scheduled_for.is_none(),
        wrong_answers(with_answer(state, card_id, false, now, next).answers, card_id)
            == wrong_answers(state.answers, card_id) + 1,
{
    let after = with_answer(state, card_id, false, now, next);
    let at = card_position(state.cards, card_id);
    assert(makes_leech(state.answers, card_id, false));
    assert(after.cards[at].id == card_id);
    lemma_position_is_unique(after.cards, card_id, at);
    assert(after.answers.drop_last() =~= state.answers);
}

/// In a store whose ids rise, a card is found where its id is.
pub proof fn lemma_position_is_unique(cards: Seq<CardModel>, id: u64, at: int)
    requires
        card_ids_rise(cards),
        0 <= at < cards.len(),
        cards[at].id == id,
    ensures
        card_position(cards, id) == at,
{
    let found = card_position(cards, id);
    assert(cards[found].id == id);
    if found < at {
        assert(cards[found].id < cards[at].id);
    } else if at < found {
        assert(cards[at].id < cards[found].id);
    }
}

/// A leech is in no deck's due list, whenever one asks and whatever its
/// schedule says.
pub proof fn law_leech_is_never_due(
    cards: Seq<CardModel>,
    card_id: u64,
    any_deck: u64,
    as_of: u64,
    utc_offset_seconds: i32,
)
    requires
        card_ids_rise(cards),
        has_card(cards, card_id),
        cards[card_position(cards, card_id)].is_leech,
    ensures
        !lists(due_in_deck(cards, any_deck, as_of, utc_offset_seconds), card_id),
{
    let due = due_in_deck(cards, any_deck, as_of, utc_offset_seconds);
    lemma_due_cards_are_due(cards, any_deck, as_of, utc_offset_seconds);
    if lists(due, card_id) {
        let k = choose|k: int| 0 <= k < due.len() && (#[trigger] due[k]).id == card_id;
        let i = choose|i: int|
            0 <= i < cards.len() && cards[i].deck_id == any_deck && is_due(
                cards[i],
                as_of,
                utc_offset_seconds,
            ) && text_of(cards[i]) == due[k];
        lemma_position_is_unique(cards, card_id, i);
    }
}

/// Once a leech, always a leech: no answer takes the mark away.
pub proof fn law_leech_stays_leech(card: CardModel, becomes_leech: bool, now: u64, next: u16)
    ensures
        rescheduled_card(card, becomes_leech, now, next).is_leech == (card.is_leech
            || becomes_leech),
{
}

/// A card that was answered and rests `next` days is not due on the day of
/// the answer, nor on any day that begins before its rest is over; it is due
/// on every day from the instant at which its rest is over.
pub proof fn law_answered_card_rests(
    state: State,
    card_id: u64,
    is_correct: bool,
    now: u64,
    next: u16,
    as_of: u64,
)
    requires
        state.wf(),
        has_card(state.cards, card_id),
        !state.card(card_id).is_leech,
        !makes_leech(state.answers, card_id, is_correct),
        1 <= next < AUTO_SUSPEND_INTERVAL,
        now + next * MILLIS_PER_DAY <= u64::MAX,
    ensures
        with_answer(state, card_id, is_correct, now, next).card(card_id).interval_days == Some(
            next,
        ),
        !is_due(
            with_answer(state, card_id, is_correct, now, next).card(card_id),
            now,
            state.utc_offset_seconds,
        ),
        start_of_next_day(as_of, state.utc_offset_seconds) <= now + next * MILLIS_PER_DAY
            ==> !is_due(
            with_answer(state, card_id, is_correct, now, next).card(card_id),
            as_of,
            state.utc_offset_seconds,
        ),
        as_of >= now + next * MILLIS_PER_DAY ==> is_due(
            with_answer(state, card_id, is_correct, now, next).card(card_id),
            as_of,
            state.utc_offset_seconds,
        ),
{
    let after = with_answer(state, card_id, is_correct, now, next);
    let at = card_position(state.cards, card_id);
    assert(after.cards[at].id == card_id);
    lemma_position_is_unique(after.cards, card_id, at);
    lemma_next_day_is_near(now, state.utc_offset_seconds);
    lemma_next_day_is_near(as_of, state.utc_offset_seconds);
    assert(now + next * MILLIS_PER_DAY >= now + MILLIS_PER_DAY) by (nonlinear_arith)
        requires
            next >= 1,
    ;
    assert(due_instant(now, next) == now + next * MILLIS_PER_DAY);
}

/// A card whose next interval reaches the threshold leaves the review cycle:
/// it has no schedule and no interval, and is never due.
pub proof fn law_long_interval_suspends(
    state: State,
    card_id: u64,
    is_correct: bool,
    now: u64,
    next: u16,
    as_of: u64,
)
    requires
        state.wf(),
        has_card(state.cards, card_id),
        next >= AUTO_SUSPEND_INTERVAL,
    ensures
        with_answer(state, card_id, is_correct, now, next).card(card_id).scheduled_for.is_none(),
        with_answer(state, card_id, is_correct, now, next).card(card_id).interval_days.is_none(),
        !is_due(
            with_answer(state, card_id, is_correct, now, next).card(card_id),
            as_of,
            state.utc_offset_seconds,
        ),
{
    let after = with_answer(state, card_id, is_correct, now, next);
    let at = card_position(state.cards, card_id);
    assert(after.cards[at].id == card_id);
    lemma_position_is_unique(after.cards, card_id, at);
}

/// Deleting a deck leaves neither the deck nor any of its cards.
pub proof fn law_deleted_deck_leaves_nothing(state: State, deck_id: u64)
    requires
        state.wf(),
        has_deck(state.decks, deck_id),
    ensures
        !has_deck(without_deck(state, deck_id).decks, deck_id),
        forall|i: int|
            0 <= i < without_deck(state, deck_id).cards.len() ==> (#[trigger] without_deck(
                state,
                deck_id,
            ).cards[i]).deck_id != deck_id,
        forall|i: int|
            0 <= i < state.cards.len() && (#[trigger] state.cards[i]).deck_id != deck_id
                ==> has_card(without_deck(state, deck_id).cards, state.cards[i].id),
{
    let after = without_deck(state, deck_id);
    let at = deck_position(state.decks, deck_id);
    lemma_cards_outside_contains(state.cards, deck_id);
    if has_deck(after.decks, deck_id) {
        let k = choose|k: int|
            0 <= k < after.decks.len() && (#[trigger] after.decks[k]).id == deck_id;
        if k < at {
            assert(state.decks[k].id < state.decks[at].id);
        } else {
            assert(state.decks[at].id < state.decks[k + 1].id);
        }
    }
    assert forall|i: int| 0 <= i < after.cards.len() implies (#[trigger] after.cards[i]).deck_id
        != deck_id by {
        assert(after.cards.contains(after.cards[i]));
    }
    assert forall|i: int|
        0 <= i < state.cards.len() && (#[trigger] state.cards[i]).deck_id
            != deck_id implies has_card(after.cards, state.cards[i].id) by {
        let c = state.cards[i];
        assert(state.cards.contains(c));
        assert(after.cards.contains(c));
        let k = choose|k: int| 0 <= k < after.cards.len() && after.cards[k] == c;
        assert(after.cards[k].id == c.id);
    }
}

/// A new card gets an id that no card of the store has, and that no card
/// had that was deleted since the store was made: ids below the next one are
/// never handed out again.
pub proof fn law_ids_are_never_reused(
    state: State,
    deck_id: u64,
    front: Seq<char>,
    back: Seq<char>,
    now: u64,
)
    requires
        state.wf(),
        state.next_card_id < u64::MAX,
    ensures
        !has_card(state.cards, state.next_card_id),
        with_card(state, deck_id, front, back, now).cards.last().id == state.next_card_id,
        with_card(state, deck_id, front, back, now).next_card_id > state.next_card_id,
{
    if has_card(state.cards, state.next_card_id) {
        let i = card_position(state.cards, state.next_card_id);
        assert(state.cards[i].id < state.next_card_id);
    }
}

/// Every card is counted once: as active, as suspended, or as a leech.
pub proof fn law_every_card_is_counted_once(cards: Seq<CardModel>, deck: Option<u64>, end: int)
    ensures
        counted_cards(cards, deck, Tally::Active, end) + counted_cards(
            cards,
            deck,
            Tally::Suspended,
            end,
        ) + counted_cards(cards, deck, Tally::Leech, end) <= cards.len(),
        deck.is_none() ==> counted_cards(cards, deck, Tally::Active, end) + counted_cards(
            cards,
            deck,
            Tally::Suspended,
            end,
        ) + counted_cards(cards, deck, Tally::Leech, end) == cards.len(),
    decreases cards.len(),
{
    if cards.len() > 0 {
        law_every_card_is_counted_once(cards.drop_last(), deck, end);
    }
}

/// In a store whose leeches have no schedule, every card that is counted as
/// due for review is counted as active.
pub proof fn law_cards_for_review_are_active(cards: Seq<CardModel>, deck: Option<u64>, end: int)
    requires
        forall|i: int|
            0 <= i < cards.len() && (#[trigger] cards[i]).is_leech
                ==> cards[i].scheduled_for.is_none(),
    ensures
        counted_cards(cards, deck, Tally::ForReview, end) <= counted_cards(
            cards,
            deck,
            Tally::Active,
            end,
        ),
    decreases cards.len(),
{
    if cards.len() > 0 {
        let front = cards.drop_last();
        assert forall|i: int|
            0 <= i < front.len() && (#[trigger] front[i]).is_leech implies front[i].scheduled_for.is_none() by {
            assert(front[i] == cards[i]);
        }
        law_cards_for_review_are_active(front, deck, end);
        assert(cards.last() == cards[cards.len() - 1]);
    }
}

} // verus!
