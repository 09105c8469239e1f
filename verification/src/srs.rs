//! The store of decks, cards, schedules and answers, with the rules that
//! every change to it obeys.

use crate::clock::{
    end_of_tomorrow, spec_end_of_tomorrow, spec_thirty_days_ago, start_of_day_after,
    start_of_next_day, thirty_days_ago, MILLIS_PER_DAY,
};
use crate::error::Error;
use crate::model::{
    answer_counts, answers_of, card_counts, card_ids_rise, card_list, card_position, cards_outside,
    counted_answers, counted_cards, deck_ids_rise, deck_position, deck_stats_of, decks_with_due,
    due_in_deck, due_instant, empty_state, global_stats_of, has_card, has_deck, held_u16, held_u32,
    is_due, last_answer, lemma_answers_of, lemma_cards_outside_contains, lemma_cards_outside_rise,
    lemma_same_ids_same_cards, preview_of, previews_newest_first, review_inputs_of, review_of,
    text_of, with_answer, with_card, with_card_in_deck, with_card_text, with_deck,
    with_interval_modifier, without_card, without_deck, wrong_answers, CardModel, CardText,
    DeckModel, DeckStatsModel, GroupModel, PreviewModel, State,
};
pub use crate::model::{
    AnswerRow, GlobalStats, ReviewInputs, Tally, AUTO_SUSPEND_INTERVAL, DEFAULT_INTERVAL_MODIFIER,
    MIN_INTERVAL_MODIFIER, WRONG_ANSWERS_FOR_LEECH,
};
use crate::rand::Rng;
use crate::schedule::Schedule;
use vstd::prelude::*;

verus! {

/// A deck as callers see it.
#[derive(Debug)]
pub struct Deck {
    pub id: u64,
    pub name: String,
    pub interval_modifier: u16,
}

/// A card as it is listed.
#[derive(Debug)]
pub struct CardPreview {
    pub id: u64,
    pub front: String,
    pub is_leech: bool,
}

/// A card as it is reviewed and edited.
#[derive(Debug)]
pub struct Card {
    pub id: u64,
    pub front: String,
    pub back: String,
}

/// Counts over one deck.
#[derive(Debug)]
pub struct DeckStats {
    pub name: String,
    pub active: u32,
    pub suspended: u32,
    pub leech: u16,
    /// Cards of the deck due before the end of tomorrow.
    pub for_review: u16,
    /// Correct answers to the deck's cards in the last thirty days.
    pub correct: u16,
    /// Wrong answers to the deck's cards in the last thirty days.
    pub wrong: u16,
}

/// A deck as the store keeps it.
#[derive(Debug)]
pub struct DeckRow {
    pub id: u64,
    pub name: String,
    pub interval_modifier: u16,
    pub creation_time: u64,
}

/// A card as the store keeps it, together with its schedule: the two are
/// made and removed as one.
#[derive(Debug)]
pub struct CardRow {
    pub id: u64,
    pub deck_id: u64,
    pub front: String,
    pub back: String,
    pub creation_time: u64,
    /// Days the card last rested; zero before the first review, absent once
    /// the card has left the review cycle.
    pub interval_days: Option<u16>,
    /// The instant from which the card is due; absent for a suspended card
    /// and for a leech.
    pub scheduled_for: Option<u64>,
    pub is_leech: bool,
}

impl View for DeckRow {
    type V = DeckModel;

    open spec fn view(&self) -> DeckModel {
        DeckModel {
            id: self.id,
            name: self.name@,
            interval_modifier: self.interval_modifier,
            creation_time: self.creation_time,
        }
    }
}

impl View for CardRow {
    type V = CardModel;

    open spec fn view(&self) -> CardModel {
        CardModel {
            id: self.id,
            deck_id: self.deck_id,
            front: self.front@,
            back: self.back@,
            creation_time: self.creation_time,
            interval_days: self.interval_days,
            scheduled_for: self.scheduled_for,
            is_leech: self.is_leech,
        }
    }
}

/// The store in memory.
pub struct Srs {
    pub decks: Vec<DeckRow>,
    pub cards: Vec<CardRow>,
    pub answers: Vec<AnswerRow>,
    pub next_deck_id: u64,
    pub next_card_id: u64,
    pub utc_offset_seconds: i32,
}

/// The decks that a vector of rows holds.
pub open spec fn deck_models(rows: Seq<DeckRow>) -> Seq<DeckModel> {
    Seq::new(rows.len(), |i: int| rows[i]@)
}

/// The cards that a vector of rows holds.
pub open spec fn card_models(rows: Seq<CardRow>) -> Seq<CardModel> {
    Seq::new(rows.len(), |i: int| rows[i]@)
}

impl View for Srs {
    type V = State;

    open spec fn view(&self) -> State {
        State {
            decks: deck_models(self.decks@),
            cards: card_models(self.cards@),
            answers: self.answers@,
            next_deck_id: self.next_deck_id,
            next_card_id: self.next_card_id,
            utc_offset_seconds: self.utc_offset_seconds,
        }
    }
}

impl View for Card {
    type V = CardText;

    open spec fn view(&self) -> CardText {
        CardText { id: self.id, front: self.front@, back: self.back@ }
    }
}

/// The cards that a vector of cards holds.
pub open spec fn card_texts(cards: Seq<Card>) -> Seq<CardText> {
    Seq::new(cards.len(), |i: int| cards[i]@)
}

/// Whether `group` is the review's group for `deck`: it carries the deck's
/// name and holds the deck's due cards, each once, in some order.
pub open spec fn is_review_group(
    state: State,
    deck: DeckModel,
    as_of: u64,
    group: (String, Vec<Card>),
) -> bool {
    &&& group.0@ == deck.name
    &&& card_texts(group.1@).to_multiset() == due_in_deck(
        state.cards,
        deck.id,
        as_of,
        state.utc_offset_seconds,
    ).to_multiset()
}

/// The groups that a vector of groups holds.
pub open spec fn group_models(groups: Seq<(String, Vec<Card>)>) -> Seq<GroupModel> {
    Seq::new(
        groups.len(),
        |k: int| GroupModel { deck_name: groups[k].0@, cards: card_texts(groups[k].1@) },
    )
}

impl View for DeckStats {
    type V = DeckStatsModel;

    open spec fn view(&self) -> DeckStatsModel {
        DeckStatsModel {
            name: self.name@,
            active: self.active,
            suspended: self.suspended,
            leech: self.leech,
            for_review: self.for_review,
            correct: self.correct,
            wrong: self.wrong,
        }
    }
}

/// The counts that a vector of deck statistics holds.
pub open spec fn deck_stats_models(rows: Seq<DeckStats>) -> Seq<DeckStatsModel> {
    Seq::new(rows.len(), |i: int| rows[i]@)
}

impl View for CardPreview {
    type V = PreviewModel;

    open spec fn view(&self) -> PreviewModel {
        PreviewModel { id: self.id, front: self.front@, is_leech: self.is_leech }
    }
}

/// The lines that a vector of previews holds.
pub open spec fn preview_models(rows: Seq<CardPreview>) -> Seq<PreviewModel> {
    Seq::new(rows.len(), |i: int| rows[i]@)
}

impl DeckRow {
    /// The deck as callers see it.
    pub fn to_deck(&self) -> (deck: Deck)
        ensures
            deck.id == self.id,
            deck.name@ == self.name@,
            deck.interval_modifier == self.interval_modifier,
    {
        Deck { id: self.id, name: self.name.clone(), interval_modifier: self.interval_modifier }
    }
}

impl Srs {
    /// See [`State::wf`].
    pub open spec fn wf(&self) -> bool {
        self@.wf()
    }

    /// A store without decks or cards, for the time zone that lies
    /// `utc_offset_seconds` east of UTC.
    pub fn new(utc_offset_seconds: i32) -> (srs: Self)
        ensures
            srs@ == empty_state(utc_offset_seconds),
            srs.wf(),
    {
        let srs = Srs {
            decks: Vec::new(),
            cards: Vec::new(),
            answers: Vec::new(),
            next_deck_id: 1,
            next_card_id: 1,
            utc_offset_seconds,
        };
        assert(srs@.decks =~= Seq::<DeckModel>::empty());
        assert(srs@.cards =~= Seq::<CardModel>::empty());
        srs
    }

    /// Where the deck with this id lies, if there is one.
    pub fn find_deck(&self, id: u64) -> (found: Option<usize>)
        ensures
            found.is_some() == has_deck(self@.decks, id),
            found matches Some(i) ==> i < self@.decks.len() && self@.decks[i as int].id == id,
            self.wf() && found.is_some() ==> found.unwrap() == deck_position(self@.decks, id),
    {
        let mut i: usize = 0;
        while i < self.decks.len()
            invariant
                i <= self.decks.len(),
                forall|k: int| 0 <= k < i ==> (#[trigger] self@.decks[k]).id != id,
            decreases self.decks.len() - i,
        {
            if self.decks[i].id == id {
                assert(self@.decks[i as int].id == id);
                return Some(i);
            }
            i += 1;
        }
        None
    }

    /// Where the card with this id lies, if there is one.
    pub fn find_card(&self, id: u64) -> (found: Option<usize>)
        ensures
            found.is_some() == has_card(self@.cards, id),
            found matches Some(i) ==> i < self@.cards.len() && self@.cards[i as int].id == id,
            self.wf() && found.is_some() ==> found.unwrap() == card_position(self@.cards, id),
    {
        let mut i: usize = 0;
        while i < self.cards.len()
            invariant
                i <= self.cards.len(),
                forall|k: int| 0 <= k < i ==> (#[trigger] self@.cards[k]).id != id,
            decreases self.cards.len() - i,
        {
            if self.cards[i].id == id {
                assert(self@.cards[i as int].id == id);
                return Some(i);
            }
            i += 1;
        }
        None
    }

    /// All decks, by rising id.
    pub fn decks(&self) -> (decks: Vec<Deck>)
        ensures
            decks@.len() == self@.decks.len(),
            forall|i: int|
                0 <= i < decks@.len() ==> {
                    &&& (#[trigger] decks@[i]).id == self@.decks[i].id
                    &&& decks@[i].name@ == self@.decks[i].name
                    &&& decks@[i].interval_modifier == self@.decks[i].interval_modifier
                },
    {
        let mut decks: Vec<Deck> = Vec::new();
        let mut i: usize = 0;
        while i < self.decks.len()
            invariant
                i <= self.decks.len(),
                decks@.len() == i,
                forall|k: int|
                    0 <= k < i ==> {
                        &&& (#[trigger] decks@[k]).id == self@.decks[k].id
                        &&& decks@[k].name@ == self@.decks[k].name
                        &&& decks@[k].interval_modifier == self@.decks[k].interval_modifier
                    },
            decreases self.decks.len() - i,
        {
            decks.push(self.decks[i].to_deck());
            i += 1;
        }
        decks
    }

    /// The deck with this id.
    pub fn get_deck(&self, id: u64) -> (deck: Result<Deck, Error>)
        ensures
            !has_deck(self@.decks, id) ==> deck == Err::<Deck, Error>(Error::UnknownDeck),
            has_deck(self@.decks, id) ==> deck.is_ok() && deck.unwrap().id == id,
            self.wf() && has_deck(self@.decks, id) ==> {
                &&& deck.unwrap().name@ == self@.deck(id).name
                &&& deck.unwrap().interval_modifier == self@.deck(id).interval_modifier
            },
    {
        match self.find_deck(id) {
            Some(i) => Ok(self.decks[i].to_deck()),
            None => Err(Error::UnknownDeck),
        }
    }

    /// Makes a deck named `name` with the default interval modifier and a
    /// fresh id.
    ///
    /// Fails, changing nothing, when the name is empty, and when the store
    /// has no id left to give.
    pub fn create_deck(&mut self, name: &str, now: u64) -> (created: Result<(), Error>)
        requires
            old(self).wf(),
        ensures
            final(self).wf(),
            name@.len() == 0 ==> created == Err::<(), Error>(Error::EmptyDeckName),
            name@.len() != 0 && old(self)@.next_deck_id == u64::MAX ==> created == Err::<
                (),
                Error,
            >(Error::IdsExhausted),
            name@.len() != 0 && old(self)@.next_deck_id < u64::MAX ==> created.is_ok(),
            created.is_ok() ==> final(self)@ == with_deck(old(self)@, name@, now),
            created.is_err() ==> final(self)@ == old(self)@,
    {
        if name.is_empty() {
            return Err(Error::EmptyDeckName);
        }
        if self.next_deck_id == u64::MAX {
            return Err(Error::IdsExhausted);
        }
        let id: u64 = self.next_deck_id;
        self.decks.push(
            DeckRow {
                id,
                name: name.to_owned(),
                interval_modifier: DEFAULT_INTERVAL_MODIFIER,
                creation_time: now,
            },
        );
        self.next_deck_id = id + 1;
        proof {
            let after = with_deck(old(self)@, name@, now);
            assert(self@.decks =~= after.decks);
            assert(self@.cards =~= old(self)@.cards);
            assert forall|i: int| 0 <= i < self@.cards.len() implies has_deck(
                self@.decks,
                (#[trigger] self@.cards[i]).deck_id,
            ) by {
                let at = deck_position(old(self)@.decks, self@.cards[i].deck_id);
                assert(self@.decks[at].id == self@.cards[i].deck_id);
            }
        }
        Ok(())
    }

    /// Sets the interval modifier of the deck with this id.
    ///
    /// Fails, changing nothing, when the modifier is below the minimum, and
    /// when there is no such deck.
    pub fn update_interval_modifier(&mut self, id: u64, modifier: u16) -> (updated: Result<
        (),
        Error,
    >)
        requires
            old(self).wf(),
        ensures
            final(self).wf(),
            modifier < MIN_INTERVAL_MODIFIER ==> updated == Err::<(), Error>(
                Error::IntervalModifierTooSmall,
            ),
            modifier >= MIN_INTERVAL_MODIFIER && !has_deck(old(self)@.decks, id) ==> updated
                == Err::<(), Error>(Error::UnknownDeck),
            modifier >= MIN_INTERVAL_MODIFIER && has_deck(old(self)@.decks, id)
                ==> updated.is_ok(),
            updated.is_ok() ==> final(self)@ == with_interval_modifier(old(self)@, id, modifier),
            updated.is_err() ==> final(self)@ == old(self)@,
    {
        if modifier < MIN_INTERVAL_MODIFIER {
            return Err(Error::IntervalModifierTooSmall);
        }
        let at: usize = match self.find_deck(id) {
            Some(i) => i,
            None => { return Err(Error::UnknownDeck); },
        };
        self.decks[at].interval_modifier = modifier;
        proof {
            let after = with_interval_modifier(old(self)@, id, modifier);
            assert(self@.decks =~= after.decks);
            assert(self@.cards =~= old(self)@.cards);
            assert forall|i: int| 0 <= i < self@.cards.len() implies has_deck(
                self@.decks,
                (#[trigger] self@.cards[i]).deck_id,
            ) by {
                let p = deck_position(old(self)@.decks, self@.cards[i].deck_id);
                assert(self@.decks[p].id == self@.cards[i].deck_id);
            }
        }
        Ok(())
    }

    /// Whether the decks are as a store's decks must be.
    pub fn decks_are_sound(&self) -> (sound: bool)
        ensures
            sound == self@.decks_wf(),
    {
        let ghost decks = self@.decks;
        let mut i: usize = 0;
        while i < self.decks.len()
            invariant
                i <= self.decks.len(),
                decks == self@.decks,
                forall|a: int, b: int|
                    0 <= a < b < i ==> (#[trigger] decks[a]).id < (#[trigger] decks[b]).id,
                forall|k: int|
                    0 <= k < i ==> {
                        &&& (#[trigger] decks[k]).id < self.next_deck_id
                        &&& decks[k].name.len() > 0
                        &&& decks[k].interval_modifier >= MIN_INTERVAL_MODIFIER
                    },
            decreases self.decks.len() - i,
        {
            let deck: &DeckRow = &self.decks[i];
            assert(deck@ == decks[i as int]);
            let sound: bool = deck.id < self.next_deck_id && !deck.name.as_str().is_empty()
                && deck.interval_modifier >= MIN_INTERVAL_MODIFIER && (i == 0 || self.decks[i
                - 1].id < deck.id);
            if !sound {
                proof {
                    if i > 0 && decks[i - 1].id >= decks[i as int].id {
                        assert(!deck_ids_rise(decks));
                    }
                }
                return false;
            }
            assert forall|a: int, b: int| 0 <= a < b < i + 1 implies (#[trigger] decks[a]).id < (
            #[trigger] decks[b]).id by {
                if b == i && a < i - 1 {
                    assert(decks[a].id < decks[i - 1].id);
                }
            }
            i += 1;
        }
        true
    }

    /// Whether the cards are as a store's cards must be.
    pub fn cards_are_sound(&self) -> (sound: bool)
        ensures
            sound == self@.cards_wf(),
    {
        let ghost cards = self@.cards;
        let mut i: usize = 0;
        while i < self.cards.len()
            invariant
                i <= self.cards.len(),
                cards == self@.cards,
                forall|a: int, b: int|
                    0 <= a < b < i ==> (#[trigger] cards[a]).id < (#[trigger] cards[b]).id,
                forall|k: int|
                    0 <= k < i ==> {
                        &&& (#[trigger] cards[k]).id < self.next_card_id
                        &&& cards[k].front.len() > 0
                        &&& has_deck(self@.decks, cards[k].deck_id)
                        &&& cards[k].scheduled_for.is_some() == cards[k].interval_days.is_some()
                        &&& cards[k].is_leech ==> cards[k].scheduled_for.is_none()
                    },
            decreases self.cards.len() - i,
        {
            let card: &CardRow = &self.cards[i];
            assert(card@ == cards[i as int]);
            let sound: bool = card.id < self.next_card_id && !card.front.as_str().is_empty()
                && self.find_deck(card.deck_id).is_some() && card.scheduled_for.is_some()
                == card.interval_days.is_some() && (!card.is_leech || card.scheduled_for.is_none())
                && (i == 0 || self.cards[i - 1].id < card.id);
            if !sound {
                proof {
                    if i > 0 && cards[i - 1].id >= cards[i as int].id {
                        assert(!card_ids_rise(cards));
                    }
                }
                return false;
            }
            assert forall|a: int, b: int| 0 <= a < b < i + 1 implies (#[trigger] cards[a]).id < (
            #[trigger] cards[b]).id by {
                if b == i && a < i - 1 {
                    assert(cards[a].id < cards[i - 1].id);
                }
            }
            i += 1;
        }
        true
    }

    /// Whether the answers are as a store's answers must be.
    pub fn answers_are_sound(&self) -> (sound: bool)
        ensures
            sound == self@.answers_wf(),
    {
        let mut i: usize = 0;
        while i < self.answers.len()
            invariant
                i <= self.answers.len(),
                forall|k: int|
                    0 <= k < i ==> has_card(self@.cards, (#[trigger] self@.answers[k]).card_id),
            decreases self.answers.len() - i,
        {
            if self.find_card(self.answers[i].card_id).is_none() {
                assert(!has_card(self@.cards, self@.answers[i as int].card_id));
                return false;
            }
            i += 1;
        }
        true
    }

    /// Whether the store is as a store must be. Every operation keeps it so;
    /// a store that was put together from rows read elsewhere is checked
    /// with this before it is used.
    pub fn is_sound(&self) -> (sound: bool)
        ensures
            sound == self.wf(),
    {
        self.decks_are_sound() && self.cards_are_sound() && self.answers_are_sound()
    }

    /// Adds a card to the deck with this id: never reviewed and due at once.
    ///
    /// Fails, changing nothing, when the front is empty, when there is no
    /// such deck, and when the store has no id left to give.
    pub fn create_card(&mut self, deck_id: u64, front: String, back: String, now: u64) -> (created:
        Result<(), Error>)
        requires
            old(self).wf(),
        ensures
            final(self).wf(),
            front@.len() == 0 ==> created == Err::<(), Error>(Error::EmptyFront),
            front@.len() != 0 && !has_deck(old(self)@.decks, deck_id) ==> created == Err::<
                (),
                Error,
            >(Error::UnknownDeck),
            front@.len() != 0 && has_deck(old(self)@.decks, deck_id) && old(self)@.next_card_id
                == u64::MAX ==> created == Err::<(), Error>(Error::IdsExhausted),
            front@.len() != 0 && has_deck(old(self)@.decks, deck_id) && old(self)@.next_card_id
                < u64::MAX ==> created.is_ok(),
            created.is_ok() ==> final(self)@ == with_card(old(self)@, deck_id, front@, back@, now),
            created.is_err() ==> final(self)@ == old(self)@,
    {
        if front.as_str().is_empty() {
            return Err(Error::EmptyFront);
        }
        if self.find_deck(deck_id).is_none() {
            return Err(Error::UnknownDeck);
        }
        if self.next_card_id == u64::MAX {
            return Err(Error::IdsExhausted);
        }
        let id: u64 = self.next_card_id;
        let ghost front_text = front@;
        let ghost back_text = back@;
        self.cards.push(
            CardRow {
                id,
                deck_id,
                front,
                back,
                creation_time: now,
                interval_days: Some(0),
                scheduled_for: Some(now),
                is_leech: false,
            },
        );
        self.next_card_id = id + 1;
        proof {
            let after = with_card(old(self)@, deck_id, front_text, back_text, now);
            assert(self@.cards =~= after.cards);
            assert(self@.decks =~= old(self)@.decks);
            assert forall|i: int| 0 <= i < self@.answers.len() implies has_card(
                self@.cards,
                (#[trigger] self@.answers[i]).card_id,
            ) by {
                let at = card_position(old(self)@.cards, self@.answers[i].card_id);
                assert(self@.cards[at].id == self@.answers[i].card_id);
            }
        }
        Ok(())
    }

    /// The card with this id.
    pub fn get_card(&self, id: u64) -> (card: Result<Card, Error>)
        ensures
            !has_card(self@.cards, id) ==> card == Err::<Card, Error>(Error::UnknownCard),
            has_card(self@.cards, id) ==> card.is_ok() && card.unwrap().id == id,
            self.wf() && has_card(self@.cards, id) ==> {
                &&& card.unwrap().front@ == self@.card(id).front
                &&& card.unwrap().back@ == self@.card(id).back
            },
    {
        match self.find_card(id) {
            Some(i) => Ok(self.cards[i].to_card()),
            None => Err(Error::UnknownCard),
        }
    }

    /// Replaces the texts of the card with this id. Its schedule and its
    /// answers stay as they are.
    ///
    /// Fails, changing nothing, when the front is empty, and when there is
    /// no such card.
    pub fn update_card(&mut self, id: u64, front: String, back: String) -> (updated: Result<
        (),
        Error,
    >)
        requires
            old(self).wf(),
        ensures
            final(self).wf(),
            front@.len() == 0 ==> updated == Err::<(), Error>(Error::EmptyFront),
            front@.len() != 0 && !has_card(old(self)@.cards, id) ==> updated == Err::<(), Error>(
                Error::UnknownCard,
            ),
            front@.len() != 0 && has_card(old(self)@.cards, id) ==> updated.is_ok(),
            updated.is_ok() ==> final(self)@ == with_card_text(old(self)@, id, front@, back@),
            updated.is_err() ==> final(self)@ == old(self)@,
    {
        if front.as_str().is_empty() {
            return Err(Error::EmptyFront);
        }
        let at: usize = match self.find_card(id) {
            Some(i) => i,
            None => { return Err(Error::UnknownCard); },
        };
        let ghost front_text = front@;
        let ghost back_text = back@;
        self.cards[at].front = front;
        self.cards[at].back = back;
        proof {
            let after = with_card_text(old(self)@, id, front_text, back_text);
            assert(self@.cards =~= after.cards);
            assert(self@.decks =~= old(self)@.decks);
            lemma_same_ids_same_cards(old(self)@.cards, self@.cards);
        }
        Ok(())
    }

    /// Moves the card with this id to another deck.
    ///
    /// Fails, changing nothing, when there is no such card, and when there
    /// is no such deck.
    pub fn switch_deck(&mut self, card_id: u64, deck_id: u64) -> (switched: Result<(), Error>)
        requires
            old(self).wf(),
        ensures
            final(self).wf(),
            !has_card(old(self)@.cards, card_id) ==> switched == Err::<(), Error>(
                Error::UnknownCard,
            ),
            has_card(old(self)@.cards, card_id) && !has_deck(old(self)@.decks, deck_id)
                ==> switched == Err::<(), Error>(Error::UnknownDeck),
            has_card(old(self)@.cards, card_id) && has_deck(old(self)@.decks, deck_id)
                ==> switched.is_ok(),
            switched.is_ok() ==> final(self)@ == with_card_in_deck(old(self)@, card_id, deck_id),
            switched.is_err() ==> final(self)@ == old(self)@,
    {
        let at: usize = match self.find_card(card_id) {
            Some(i) => i,
            None => { return Err(Error::UnknownCard); },
        };
        if self.find_deck(deck_id).is_none() {
            return Err(Error::UnknownDeck);
        }
        self.cards[at].deck_id = deck_id;
        proof {
            let after = with_card_in_deck(old(self)@, card_id, deck_id);
            assert(self@.cards =~= after.cards);
            assert(self@.decks =~= old(self)@.decks);
            lemma_same_ids_same_cards(old(self)@.cards, self@.cards);
        }
        Ok(())
    }

    /// Deletes the card with this id, and with it its schedule and its
    /// answers.
    ///
    /// Fails, changing nothing, when there is no such card.
    pub fn delete_card(&mut self, id: u64) -> (deleted: Result<(), Error>)
        requires
            old(self).wf(),
        ensures
            final(self).wf(),
            deleted.is_ok() == has_card(old(self)@.cards, id),
            deleted.is_err() ==> deleted == Err::<(), Error>(Error::UnknownCard),
            deleted.is_ok() ==> final(self)@ == without_card(old(self)@, id),
            deleted.is_err() ==> final(self)@ == old(self)@,
    {
        let at: usize = match self.find_card(id) {
            Some(i) => i,
            None => { return Err(Error::UnknownCard); },
        };
        self.cards.remove(at);
        let kept: Vec<AnswerRow> = answers_to(&self.answers, &self.cards);
        self.answers = kept;
        proof {
            let after = without_card(old(self)@, id);
            assert(self@.cards =~= after.cards);
            assert(self@.decks =~= old(self)@.decks);
            lemma_answers_of(old(self)@.answers, self@.cards);
        }
        Ok(())
    }

    /// Deletes the deck with this id, and with it its cards, their schedules
    /// and their answers.
    ///
    /// Fails, changing nothing, when there is no such deck.
    pub fn delete_deck(&mut self, id: u64) -> (deleted: Result<(), Error>)
        requires
            old(self).wf(),
        ensures
            final(self).wf(),
            deleted.is_ok() == has_deck(old(self)@.decks, id),
            deleted.is_err() ==> deleted == Err::<(), Error>(Error::UnknownDeck),
            deleted.is_ok() ==> final(self)@ == without_deck(old(self)@, id),
            deleted.is_err() ==> final(self)@ == old(self)@,
    {
        let at: usize = match self.find_deck(id) {
            Some(i) => i,
            None => { return Err(Error::UnknownDeck); },
        };
        self.decks.remove(at);
        let cards: Vec<CardRow> = cards_not_in(&self.cards, id);
        let answers: Vec<AnswerRow> = answers_to(&self.answers, &cards);
        self.cards = cards;
        self.answers = answers;
        proof {
            let before = old(self)@;
            let after = without_deck(before, id);
            assert(self@.decks =~= after.decks);
            lemma_cards_outside_contains(before.cards, id);
            lemma_cards_outside_rise(before.cards, id);
            lemma_answers_of(before.answers, self@.cards);
            assert forall|i: int| 0 <= i < self@.cards.len() implies {
                &&& (#[trigger] self@.cards[i]).id < self@.next_card_id
                &&& self@.cards[i].front.len() > 0
                &&& has_deck(self@.decks, self@.cards[i].deck_id)
                &&& self@.cards[i].scheduled_for.is_some() == self@.cards[i].interval_days.is_some()
                &&& self@.cards[i].is_leech ==> self@.cards[i].scheduled_for.is_none()
            } by {
                let c = self@.cards[i];
                assert(self@.cards.contains(c));
                assert(before.cards.contains(c));
                let k = choose|k: int| 0 <= k < before.cards.len() && before.cards[k] == c;
                let p = deck_position(before.decks, c.deck_id);
                assert(before.decks[p].id == c.deck_id);
                if p < at {
                    assert(self@.decks[p].id == c.deck_id);
                } else {
                    assert(self@.decks[p - 1].id == c.deck_id);
                }
            }
        }
        Ok(())
    }

    /// The card list: the leeches, then the other cards, each newest first.
    pub fn card_previews(&self) -> (previews: Vec<CardPreview>)
        ensures
            preview_models(previews@) == card_list(self@.cards),
    {
        let mut previews: Vec<CardPreview> = Vec::new();
        self.push_previews(&mut previews, true);
        self.push_previews(&mut previews, false);
        previews
    }

    /// Appends the lines of the leeches (or, for `leeches` false, of the
    /// other cards), newest first.
    fn push_previews(&self, previews: &mut Vec<CardPreview>, leeches: bool)
        ensures
            preview_models(final(previews)@) == preview_models(old(previews)@)
                + previews_newest_first(self@.cards, leeches),
    {
        let ghost cards = self@.cards;
        let ghost head = preview_models(previews@);
        let mut i: usize = self.cards.len();
        assert(cards.skip(i as int) =~= Seq::<CardModel>::empty());
        assert(preview_models(previews@) =~= head + previews_newest_first(
            cards.skip(i as int),
            leeches,
        ));
        while i > 0
            invariant
                i <= self.cards.len(),
                cards == self@.cards,
                preview_models(previews@) == head + previews_newest_first(
                    cards.skip(i as int),
                    leeches,
                ),
            decreases i,
        {
            i -= 1;
            let ghost before = preview_models(previews@);
            assert(cards.skip(i as int).drop_first() =~= cards.skip(i + 1));
            assert(cards.skip(i as int).first() == self.cards@[i as int]@);
            if self.cards[i].is_leech == leeches {
                previews.push(self.cards[i].to_preview());
                assert(preview_models(previews@) =~= before.push(preview_of(cards[i as int])));
            }
            assert(preview_models(previews@) =~= head + previews_newest_first(
                cards.skip(i as int),
                leeches,
            ));
        }
        assert(cards.skip(0) =~= cards);
    }

    /// How many wrong answers to the card with this id are on record.
    pub fn count_wrong_answers(&self, card_id: u64) -> (count: usize)
        ensures
            count == wrong_answers(self@.answers, card_id),
    {
        let mut count: usize = 0;
        let mut i: usize = 0;
        assert(self@.answers.take(0) =~= Seq::<AnswerRow>::empty());
        while i < self.answers.len()
            invariant
                i <= self.answers.len(),
                count <= i,
                count == wrong_answers(self@.answers.take(i as int), card_id),
            decreases self.answers.len() - i,
        {
            assert(self@.answers.take(i + 1).drop_last() =~= self@.answers.take(i as int));
            if self.answers[i].card_id == card_id && !self.answers[i].is_correct {
                count += 1;
            }
            i += 1;
        }
        assert(self@.answers.take(i as int) =~= self@.answers);
        count
    }

    /// Whether the latest answer to the card with this id was correct, where
    /// there is an answer to it.
    pub fn latest_answer(&self, card_id: u64) -> (latest: Option<bool>)
        ensures
            latest == last_answer(self@.answers, card_id),
    {
        let mut i: usize = self.answers.len();
        assert(self@.answers.take(i as int) =~= self@.answers);
        while i > 0
            invariant
                i <= self.answers.len(),
                last_answer(self@.answers, card_id) == last_answer(
                    self@.answers.take(i as int),
                    card_id,
                ),
            decreases i,
        {
            i -= 1;
            assert(self@.answers.take(i + 1).drop_last() =~= self@.answers.take(i as int));
            if self.answers[i].card_id == card_id {
                return Some(self.answers[i].is_correct);
            }
        }
        None
    }

    /// What the scheduler is asked about the card with this id.
    pub fn review_inputs(&self, card_id: u64) -> (inputs: Result<ReviewInputs, Error>)
        requires
            self.wf(),
        ensures
            inputs == review_inputs_of(self@, card_id),
    {
        let at: usize = match self.find_card(card_id) {
            Some(i) => i,
            None => { return Err(Error::UnknownCard); },
        };
        let previous_interval: u16 = match self.cards[at].interval_days {
            Some(days) => days,
            None => { return Err(Error::NotScheduled); },
        };
        let was_correct: Option<bool> = self.latest_answer(card_id);
        if previous_interval > 1 && was_correct.is_none() {
            return Err(Error::MissingAnswerHistory);
        }
        let deck_id: u64 = self.cards[at].deck_id;
        assert(has_deck(self@.decks, self@.cards[at as int].deck_id));
        let deck_at: usize = match self.find_deck(deck_id) {
            Some(i) => i,
            None => { return Err(Error::UnknownDeck); },
        };
        Ok(
            ReviewInputs {
                previous_interval,
                was_correct,
                interval_modifier: self.decks[deck_at].interval_modifier,
            },
        )
    }

    /// Records an answer to the card with this id, given at `now`, and
    /// reschedules the card by `next`, the interval that the scheduler chose.
    /// The answer, the new schedule and the leech mark change together.
    ///
    /// Fails, changing nothing, when there is no such card, and when the card
    /// is not scheduled.
    pub fn apply_answer(&mut self, card_id: u64, is_correct: bool, now: u64, next: u16) -> (applied:
        Result<(), Error>)
        requires
            old(self).wf(),
        ensures
            final(self).wf(),
            !has_card(old(self)@.cards, card_id) ==> applied == Err::<(), Error>(
                Error::UnknownCard,
            ),
            has_card(old(self)@.cards, card_id) && old(self)@.card(card_id).interval_days.is_none()
                ==> applied == Err::<(), Error>(Error::NotScheduled),
            has_card(old(self)@.cards, card_id) && old(self)@.card(card_id).interval_days.is_some()
                ==> applied.is_ok(),
            applied.is_ok() ==> final(self)@ == with_answer(
                old(self)@,
                card_id,
                is_correct,
                now,
                next,
            ),
            applied.is_err() ==> final(self)@ == old(self)@,
    {
        let at: usize = match self.find_card(card_id) {
            Some(i) => i,
            None => { return Err(Error::UnknownCard); },
        };
        if self.cards[at].interval_days.is_none() {
            return Err(Error::NotScheduled);
        }
        let wrong_before: usize = self.count_wrong_answers(card_id);
        let becomes_leech: bool = !is_correct && wrong_before >= WRONG_ANSWERS_FOR_LEECH - 1;
        self.answers.push(AnswerRow { card_id, is_correct, timestamp: now });
        if becomes_leech {
            self.cards[at].interval_days = None;
            self.cards[at].scheduled_for = None;
            self.cards[at].is_leech = true;
        } else if next >= AUTO_SUSPEND_INTERVAL {
            self.cards[at].interval_days = None;
            self.cards[at].scheduled_for = None;
        } else {
            self.cards[at].interval_days = Some(next);
            self.cards[at].scheduled_for = Some(due_instant_of(now, next));
        }
        proof {
            let after = with_answer(old(self)@, card_id, is_correct, now, next);
            assert(self@.cards =~= after.cards);
            assert(self@.decks =~= old(self)@.decks);
            lemma_same_ids_same_cards(old(self)@.cards, self@.cards);
            assert(self@.cards[at as int].id == card_id);
        }
        Ok(())
    }

    /// Records an answer to the card with this id, given at `now`: asks
    /// `schedule` for the card's next interval, from the interval it last
    /// rested and the answer before this one, and applies it.
    ///
    /// Fails, changing nothing, when there is no such card, when the card is
    /// not scheduled, and when an established card has no answer on record.
    pub fn record_answer<S: Schedule>(
        &mut self,
        card_id: u64,
        is_correct: bool,
        now: u64,
        schedule: &mut S,
    ) -> (recorded: Result<(), Error>)
        requires
            old(self).wf(),
        ensures
            final(self).wf(),
            review_inputs_of(old(self)@, card_id) matches Err(e) ==> recorded == Err::<(), Error>(
                e,
            ) && final(self)@ == old(self)@,
            review_inputs_of(old(self)@, card_id) matches Ok(inputs) ==> recorded.is_ok()
                && exists|next: u16|
                {
                    &&& next >= 1
                    &&& S::allows(
                        inputs.previous_interval,
                        inputs.was_correct,
                        inputs.interval_modifier,
                        next,
                    )
                    &&& final(self)@ == #[trigger] with_answer(
                        old(self)@,
                        card_id,
                        is_correct,
                        now,
                        next,
                    )
                },
    {
        let inputs: ReviewInputs = match self.review_inputs(card_id) {
            Ok(inputs) => inputs,
            Err(e) => { return Err(e); },
        };
        let next: u16 = schedule.next_interval(
            inputs.previous_interval,
            inputs.was_correct,
            inputs.interval_modifier,
        );
        let applied: Result<(), Error> = self.apply_answer(card_id, is_correct, now, next);
        assert(self@ == with_answer(old(self)@, card_id, is_correct, now, next));
        applied
    }

    /// Records a correct answer to the card with this id.
    pub fn answer_correct<S: Schedule>(
        &mut self,
        card_id: u64,
        now: u64,
        schedule: &mut S,
    ) -> (recorded: Result<(), Error>)
        requires
            old(self).wf(),
        ensures
            final(self).wf(),
            review_inputs_of(old(self)@, card_id) matches Err(e) ==> recorded == Err::<(), Error>(
                e,
            ) && final(self)@ == old(self)@,
            review_inputs_of(old(self)@, card_id) matches Ok(inputs) ==> recorded.is_ok()
                && exists|next: u16|
                {
                    &&& next >= 1
                    &&& S::allows(
                        inputs.previous_interval,
                        inputs.was_correct,
                        inputs.interval_modifier,
                        next,
                    )
                    &&& final(self)@ == #[trigger] with_answer(old(self)@, card_id, true, now, next)
                },
    {
        self.record_answer(card_id, true, now, schedule)
    }

    /// Records a wrong answer to the card with this id.
    pub fn answer_wrong<S: Schedule>(
        &mut self,
        card_id: u64,
        now: u64,
        schedule: &mut S,
    ) -> (recorded: Result<(), Error>)
        requires
            old(self).wf(),
        ensures
            final(self).wf(),
            review_inputs_of(old(self)@, card_id) matches Err(e) ==> recorded == Err::<(), Error>(
                e,
            ) && final(self)@ == old(self)@,
            review_inputs_of(old(self)@, card_id) matches Ok(inputs) ==> recorded.is_ok()
                && exists|next: u16|
                {
                    &&& next >= 1
                    &&& S::allows(
                        inputs.previous_interval,
                        inputs.was_correct,
                        inputs.interval_modifier,
                        next,
                    )
                    &&& final(self)@ == #[trigger] with_answer(
                        old(self)@,
                        card_id,
                        false,
                        now,
                        next,
                    )
                },
    {
        self.record_answer(card_id, false, now, schedule)
    }

    /// The cards of the deck with this id that are due at `as_of`, as the
    /// store holds them.
    pub fn due_cards_in(&self, deck_id: u64, as_of: u64) -> (due: Vec<Card>)
        ensures
            card_texts(due@) == due_in_deck(self@.cards, deck_id, as_of, self@.utc_offset_seconds),
    {
        let ghost cards = self@.cards;
        let offset: i32 = self.utc_offset_seconds;
        let threshold: i128 = start_of_day_after(as_of, offset);
        let mut due: Vec<Card> = Vec::new();
        let mut i: usize = 0;
        assert(cards.take(0) =~= Seq::<CardModel>::empty());
        assert(card_texts(due@) =~= due_in_deck(cards.take(0), deck_id, as_of, offset));
        while i < self.cards.len()
            invariant
                i <= self.cards.len(),
                cards == self@.cards,
                offset == self@.utc_offset_seconds,
                threshold == start_of_next_day(as_of, offset),
                card_texts(due@) == due_in_deck(cards.take(i as int), deck_id, as_of, offset),
            decreases self.cards.len() - i,
        {
            assert(cards.take(i + 1).drop_last() =~= cards.take(i as int));
            assert(cards.take(i + 1).last() == self.cards@[i as int]@);
            let ghost before = card_texts(due@);
            let card: &CardRow = &self.cards[i];
            let scheduled: bool = match card.scheduled_for {
                Some(instant) => (instant as i128) < threshold,
                None => false,
            };
            let is_due: bool = !card.is_leech && card.deck_id == deck_id && scheduled;
            if is_due {
                due.push(card.to_card());
                assert(card_texts(due@) =~= before.push(text_of(cards[i as int])));
            }
            i += 1;
        }
        assert(cards.take(i as int) =~= cards);
        due
    }

    /// The cards to review at `as_of`: one group for each deck that has due
    /// cards, by rising deck id, each with the deck's name and the deck's due
    /// cards in an order that `rng` decides. (A group too long for the
    /// generator to shuffle keeps the store's order.)
    pub fn cards_to_review(&self, as_of: u64, rng: &mut Rng) -> (groups: Vec<(String, Vec<Card>)>)
        ensures
            group_models(groups@) == review_of(self@, self@.decks, as_of, old(rng)@).groups,
            final(rng)@ == review_of(self@, self@.decks, as_of, old(rng)@).rng,
            groups@.len() == decks_with_due(self@, self@.decks, as_of).len(),
            forall|k: int|
                0 <= k < groups@.len() ==> is_review_group(
                    self@,
                    decks_with_due(self@, self@.decks, as_of)[k],
                    as_of,
                    #[trigger] groups@[k],
                ),
    {
        let ghost state = self@;
        let mut groups: Vec<(String, Vec<Card>)> = Vec::new();
        let mut i: usize = 0;
        assert(state.decks.take(0) =~= Seq::<DeckModel>::empty());
        assert(state.decks.skip(0) =~= state.decks);
        assert(group_models(groups@) + review_of(state, state.decks, as_of, rng@).groups
            =~= review_of(state, state.decks, as_of, rng@).groups);
        while i < self.decks.len()
            invariant
                i <= self.decks.len(),
                state == self@,
                review_of(state, state.decks, as_of, old(rng)@).groups == group_models(groups@)
                    + review_of(state, state.decks.skip(i as int), as_of, rng@).groups,
                review_of(state, state.decks, as_of, old(rng)@).rng == review_of(
                    state,
                    state.decks.skip(i as int),
                    as_of,
                    rng@,
                ).rng,
                groups@.len() == decks_with_due(state, state.decks.take(i as int), as_of).len(),
                forall|k: int|
                    0 <= k < groups@.len() ==> is_review_group(
                        state,
                        decks_with_due(state, state.decks.take(i as int), as_of)[k],
                        as_of,
                        #[trigger] groups@[k],
                    ),
            decreases self.decks.len() - i,
        {
            assert(state.decks.take(i + 1).drop_last() =~= state.decks.take(i as int));
            assert(state.decks.take(i + 1).last() == self.decks@[i as int]@);
            assert(state.decks.skip(i as int).drop_first() =~= state.decks.skip(i + 1));
            assert(state.decks.skip(i as int).first() == self.decks@[i as int]@);
            let ghost rng_before = rng@;
            let ghost done = group_models(groups@);
            let mut due: Vec<Card> = self.due_cards_in(self.decks[i].id, as_of);
            if due.len() > 0 {
                let ghost unshuffled = due@;
                if due.len() < u16::MAX as usize {
                    shuffle_cards(rng, &mut due);
                    proof {
                        crate::rand::lemma_shuffle_commutes(
                            unshuffled,
                            |c: Card| c@,
                            rng_before,
                            1,
                        );
                        assert(card_texts(unshuffled) =~= unshuffled.map_values(|c: Card| c@));
                        assert(card_texts(due@) =~= due@.map_values(|c: Card| c@));
                    }
                }
                proof {
                    lemma_card_texts_rearranged(unshuffled, due@);
                }
                groups.push((self.decks[i].name.clone(), due));
                proof {
                    let rest = review_of(state, state.decks.skip(i + 1), as_of, rng@);
                    let group = GroupModel {
                        deck_name: state.decks[i as int].name,
                        cards: card_texts(groups@[groups@.len() - 1].1@),
                    };
                    assert(group_models(groups@) =~= done.push(group));
                    assert(done + (seq![group] + rest.groups) =~= done.push(group) + rest.groups);
                }
            }
            i += 1;
        }
        assert(state.decks.take(i as int) =~= state.decks);
        assert(state.decks.skip(i as int) =~= Seq::<DeckModel>::empty());
        assert(group_models(groups@) + Seq::<GroupModel>::empty() =~= group_models(groups@));
        groups
    }

    /// How many cards count. See [`card_counts`].
    pub fn count_cards(&self, deck: Option<u64>, tally: Tally, end: i128) -> (count: usize)
        ensures
            count == counted_cards(self@.cards, deck, tally, end as int),
    {
        let ghost cards = self@.cards;
        let mut count: usize = 0;
        let mut i: usize = 0;
        assert(cards.take(0) =~= Seq::<CardModel>::empty());
        while i < self.cards.len()
            invariant
                i <= self.cards.len(),
                cards == self@.cards,
                count <= i,
                count == counted_cards(cards.take(i as int), deck, tally, end as int),
            decreases self.cards.len() - i,
        {
            assert(cards.take(i + 1).drop_last() =~= cards.take(i as int));
            assert(cards.take(i + 1).last() == self.cards@[i as int]@);
            let card: &CardRow = &self.cards[i];
            let in_deck: bool = match deck {
                Some(id) => card.deck_id == id,
                None => true,
            };
            let counts: bool = in_deck && match tally {
                Tally::Active => card.scheduled_for.is_some() && !card.is_leech,
                Tally::Suspended => card.scheduled_for.is_none() && !card.is_leech,
                Tally::Leech => card.is_leech,
                Tally::ForReview => match card.scheduled_for {
                    Some(instant) => (instant as i128) < end,
                    None => false,
                },
            };
            if counts {
                count += 1;
            }
            i += 1;
        }
        assert(cards.take(i as int) =~= cards);
        count
    }

    /// How many answers count towards the recent accuracy of the deck with
    /// this id. See [`answer_counts`].
    pub fn count_answers(&self, deck_id: u64, is_correct: bool, since: i128) -> (count: usize)
        requires
            self.wf(),
        ensures
            count == counted_answers(self@, self@.answers, deck_id, is_correct, since as int),
    {
        let ghost state = self@;
        let mut count: usize = 0;
        let mut i: usize = 0;
        assert(state.answers.take(0) =~= Seq::<AnswerRow>::empty());
        while i < self.answers.len()
            invariant
                i <= self.answers.len(),
                state == self@,
                self.wf(),
                count <= i,
                count == counted_answers(
                    state,
                    state.answers.take(i as int),
                    deck_id,
                    is_correct,
                    since as int,
                ),
            decreases self.answers.len() - i,
        {
            assert(state.answers.take(i + 1).drop_last() =~= state.answers.take(i as int));
            let answer: AnswerRow = self.answers[i];
            let counts: bool = answer.is_correct == is_correct && (answer.timestamp as i128) > since
                && match self.find_card(answer.card_id) {
                Some(at) => self.cards[at].deck_id == deck_id,
                None => false,
            };
            if counts {
                count += 1;
            }
            i += 1;
        }
        assert(state.answers.take(i as int) =~= state.answers);
        count
    }

    /// The counts over the whole store and over each deck, by rising deck
    /// id, at `as_of`.
    pub fn stats(&self, as_of: u64) -> (stats: (GlobalStats, Vec<DeckStats>))
        requires
            self.wf(),
        ensures
            stats.0 == global_stats_of(self@, as_of),
            deck_stats_models(stats.1@) == Seq::new(
                self@.decks.len(),
                |i: int| deck_stats_of(self@, self@.decks[i], as_of),
            ),
    {
        let end: i128 = end_of_tomorrow(as_of, self.utc_offset_seconds);
        let since: i128 = thirty_days_ago(as_of, self.utc_offset_seconds);
        let global = GlobalStats {
            active: hold_u32(self.count_cards(None, Tally::Active, end)),
            suspended: hold_u32(self.count_cards(None, Tally::Suspended, end)),
            leech: hold_u16(self.count_cards(None, Tally::Leech, end)),
            for_review: hold_u16(self.count_cards(None, Tally::ForReview, end)),
        };
        let mut decks: Vec<DeckStats> = Vec::new();
        let mut i: usize = 0;
        while i < self.decks.len()
            invariant
                i <= self.decks.len(),
                self.wf(),
                end == spec_end_of_tomorrow(as_of, self@.utc_offset_seconds),
                since == spec_thirty_days_ago(as_of, self@.utc_offset_seconds),
                decks@.len() == i,
                forall|k: int|
                    0 <= k < i ==> (#[trigger] decks@[k])@ == deck_stats_of(
                        self@,
                        self@.decks[k],
                        as_of,
                    ),
            decreases self.decks.len() - i,
        {
            let id: u64 = self.decks[i].id;
            decks.push(
                DeckStats {
                    name: self.decks[i].name.clone(),
                    active: hold_u32(self.count_cards(Some(id), Tally::Active, end)),
                    suspended: hold_u32(self.count_cards(Some(id), Tally::Suspended, end)),
                    leech: hold_u16(self.count_cards(Some(id), Tally::Leech, end)),
                    for_review: hold_u16(self.count_cards(Some(id), Tally::ForReview, end)),
                    correct: hold_u16(self.count_answers(id, true, since)),
                    wrong: hold_u16(self.count_answers(id, false, since)),
                },
            );
            i += 1;
        }
        assert(deck_stats_models(decks@) =~= Seq::new(
            self@.decks.len(),
            |i: int| deck_stats_of(self@, self@.decks[i], as_of),
        ));
        (global, decks)
    }
}

/// Computes `held_u32`.
pub fn hold_u32(count: usize) -> (held: u32)
    ensures
        held == held_u32(count as nat),
{
    if count > u32::MAX as usize {
        u32::MAX
    } else {
        count as u32
    }
}

/// Computes `held_u16`.
pub fn hold_u16(count: usize) -> (held: u16)
    ensures
        held == held_u16(count as nat),
{
    if count > u16::MAX as usize {
        u16::MAX
    } else {
        count as u16
    }
}

/// Rearranges the cards by `rng`.
pub fn shuffle_cards(rng: &mut Rng, cards: &mut Vec<Card>)
    requires
        old(cards)@.len() < u16::MAX,
    ensures
        final(cards)@.to_multiset() == old(cards)@.to_multiset(),
        final(cards)@ == crate::rand::shuffled(old(cards)@, old(rng)@),
        final(rng)@ == crate::rand::state_after_shuffle(old(rng)@, old(cards)@.len() as int, 1),
{
    rng.shuffle(cards.as_mut_slice());
}

/// Cards that were rearranged show the same texts, each as often as before.
pub proof fn lemma_card_texts_rearranged(before: Seq<Card>, after: Seq<Card>)
    requires
        before.to_multiset() == after.to_multiset(),
    ensures
        card_texts(before).to_multiset() == card_texts(after).to_multiset(),
    decreases before.len(),
{
    broadcast use vstd::multiset::group_multiset_axioms;

    before.to_multiset_ensures();
    after.to_multiset_ensures();
    if before.len() == 0 {
        assert(card_texts(before) =~= card_texts(after));
    } else {
        let last = before.len() - 1;
        let x = before[last];
        assert(before.contains(x));
        assert(before.to_multiset().count(x) > 0);
        assert(after.to_multiset().count(x) > 0);
        assert(after.contains(x));
        let j = choose|j: int| 0 <= j < after.len() && after[j] == x;
        let shorter = before.remove(last);
        let other = after.remove(j);
        vstd::seq_lib::to_multiset_remove(before, last);
        vstd::seq_lib::to_multiset_remove(after, j);
        lemma_card_texts_rearranged(shorter, other);
        let texts_before = card_texts(before);
        let texts_after = card_texts(after);
        assert(texts_before.remove(last) =~= card_texts(shorter));
        assert(texts_after.remove(j) =~= card_texts(other));
        vstd::seq_lib::to_multiset_remove(texts_before, last);
        vstd::seq_lib::to_multiset_remove(texts_after, j);
        texts_before.to_multiset_ensures();
        texts_after.to_multiset_ensures();
        let text = texts_before[last];
        assert(texts_after[j] == text);
        assert(texts_before.contains(text));
        assert(texts_after.contains(text));
        assert(texts_before.to_multiset().count(text) > 0);
        assert(texts_after.to_multiset().count(text) > 0);
        assert forall|other_text: CardText|
            texts_before.to_multiset().count(other_text) == texts_after.to_multiset().count(
                other_text,
            ) by {
            assert(texts_before.to_multiset().remove(text).count(other_text)
                == texts_after.to_multiset().remove(text).count(other_text));
        }
        assert(texts_before.to_multiset() =~= texts_after.to_multiset());
    }
}

/// Computes `due_instant`.
pub fn due_instant_of(now: u64, interval: u16) -> (due: u64)
    ensures
        due == due_instant(now, interval),
{
    let rest: u64 = interval as u64 * MILLIS_PER_DAY;
    if now > u64::MAX - rest {
        u64::MAX
    } else {
        now + rest
    }
}

impl CardRow {
    /// The card as it is reviewed and edited.
    pub fn to_card(&self) -> (card: Card)
        ensures
            card.id == self.id,
            card.front@ == self.front@,
            card.back@ == self.back@,
    {
        Card { id: self.id, front: self.front.clone(), back: self.back.clone() }
    }

    /// The card as it is listed.
    pub fn to_preview(&self) -> (preview: CardPreview)
        ensures
            preview@ == preview_of(self@),
    {
        CardPreview { id: self.id, front: self.front.clone(), is_leech: self.is_leech }
    }

    /// A second row with the same content.
    pub fn duplicate(&self) -> (copy: CardRow)
        ensures
            copy@ == self@,
    {
        CardRow {
            id: self.id,
            deck_id: self.deck_id,
            front: self.front.clone(),
            back: self.back.clone(),
            creation_time: self.creation_time,
            interval_days: self.interval_days,
            scheduled_for: self.scheduled_for,
            is_leech: self.is_leech,
        }
    }
}

/// Whether one of `cards` has this id.
pub fn holds_card(cards: &Vec<CardRow>, id: u64) -> (held: bool)
    ensures
        held == has_card(card_models(cards@), id),
{
    let mut i: usize = 0;
    while i < cards.len()
        invariant
            i <= cards.len(),
            forall|k: int| 0 <= k < i ==> (#[trigger] card_models(cards@)[k]).id != id,
        decreases cards.len() - i,
    {
        if cards[i].id == id {
            assert(card_models(cards@)[i as int].id == id);
            return true;
        }
        i += 1;
    }
    false
}

/// The answers that belong to one of `cards`, in their order.
pub fn answers_to(answers: &Vec<AnswerRow>, cards: &Vec<CardRow>) -> (kept: Vec<AnswerRow>)
    ensures
        kept@ == answers_of(answers@, card_models(cards@)),
{
    let mut kept: Vec<AnswerRow> = Vec::new();
    let mut i: usize = 0;
    assert(answers@.take(0) =~= Seq::<AnswerRow>::empty());
    while i < answers.len()
        invariant
            i <= answers.len(),
            kept@ == answers_of(answers@.take(i as int), card_models(cards@)),
        decreases answers.len() - i,
    {
        assert(answers@.take(i + 1).drop_last() =~= answers@.take(i as int));
        if holds_card(cards, answers[i].card_id) {
            kept.push(answers[i]);
        }
        i += 1;
    }
    assert(answers@.take(i as int) =~= answers@);
    kept
}

/// The cards that do not belong to the deck with this id, in their order.
pub fn cards_not_in(cards: &Vec<CardRow>, deck_id: u64) -> (kept: Vec<CardRow>)
    ensures
        card_models(kept@) == cards_outside(card_models(cards@), deck_id),
{
    let ghost all = card_models(cards@);
    let mut kept: Vec<CardRow> = Vec::new();
    let mut i: usize = 0;
    assert(all.take(0) =~= Seq::<CardModel>::empty());
    assert(card_models(kept@) =~= cards_outside(all.take(0), deck_id));
    while i < cards.len()
        invariant
            i <= cards.len(),
            all == card_models(cards@),
            card_models(kept@) == cards_outside(all.take(i as int), deck_id),
        decreases cards.len() - i,
    {
        assert(all.take(i + 1).drop_last() =~= all.take(i as int));
        assert(all.take(i + 1).last() == cards@[i as int]@);
        let ghost before = card_models(kept@);
        if cards[i].deck_id != deck_id {
            kept.push(cards[i].duplicate());
            assert(card_models(kept@) =~= before.push(cards@[i as int]@));
        }
        i += 1;
    }
    assert(all.take(i as int) =~= all);
    kept
}

} // verus!
