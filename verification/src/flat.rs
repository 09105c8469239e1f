//! The single-file store: cards, their schedule and a histogram of answers,
//! held in memory as they lie in the file.

use crate::error::Error;
use crate::rand::Rng;
use crate::schedule::Schedule;
use vstd::prelude::*;
use vstd::utf8::{decode_utf8, encode_utf8, valid_utf8};

verus! {

/// The number of rows in the answer histogram: one per interval length in
/// days, the last one taking every longer interval too.
pub const STAT_ROW_COUNT: usize = 365;

/// The most cards a store holds: the count is kept in 16 bits.
pub const MAX_CARD_COUNT: usize = 0xffff;

/// The longest card record that is accepted from the user. A file may hold
/// longer ones.
pub const MAX_CARD_LEN: usize = 4096;

/// The byte between a card's front and its back.
pub const SEPARATOR: u8 = 0;

/// A card's position in the store.
pub type CardIndex = u16;

/// When a card is due, and how long it rested before.
#[derive(Clone, Copy, Debug, PartialEq, Eq, Structural)]
pub struct CardSchedule {
    /// Days between the last two reviews; zero before the first review.
    pub most_recent_interval: u16,
    /// The day, counted from the epoch, on which the card is due. Zero also
    /// records that the last answer was wrong.
    pub scheduled_for: u16,
}

impl CardSchedule {
    /// Whether the last answer was correct, as far as the record tells.
    pub open spec fn spec_last_was_correct(self) -> bool {
        self.scheduled_for != 0
    }

    /// Whether the last answer was correct, as far as the record tells.
    #[verifier::when_used_as_spec(spec_last_was_correct)]
    pub fn last_was_correct(self) -> (correct: bool)
        ensures
            correct == self.spec_last_was_correct(),
    {
        self.scheduled_for != 0
    }

    /// Whether the card is due on day `now_in_epoch_days`.
    pub open spec fn spec_is_due(self, now_in_epoch_days: u16) -> bool {
        self.scheduled_for <= now_in_epoch_days
    }

    /// Whether the card is due on day `now_in_epoch_days`.
    #[verifier::when_used_as_spec(spec_is_due)]
    pub fn is_due(self, now_in_epoch_days: u16) -> (due: bool)
        ensures
            due == self.spec_is_due(now_in_epoch_days),
    {
        self.scheduled_for <= now_in_epoch_days
    }
}

/// One row of the histogram: answers given to cards that then rested a given
/// number of days.
#[derive(Clone, Copy, Debug, PartialEq, Eq, Structural)]
pub struct Stat {
    pub correct: u8,
    pub wrong: u8,
}

impl Default for Stat {
    fn default() -> (stat: Self)
        ensures
            stat == (Stat { correct: 0, wrong: 0 }),
    {
        Stat { correct: 0, wrong: 0 }
    }
}

/// A card as the user wrote it.
#[derive(Debug)]
pub struct Card {
    pub front: String,
    pub back: String,
}

/// The outcome of reviewing one card.
#[derive(Clone, Copy, Debug, PartialEq, Eq, Structural)]
pub struct Answer {
    pub card_index: CardIndex,
    pub is_correct: bool,
}

/// What a store holds, as mathematical sequences.
pub struct Contents {
    /// The card records: front, separator, back.
    pub cards: Seq<Seq<u8>>,
    /// One entry per card, in the same order.
    pub schedule: Seq<CardSchedule>,
    /// The histogram.
    pub stats: Seq<Stat>,
}

impl Contents {
    /// What every store satisfies: a schedule entry for each card, a full
    /// histogram, and counts and lengths that fit the file's 16-bit fields.
    pub open spec fn wf(self) -> bool {
        &&& self.cards.len() == self.schedule.len()
        &&& self.cards.len() <= MAX_CARD_COUNT
        &&& self.stats.len() == STAT_ROW_COUNT
        &&& forall|i: int|
            0 <= i < self.cards.len() ==> (#[trigger] self.cards[i]).len() <= 0xffff
    }
}

/// The store in memory.
pub struct Srs {
    pub cards: Vec<Vec<u8>>,
    pub schedule: Vec<CardSchedule>,
    pub stats: Vec<Stat>,
}

impl View for Srs {
    type V = Contents;

    open spec fn view(&self) -> Contents {
        Contents {
            cards: Seq::new(self.cards@.len(), |i: int| self.cards@[i]@),
            schedule: self.schedule@,
            stats: self.stats@,
        }
    }
}

/// The histogram before any answer.
pub open spec fn empty_stats() -> Seq<Stat> {
    Seq::new(STAT_ROW_COUNT as nat, |i: int| Stat { correct: 0, wrong: 0 })
}

impl Srs {
    /// See [`Contents::wf`].
    pub open spec fn wf(&self) -> bool {
        self@.wf()
    }

    /// A store without cards.
    pub fn new() -> (srs: Self)
        ensures
            srs.wf(),
            srs@.cards.len() == 0,
            srs@.stats == empty_stats(),
    {
        let mut stats: Vec<Stat> = Vec::new();
        while stats.len() < STAT_ROW_COUNT
            invariant
                stats.len() <= STAT_ROW_COUNT,
                forall|i: int|
                    0 <= i < stats.len() ==> stats[i] == (Stat { correct: 0, wrong: 0 }),
            decreases STAT_ROW_COUNT - stats.len(),
        {
            stats.push(Stat { correct: 0, wrong: 0 });
        }
        let srs = Srs { cards: Vec::new(), schedule: Vec::new(), stats };
        assert(srs@.stats =~= empty_stats());
        srs
    }

    /// Whether the store is as a store must be. Every operation keeps it so;
    /// a store that was put together by hand is checked with this before it
    /// is used.
    pub fn is_sound(&self) -> (sound: bool)
        ensures
            sound == self.wf(),
    {
        if self.cards.len() != self.schedule.len() || self.cards.len() > MAX_CARD_COUNT
            || self.stats.len() != STAT_ROW_COUNT {
            return false;
        }
        let mut i: usize = 0;
        while i < self.cards.len()
            invariant
                i <= self.cards.len(),
                forall|k: int| 0 <= k < i ==> (#[trigger] self@.cards[k]).len() <= 0xffff,
            decreases self.cards.len() - i,
        {
            if self.cards[i].len() > 0xffff {
                assert(self@.cards[i as int].len() > 0xffff);
                return false;
            }
            i += 1;
        }
        true
    }
}

impl Default for Srs {
    fn default() -> (srs: Self)
        ensures
            srs.wf(),
            srs@.cards.len() == 0,
            srs@.stats == empty_stats(),
    {
        Srs::new()
    }
}

/// A card record: the front's bytes, the separator, the back's bytes.
pub open spec fn card_record(front: Seq<u8>, back: Seq<u8>) -> Seq<u8> {
    front + seq![SEPARATOR] + back
}

/// The position of the first separator in `bytes`, or the length of `bytes`
/// where there is none.
pub open spec fn separator_position(bytes: Seq<u8>) -> int
    decreases bytes.len(),
{
    if bytes.len() == 0 || bytes[0] == SEPARATOR {
        0
    } else {
        1 + separator_position(bytes.skip(1))
    }
}

/// Whether a record has a separator at all.
pub open spec fn has_separator(bytes: Seq<u8>) -> bool {
    separator_position(bytes) < bytes.len()
}

/// The bytes before the first separator.
pub open spec fn front_bytes(bytes: Seq<u8>) -> Seq<u8> {
    bytes.take(separator_position(bytes))
}

/// The bytes after the first separator.
pub open spec fn back_bytes(bytes: Seq<u8>) -> Seq<u8> {
    bytes.skip(separator_position(bytes) + 1)
}

/// `separator_position` is the one position that holds a separator (or is
/// the end) and has none before it.
pub proof fn lemma_separator_position(bytes: Seq<u8>, p: int)
    requires
        0 <= p <= bytes.len(),
        forall|k: int| 0 <= k < p ==> bytes[k] != SEPARATOR,
        p < bytes.len() ==> bytes[p] == SEPARATOR,
    ensures
        separator_position(bytes) == p,
    decreases bytes.len(),
{
    if bytes.len() == 0 || bytes[0] == SEPARATOR {
    } else {
        let rest = bytes.skip(1);
        assert forall|k: int| 0 <= k < p - 1 implies rest[k] != SEPARATOR by {
            assert(rest[k] == bytes[k + 1]);
        }
        lemma_separator_position(rest, p - 1);
    }
}

/// The separator position lies within the record or at its end; nothing
/// before it is a separator, and where the record has a separator, it holds
/// one.
pub proof fn law_separator_is_first(bytes: Seq<u8>)
    ensures
        0 <= separator_position(bytes) <= bytes.len(),
        forall|k: int| 0 <= k < separator_position(bytes) ==> bytes[k] != SEPARATOR,
        has_separator(bytes) ==> bytes[separator_position(bytes)] == SEPARATOR,
    decreases bytes.len(),
{
    if bytes.len() == 0 || bytes[0] == SEPARATOR {
    } else {
        let rest = bytes.skip(1);
        law_separator_is_first(rest);
        assert forall|k: int| 0 <= k < separator_position(bytes) implies bytes[k]
            != SEPARATOR by {
            if k > 0 {
                assert(rest[k - 1] == bytes[k]);
            }
        }
    }
}

/// A record made of a front without separator bytes parts again into that
/// front and its back.
pub proof fn law_card_record_parts(front: Seq<u8>, back: Seq<u8>)
    requires
        forall|k: int| 0 <= k < front.len() ==> front[k] != SEPARATOR,
    ensures
        has_separator(card_record(front, back)),
        front_bytes(card_record(front, back)) == front,
        back_bytes(card_record(front, back)) == back,
{
    let record = card_record(front, back);
    lemma_separator_position(record, front.len() as int);
    assert(front_bytes(record) =~= front);
    assert(back_bytes(record) =~= back);
}

/// Finds the first separator.
pub fn find_separator(bytes: &[u8]) -> (position: Option<usize>)
    ensures
        position.is_some() == has_separator(bytes@),
        position matches Some(p) ==> p == separator_position(bytes@),
{
    let mut i: usize = 0;
    while i < bytes.len()
        invariant
            i <= bytes.len(),
            forall|k: int| 0 <= k < i ==> bytes@[k] != SEPARATOR,
        decreases bytes.len() - i,
    {
        if bytes[i] == SEPARATOR {
            proof {
                lemma_separator_position(bytes@, i as int);
            }
            return Some(i);
        }
        i += 1;
    }
    proof {
        lemma_separator_position(bytes@, i as int);
    }
    None
}

/// std's `core::str::from_utf8`: the text that `bytes` encode, where they are
/// well-formed UTF-8, and nothing where they are not.
#[verifier::external_body]
fn text_of(bytes: &[u8]) -> (text: Option<&str>)
    ensures
        text.is_some() == valid_utf8(bytes@),
        text matches Some(s) ==> s@ == decode_utf8(bytes@),
{
    match std::str::from_utf8(bytes) {
        Ok(text) => Some(text),
        Err(_) => None,
    }
}

/// std's `String::from_utf8`: the text that `bytes` encode, where they are
/// well-formed UTF-8, and nothing where they are not.
#[verifier::external_body]
fn owned_text_of(bytes: Vec<u8>) -> (text: Option<String>)
    ensures
        text.is_some() == valid_utf8(bytes@),
        text matches Some(s) ==> s@ == decode_utf8(bytes@),
{
    match String::from_utf8(bytes) {
        Ok(text) => Some(text),
        Err(_) => None,
    }
}

/// The front of a card record: the text before the first separator.
pub fn card_front(bytes: &[u8]) -> (front: Result<&str, Error>)
    ensures
        !has_separator(bytes@) ==> front == Err::<&str, Error>(Error::MissingSeparator),
        has_separator(bytes@) && !valid_utf8(front_bytes(bytes@)) ==> front == Err::<&str, Error>(
            Error::InvalidText,
        ),
        has_separator(bytes@) && valid_utf8(front_bytes(bytes@)) ==> front.is_ok()
            && front.unwrap()@ == decode_utf8(front_bytes(bytes@)),
{
    let position: usize = match find_separator(bytes) {
        Some(p) => p,
        None => { return Err(Error::MissingSeparator); },
    };
    let head: &[u8] = vstd::slice::slice_subrange(bytes, 0, position);
    assert(head@ == front_bytes(bytes@));
    match text_of(head) {
        Some(text) => Ok(text),
        None => Err(Error::InvalidText),
    }
}

/// Builds a card record from its two texts.
pub fn make_record(front: &str, back: &str) -> (record: Vec<u8>)
    ensures
        record@ == card_record(encode_utf8(front@), encode_utf8(back@)),
{
    let mut record: Vec<u8> = Vec::new();
    record.extend_from_slice(front.as_bytes());
    record.push(SEPARATOR);
    record.extend_from_slice(back.as_bytes());
    assert(record@ =~= card_record(encode_utf8(front@), encode_utf8(back@)));
    record
}

/// The schedule entry of a card added on day `now_in_epoch_days`: never
/// reviewed, and due at once.
pub open spec fn initial_schedule(now_in_epoch_days: u16) -> CardSchedule {
    CardSchedule { most_recent_interval: 0, scheduled_for: now_in_epoch_days }
}

/// The store with a new card at its end.
///
/// Fails, in this order, when the front is empty, when the store is full, and
/// when the record would be longer than `MAX_CARD_LEN`.
pub fn add_card(srs: Srs, now_in_epoch_days: u16, front: String, back: String) -> (added: Result<
    Srs,
    Error,
>)
    ensures
        front@.len() == 0 ==> added == Err::<Srs, Error>(Error::EmptyFront),
        front@.len() != 0 && srs@.cards.len() >= MAX_CARD_COUNT ==> added == Err::<Srs, Error>(
            Error::TooManyCards,
        ),
        front@.len() != 0 && srs@.cards.len() < MAX_CARD_COUNT && card_record(
            encode_utf8(front@),
            encode_utf8(back@),
        ).len() > MAX_CARD_LEN ==> added == Err::<Srs, Error>(Error::CardTooLong),
        front@.len() != 0 && srs@.cards.len() < MAX_CARD_COUNT && card_record(
            encode_utf8(front@),
            encode_utf8(back@),
        ).len() <= MAX_CARD_LEN ==> added.is_ok() && added.unwrap()@ == (Contents {
            cards: srs@.cards.push(card_record(encode_utf8(front@), encode_utf8(back@))),
            schedule: srs@.schedule.push(initial_schedule(now_in_epoch_days)),
            stats: srs@.stats,
        }),
        srs.wf() && added.is_ok() ==> added.unwrap().wf(),
{
    if front.as_str().is_empty() {
        return Err(Error::EmptyFront);
    }
    if srs.cards.len() >= MAX_CARD_COUNT {
        return Err(Error::TooManyCards);
    }
    let record: Vec<u8> = make_record(front.as_str(), back.as_str());
    if record.len() > MAX_CARD_LEN {
        return Err(Error::CardTooLong);
    }
    let ghost before = srs@;
    let mut srs = srs;
    srs.cards.push(record);
    srs.schedule.push(
        CardSchedule { most_recent_interval: 0, scheduled_for: now_in_epoch_days },
    );
    assert(srs@.cards =~= before.cards.push(
        card_record(encode_utf8(front@), encode_utf8(back@)),
    ));
    Ok(srs)
}

/// The store with the card at `idx` rewritten. Its schedule stays.
///
/// Fails, in this order, when the front is empty, when the record would be
/// longer than `MAX_CARD_LEN`, and when there is no card at `idx`.
pub fn edit_card(srs: Srs, idx: CardIndex, front: String, back: String) -> (edited: Result<
    Srs,
    Error,
>)
    ensures
        front@.len() == 0 ==> edited == Err::<Srs, Error>(Error::EmptyFront),
        front@.len() != 0 && card_record(encode_utf8(front@), encode_utf8(back@)).len()
            > MAX_CARD_LEN ==> edited == Err::<Srs, Error>(Error::CardTooLong),
        front@.len() != 0 && card_record(encode_utf8(front@), encode_utf8(back@)).len()
            <= MAX_CARD_LEN && idx >= srs@.cards.len() ==> edited == Err::<Srs, Error>(
            Error::UnknownCard,
        ),
        front@.len() != 0 && card_record(encode_utf8(front@), encode_utf8(back@)).len()
            <= MAX_CARD_LEN && idx < srs@.cards.len() ==> edited.is_ok() && edited.unwrap()@ == (
        Contents {
            cards: srs@.cards.update(
                idx as int,
                card_record(encode_utf8(front@), encode_utf8(back@)),
            ),
            schedule: srs@.schedule,
            stats: srs@.stats,
        }),
        srs.wf() && edited.is_ok() ==> edited.unwrap().wf(),
{
    if front.as_str().is_empty() {
        return Err(Error::EmptyFront);
    }
    let record: Vec<u8> = make_record(front.as_str(), back.as_str());
    if record.len() > MAX_CARD_LEN {
        return Err(Error::CardTooLong);
    }
    let position: usize = idx as usize;
    if position >= srs.cards.len() {
        return Err(Error::UnknownCard);
    }
    let ghost before = srs@;
    let mut srs = srs;
    srs.cards.set(position, record);
    assert(srs@.cards =~= before.cards.update(
        idx as int,
        card_record(encode_utf8(front@), encode_utf8(back@)),
    ));
    Ok(srs)
}

/// The store without the card at `idx` and without its schedule entry; the
/// cards behind it move up by one.
///
/// Fails when there is no card at `idx`.
pub fn delete_card(srs: Srs, idx: CardIndex) -> (deleted: Result<Srs, Error>)
    ensures
        idx >= srs@.cards.len() || idx >= srs@.schedule.len() ==> deleted == Err::<Srs, Error>(
            Error::UnknownCard,
        ),
        idx < srs@.cards.len() && idx < srs@.schedule.len() ==> deleted.is_ok()
            && deleted.unwrap()@ == (Contents {
            cards: srs@.cards.remove(idx as int),
            schedule: srs@.schedule.remove(idx as int),
            stats: srs@.stats,
        }),
        srs.wf() && deleted.is_ok() ==> deleted.unwrap().wf(),
{
    let position: usize = idx as usize;
    if position >= srs.cards.len() || position >= srs.schedule.len() {
        return Err(Error::UnknownCard);
    }
    let ghost before = srs@;
    let mut srs = srs;
    srs.cards.remove(position);
    srs.schedule.remove(position);
    assert(srs@.cards =~= before.cards.remove(idx as int));
    Ok(srs)
}

/// The positions of the schedule entries that are due on day
/// `now_in_epoch_days`, in rising order.
pub open spec fn due_positions(schedule: Seq<CardSchedule>, now_in_epoch_days: u16) -> Seq<
    CardIndex,
>
    decreases schedule.len(),
{
    if schedule.len() == 0 {
        Seq::empty()
    } else if schedule.last().is_due(now_in_epoch_days) {
        due_positions(schedule.drop_last(), now_in_epoch_days).push((schedule.len() - 1) as u16)
    } else {
        due_positions(schedule.drop_last(), now_in_epoch_days)
    }
}

/// The cards that are due on day `now_in_epoch_days`, by position, in the
/// order in which the store holds them.
pub fn cards_to_review(srs: &Srs, now_in_epoch_days: u16) -> (due: Vec<CardIndex>)
    requires
        srs@.schedule.len() <= MAX_CARD_COUNT,
    ensures
        due@ == due_positions(srs@.schedule, now_in_epoch_days),
        forall|k: int|
            0 <= k < due@.len() ==> (#[trigger] due@[k]) < srs@.schedule.len()
                && srs@.schedule[due@[k] as int].is_due(now_in_epoch_days),
        forall|i: int|
            0 <= i < srs@.schedule.len() && (#[trigger] srs@.schedule[i]).is_due(
                now_in_epoch_days,
            ) ==> due@.contains(i as u16),
        forall|a: int, b: int| 0 <= a < b < due@.len() ==> due@[a] < due@[b],
{
    let mut due: Vec<CardIndex> = Vec::new();
    let mut i: usize = 0;
    assert(srs@.schedule.take(0) =~= Seq::<CardSchedule>::empty());
    while i < srs.schedule.len()
        invariant
            i <= srs.schedule.len(),
            srs@.schedule.len() <= MAX_CARD_COUNT,
            due@ == due_positions(srs@.schedule.take(i as int), now_in_epoch_days),
            forall|k: int|
                0 <= k < due@.len() ==> (#[trigger] due@[k]) < i
                    && srs@.schedule[due@[k] as int].is_due(now_in_epoch_days),
            forall|j: int|
                0 <= j < i && (#[trigger] srs@.schedule[j]).is_due(now_in_epoch_days)
                    ==> due@.contains(j as u16),
            forall|a: int, b: int| 0 <= a < b < due@.len() ==> due@[a] < due@[b],
        decreases srs.schedule.len() - i,
    {
        assert(srs@.schedule.take(i + 1).drop_last() =~= srs@.schedule.take(i as int));
        if srs.schedule[i].is_due(now_in_epoch_days) {
            let ghost before = due@;
            due.push(i as u16);
            assert forall|j: int|
                0 <= j < i + 1 && (#[trigger] srs@.schedule[j]).is_due(
                    now_in_epoch_days,
                ) implies due@.contains(j as u16) by {
                if j < i {
                    let k = choose|k: int| 0 <= k < before.len() && before[k] == j as u16;
                    assert(due@[k] == j as u16);
                } else {
                    assert(due@[due@.len() - 1] == j as u16);
                }
            }
        }
        i += 1;
    }
    assert(srs@.schedule.take(i as int) =~= srs@.schedule);
    due
}

/// The card at position `i`, parted into front and back.
///
/// Fails when there is no card at `i`, when its record has no separator, and
/// when either part is not UTF-8.
pub fn card(srs: &Srs, i: CardIndex) -> (found: Result<Card, Error>)
    ensures
        i >= srs@.cards.len() ==> found == Err::<Card, Error>(Error::UnknownCard),
        i < srs@.cards.len() && !has_separator(srs@.cards[i as int]) ==> found == Err::<
            Card,
            Error,
        >(Error::MissingSeparator),
        i < srs@.cards.len() && has_separator(srs@.cards[i as int]) && !(valid_utf8(
            front_bytes(srs@.cards[i as int]),
        ) && valid_utf8(back_bytes(srs@.cards[i as int]))) ==> found == Err::<Card, Error>(
            Error::InvalidText,
        ),
        i < srs@.cards.len() && has_separator(srs@.cards[i as int]) && valid_utf8(
            front_bytes(srs@.cards[i as int]),
        ) && valid_utf8(back_bytes(srs@.cards[i as int])) ==> found.is_ok()
            && found.unwrap().front@ == decode_utf8(front_bytes(srs@.cards[i as int]))
            && found.unwrap().back@ == decode_utf8(back_bytes(srs@.cards[i as int])),
{
    let position: usize = i as usize;
    if position >= srs.cards.len() {
        return Err(Error::UnknownCard);
    }
    let record: &Vec<u8> = &srs.cards[position];
    assert(record@ == srs@.cards[i as int]);
    let separator: usize = match find_separator(record.as_slice()) {
        Some(p) => p,
        None => { return Err(Error::MissingSeparator); },
    };
    let mut front: Vec<u8> = record.clone();
    let mut back: Vec<u8> = front.split_off(separator);
    assert(front@ == front_bytes(record@));
    back.remove(0);
    assert(back@ =~= back_bytes(record@));
    let front: String = match owned_text_of(front) {
        Some(text) => text,
        None => { return Err(Error::InvalidText); },
    };
    let back: String = match owned_text_of(back) {
        Some(text) => text,
        None => { return Err(Error::InvalidText); },
    };
    Ok(Card { front, back })
}

/// The interval modifier of the one deck that this store is.
pub const INTERVAL_MODIFIER: u16 = 100;

/// The day on which a card is due after resting `interval` days from `now`,
/// held at the last day that the file can record.
pub open spec fn due_day(now_in_epoch_days: u16, interval: u16) -> u16 {
    if now_in_epoch_days + interval > 0xffff {
        0xffff
    } else {
        (now_in_epoch_days + interval) as u16
    }
}

/// A schedule entry after an answer. A correct answer lets the card rest
/// `next` days from today. A wrong one keeps its interval and makes it due at
/// once, which is also how the wrong answer is remembered.
pub open spec fn rescheduled(
    entry: CardSchedule,
    is_correct: bool,
    now_in_epoch_days: u16,
    next: u16,
) -> CardSchedule {
    if is_correct {
        CardSchedule {
            most_recent_interval: next,
            scheduled_for: due_day(now_in_epoch_days, next),
        }
    } else {
        CardSchedule { most_recent_interval: entry.most_recent_interval, scheduled_for: 0 }
    }
}

/// The histogram row that counts answers to cards resting `interval` days.
pub open spec fn stat_row(interval: u16) -> int {
    if interval < STAT_ROW_COUNT {
        interval as int
    } else {
        STAT_ROW_COUNT - 1
    }
}

/// A histogram row after one more answer. A row with a full counter starts
/// again from zero before it counts.
pub open spec fn counted(stat: Stat, is_correct: bool) -> Stat {
    let base = if stat.correct == 0xff || stat.wrong == 0xff {
        Stat { correct: 0, wrong: 0 }
    } else {
        stat
    };
    if is_correct {
        Stat { correct: (base.correct + 1) as u8, wrong: base.wrong }
    } else {
        Stat { correct: base.correct, wrong: (base.wrong + 1) as u8 }
    }
}

/// What the store holds after one answer, where `next` is the interval that
/// the scheduler chose (it matters only for a correct answer).
pub open spec fn after_answer(
    before: Contents,
    answer: Answer,
    now_in_epoch_days: u16,
    next: u16,
) -> Contents {
    let entry = rescheduled(
        before.schedule[answer.card_index as int],
        answer.is_correct,
        now_in_epoch_days,
        next,
    );
    let row = stat_row(entry.most_recent_interval);
    Contents {
        cards: before.cards,
        schedule: before.schedule.update(answer.card_index as int, entry),
        stats: before.stats.update(row, counted(before.stats[row], answer.is_correct)),
    }
}

/// Whether `after` can follow `before` by `answer`: the card exists, and for
/// a correct answer the schedule `S` allows the interval that was taken.
pub open spec fn is_answer_step<S: Schedule>(
    before: Contents,
    answer: Answer,
    now_in_epoch_days: u16,
    next: u16,
    after: Contents,
) -> bool {
    &&& answer.card_index < before.schedule.len()
    &&& answer.is_correct ==> next >= 1 && S::allows(
        before.schedule[answer.card_index as int].most_recent_interval,
        Some(before.schedule[answer.card_index as int].last_was_correct()),
        INTERVAL_MODIFIER,
        next,
    )
    &&& after == after_answer(before, answer, now_in_epoch_days, next)
}

/// Whether `after` can follow `before` by applying `answers` one after the
/// other, each with an interval that the schedule `S` allows.
pub open spec fn is_outcome<S: Schedule>(
    before: Contents,
    answers: Seq<Answer>,
    now_in_epoch_days: u16,
    after: Contents,
) -> bool
    decreases answers.len(),
{
    if answers.len() == 0 {
        after == before
    } else {
        exists|mid: Contents, next: u16|
            is_outcome::<S>(before, answers.drop_last(), now_in_epoch_days, mid)
                && #[trigger] is_answer_step::<S>(
                mid,
                answers.last(),
                now_in_epoch_days,
                next,
                after,
            )
    }
}

/// Computes `due_day`.
pub fn due_day_of(now_in_epoch_days: u16, interval: u16) -> (day: u16)
    ensures
        day == due_day(now_in_epoch_days, interval),
{
    let sum: u32 = now_in_epoch_days as u32 + interval as u32;
    if sum > 0xffff {
        0xffff
    } else {
        sum as u16
    }
}

/// Counts one answer in a histogram row.
pub fn count_answer(stat: Stat, is_correct: bool) -> (row: Stat)
    ensures
        row == counted(stat, is_correct),
{
    let base: Stat = if stat.correct == u8::MAX || stat.wrong == u8::MAX {
        Stat { correct: 0, wrong: 0 }
    } else {
        stat
    };
    if is_correct {
        Stat { correct: base.correct + 1, wrong: base.wrong }
    } else {
        Stat { correct: base.correct, wrong: base.wrong + 1 }
    }
}

/// Records one answer: reschedules the card and counts the answer in the
/// histogram. `next` is the interval that the scheduler chose for a correct
/// answer.
pub fn apply_answer(srs: &mut Srs, answer: Answer, now_in_epoch_days: u16, next: u16)
    requires
        old(srs).wf(),
        answer.card_index < old(srs)@.schedule.len(),
    ensures
        final(srs)@ == after_answer(old(srs)@, answer, now_in_epoch_days, next),
        final(srs).wf(),
{
    let position: usize = answer.card_index as usize;
    let entry: CardSchedule = if answer.is_correct {
        CardSchedule {
            most_recent_interval: next,
            scheduled_for: due_day_of(now_in_epoch_days, next),
        }
    } else {
        CardSchedule {
            most_recent_interval: srs.schedule[position].most_recent_interval,
            scheduled_for: 0,
        }
    };
    srs.schedule.set(position, entry);
    let row: usize = if (entry.most_recent_interval as usize) < STAT_ROW_COUNT {
        entry.most_recent_interval as usize
    } else {
        STAT_ROW_COUNT - 1
    };
    let stat: Stat = count_answer(srs.stats[row], answer.is_correct);
    srs.stats.set(row, stat);
    assert(srs@.cards =~= old(srs)@.cards);
}

/// How many of the leading `answers` name a card at or before position
/// `card_index`: where an answer to that card is put into answers that are
/// in order, behind those to the same card.
pub open spec fn place_of(answers: Seq<Answer>, card_index: CardIndex) -> int
    decreases answers.len(),
{
    if answers.len() == 0 || answers[0].card_index > card_index {
        0
    } else {
        1 + place_of(answers.skip(1), card_index)
    }
}

/// The answers ordered by the position of their card. Answers to the same
/// card keep the order in which they were given.
pub open spec fn in_card_order(answers: Seq<Answer>) -> Seq<Answer>
    decreases answers.len(),
{
    if answers.len() == 0 {
        answers
    } else {
        let before = in_card_order(answers.drop_last());
        before.insert(place_of(before, answers.last().card_index), answers.last())
    }
}

/// Whether the answers are ordered by the position of their card.
pub open spec fn is_in_card_order(answers: Seq<Answer>) -> bool {
    forall|a: int, b: int|
        0 <= a < b < answers.len() ==> (#[trigger] answers[a]).card_index <= (
        #[trigger] answers[b]).card_index
}

/// `place_of` is the one place up to which the cards lie at or before
/// `card_index` and at which (if it is not the end) a later card lies.
pub proof fn lemma_place_of(answers: Seq<Answer>, card_index: CardIndex, p: int)
    requires
        0 <= p <= answers.len(),
        forall|k: int| 0 <= k < p ==> (#[trigger] answers[k]).card_index <= card_index,
        p < answers.len() ==> answers[p].card_index > card_index,
    ensures
        place_of(answers, card_index) == p,
    decreases answers.len(),
{
    if answers.len() == 0 || answers[0].card_index > card_index {
    } else {
        let rest = answers.skip(1);
        assert forall|k: int| 0 <= k < p - 1 implies (#[trigger] rest[k]).card_index
            <= card_index by {
            assert(rest[k] == answers[k + 1]);
        }
        lemma_place_of(rest, card_index, p - 1);
    }
}

/// Where `place_of` points.
pub proof fn lemma_place_of_bounds(answers: Seq<Answer>, card_index: CardIndex)
    ensures
        0 <= place_of(answers, card_index) <= answers.len(),
        forall|k: int|
            0 <= k < place_of(answers, card_index) ==> (#[trigger] answers[k]).card_index
                <= card_index,
        place_of(answers, card_index) < answers.len() ==> answers[place_of(
            answers,
            card_index,
        )].card_index > card_index,
    decreases answers.len(),
{
    if answers.len() == 0 || answers[0].card_index > card_index {
    } else {
        let rest = answers.skip(1);
        lemma_place_of_bounds(rest, card_index);
        assert forall|k: int| 0 <= k < place_of(answers, card_index) implies (
        #[trigger] answers[k]).card_index <= card_index by {
            if k > 0 {
                assert(rest[k - 1] == answers[k]);
            }
        }
        let p = place_of(rest, card_index);
        if p < rest.len() {
            assert(rest[p] == answers[p + 1]);
        }
    }
}

/// Ordering the answers keeps every answer, as often as it was given, and
/// leaves them ordered by the position of their card.
pub proof fn law_card_order(answers: Seq<Answer>)
    ensures
        is_in_card_order(in_card_order(answers)),
        in_card_order(answers).to_multiset() == answers.to_multiset(),
        in_card_order(answers).len() == answers.len(),
    decreases answers.len(),
{
    broadcast use vstd::seq_lib::to_multiset_insert;

    if answers.len() > 0 {
        let front = answers.drop_last();
        let last = answers.last();
        let before = in_card_order(front);
        law_card_order(front);
        lemma_place_of_bounds(before, last.card_index);
        let p = place_of(before, last.card_index);
        let after = before.insert(p, last);
        assert forall|a: int, b: int| 0 <= a < b < after.len() implies (
        #[trigger] after[a]).card_index <= (#[trigger] after[b]).card_index by {
            let ia = if a < p { a } else { a - 1 };
            let ib = if b < p { b } else { b - 1 };
            if a != p && b != p {
                assert(before[ia].card_index <= before[ib].card_index);
            } else if a == p {
                assert(before[ib].card_index >= before[p].card_index);
            }
        }
        vstd::seq_lib::to_multiset_build(front, last);
        assert(front.push(last) =~= answers);
    }
}

/// Computes `place_of`.
pub fn find_place(answers: &Vec<Answer>, card_index: CardIndex) -> (place: usize)
    ensures
        place == place_of(answers@, card_index),
        place <= answers@.len(),
{
    let mut i: usize = 0;
    while i < answers.len() && answers[i].card_index <= card_index
        invariant
            i <= answers.len(),
            forall|k: int| 0 <= k < i ==> (#[trigger] answers@[k]).card_index <= card_index,
        decreases answers.len() - i,
    {
        i += 1;
    }
    proof {
        lemma_place_of(answers@, card_index, i as int);
    }
    i
}

/// Orders the answers by the position of their card. Answers to the same
/// card keep the order in which they were given.
pub fn sort_answers(answers: &mut Vec<Answer>)
    ensures
        final(answers)@ == in_card_order(old(answers)@),
{
    let mut sorted: Vec<Answer> = Vec::new();
    let mut i: usize = 0;
    assert(answers@.take(0) =~= Seq::<Answer>::empty());
    while i < answers.len()
        invariant
            i <= answers.len(),
            answers@ == old(answers)@,
            sorted@ == in_card_order(answers@.take(i as int)),
        decreases answers.len() - i,
    {
        assert(answers@.take(i + 1).drop_last() =~= answers@.take(i as int));
        let answer: Answer = answers[i];
        let place: usize = find_place(&sorted, answer.card_index);
        sorted.insert(place, answer);
        i += 1;
    }
    assert(answers@.take(i as int) =~= answers@);
    *answers = sorted;
}

/// Records a review session's answers: puts them in the order of their
/// cards, then applies them one after the other, asking `schedule` for the
/// next interval of each card that was answered correctly.
///
/// Fails, leaving nothing recorded, when an answer names a card that the
/// store does not hold.
pub fn apply_answers<S: Schedule>(
    srs: Srs,
    now_in_epoch_days: u16,
    answers: &mut Vec<Answer>,
    schedule: &mut S,
) -> (applied: Result<Srs, Error>)
    requires
        srs.wf(),
    ensures
        final(answers)@ == in_card_order(old(answers)@),
        (exists|k: int|
            0 <= k < old(answers)@.len() && (#[trigger] old(answers)@[k]).card_index
                >= srs@.schedule.len()) ==> applied == Err::<Srs, Error>(Error::UnknownCard),
        (forall|k: int|
            0 <= k < old(answers)@.len() ==> (#[trigger] old(answers)@[k]).card_index
                < srs@.schedule.len()) ==> applied.is_ok() && applied.unwrap().wf()
            && is_outcome::<S>(srs@, final(answers)@, now_in_epoch_days, applied.unwrap()@),
{
    sort_answers(answers);
    proof {
        law_card_order(old(answers)@);
        lemma_same_items_same_cards(old(answers)@, answers@, srs@.schedule.len());
    }
    apply_in_turn(srs, now_in_epoch_days, answers, schedule)
}

/// Answers that were rearranged name the same cards.
pub proof fn lemma_same_items_same_cards(before: Seq<Answer>, after: Seq<Answer>, cards: nat)
    requires
        before.to_multiset() == after.to_multiset(),
    ensures
        (exists|k: int| 0 <= k < before.len() && (#[trigger] before[k]).card_index >= cards) == (
        exists|k: int| 0 <= k < after.len() && (#[trigger] after[k]).card_index >= cards),
{
    before.to_multiset_ensures();
    after.to_multiset_ensures();
    if exists|k: int| 0 <= k < before.len() && (#[trigger] before[k]).card_index >= cards {
        let k = choose|k: int| 0 <= k < before.len() && (#[trigger] before[k]).card_index >= cards;
        assert(before.contains(before[k]));
        assert(before.to_multiset().count(before[k]) > 0);
        assert(after.to_multiset().count(before[k]) > 0);
        assert(after.contains(before[k]));
        let j = choose|j: int| 0 <= j < after.len() && after[j] == before[k];
        assert(after[j].card_index >= cards);
    }
    if exists|k: int| 0 <= k < after.len() && (#[trigger] after[k]).card_index >= cards {
        let k = choose|k: int| 0 <= k < after.len() && (#[trigger] after[k]).card_index >= cards;
        assert(after.contains(after[k]));
        assert(after.to_multiset().count(after[k]) > 0);
        assert(before.to_multiset().count(after[k]) > 0);
        assert(before.contains(after[k]));
        let j = choose|j: int| 0 <= j < before.len() && before[j] == after[k];
        assert(before[j].card_index >= cards);
    }
}

/// Records answers in the order given, asking `schedule` for the next
/// interval of each card that was answered correctly.
///
/// Fails, leaving nothing recorded, when an answer names a card that the
/// store does not hold.
pub fn apply_in_turn<S: Schedule>(
    srs: Srs,
    now_in_epoch_days: u16,
    answers: &Vec<Answer>,
    schedule: &mut S,
) -> (applied: Result<Srs, Error>)
    requires
        srs.wf(),
    ensures
        (exists|k: int|
            0 <= k < answers@.len() && (#[trigger] answers@[k]).card_index
                >= srs@.schedule.len()) ==> applied == Err::<Srs, Error>(Error::UnknownCard),
        (forall|k: int|
            0 <= k < answers@.len() ==> (#[trigger] answers@[k]).card_index
                < srs@.schedule.len()) ==> applied.is_ok() && applied.unwrap().wf()
            && is_outcome::<S>(
            srs@,
            answers@,
            now_in_epoch_days,
            applied.unwrap()@,
        ),
{
    let mut store = srs;
    let mut i: usize = 0;
    assert(answers@.take(0) =~= Seq::<Answer>::empty());
    while i < answers.len()
        invariant
            i <= answers.len(),
            store.wf(),
            store@.schedule.len() == srs@.schedule.len(),
            forall|k: int|
                0 <= k < i ==> (#[trigger] answers@[k]).card_index < srs@.schedule.len(),
            is_outcome::<S>(srs@, answers@.take(i as int), now_in_epoch_days, store@),
        decreases answers.len() - i,
    {
        let answer: Answer = answers[i];
        let position: usize = answer.card_index as usize;
        if position >= store.schedule.len() {
            return Err(Error::UnknownCard);
        }
        let ghost mid = store@;
        let mut next: u16 = 1;
        if answer.is_correct {
            let entry: CardSchedule = store.schedule[position];
            next = schedule.next_interval(
                entry.most_recent_interval,
                Some(entry.last_was_correct()),
                INTERVAL_MODIFIER,
            );
        }
        apply_answer(&mut store, answer, now_in_epoch_days, next);
        proof {
            let done = answers@.take(i + 1);
            assert(done.drop_last() =~= answers@.take(i as int));
            assert(done.last() == answer);
            assert(is_answer_step::<S>(mid, answer, now_in_epoch_days, next, store@));
        }
        i += 1;
    }
    assert(answers@.take(i as int) =~= answers@);
    Ok(store)
}

/// The due positions as a generator in state `rng` shuffles them. (More
/// positions than the generator can shuffle keep their order.)
pub open spec fn review_order_of(
    schedule: Seq<CardSchedule>,
    now_in_epoch_days: u16,
    rng: u64,
) -> Seq<CardIndex> {
    let due = due_positions(schedule, now_in_epoch_days);
    if due.len() < u16::MAX {
        crate::rand::shuffled(due, rng)
    } else {
        due
    }
}

/// The due cards in the order in which a session shows them: an order that
/// `rng` decides. (More cards than the generator can shuffle keep the
/// store's order.)
pub fn review_order(srs: &Srs, now_in_epoch_days: u16, rng: &mut Rng) -> (order: Vec<CardIndex>)
    requires
        srs@.schedule.len() <= MAX_CARD_COUNT,
    ensures
        order@ == review_order_of(srs@.schedule, now_in_epoch_days, old(rng)@),
        forall|i: int|
            0 <= i < srs@.schedule.len() ==> order@.to_multiset().count(i as u16) == if (
            #[trigger] srs@.schedule[i]).is_due(now_in_epoch_days) {
                1nat
            } else {
                0nat
            },
        forall|k: int| 0 <= k < order@.len() ==> (#[trigger] order@[k]) < srs@.schedule.len(),
{
    let mut order: Vec<CardIndex> = cards_to_review(srs, now_in_epoch_days);
    let ghost due = order@;
    proof {
        lemma_rising_counts(due);
    }
    if order.len() < u16::MAX as usize {
        rng.shuffle(order.as_mut_slice());
    }
    proof {
        order@.to_multiset_ensures();
        due.to_multiset_ensures();
        assert forall|k: int| 0 <= k < order@.len() implies (#[trigger] order@[k])
            < srs@.schedule.len() by {
            assert(order@.contains(order@[k]));
            assert(order@.to_multiset().count(order@[k]) > 0);
            assert(due.to_multiset().count(order@[k]) > 0);
            assert(due.contains(order@[k]));
            let j = choose|j: int| 0 <= j < due.len() && due[j] == order@[k];
        }
        assert forall|i: int| 0 <= i < srs@.schedule.len() implies order@.to_multiset().count(
            i as u16,
        ) == if (#[trigger] srs@.schedule[i]).is_due(now_in_epoch_days) {
            1nat
        } else {
            0nat
        } by {
            if srs@.schedule[i].is_due(now_in_epoch_days) {
                assert(due.contains(i as u16));
                assert(due.to_multiset().count(i as u16) > 0);
            } else {
                if due.to_multiset().count(i as u16) > 0 {
                    assert(due.contains(i as u16));
                    let j = choose|j: int| 0 <= j < due.len() && due[j] == i as u16;
                    assert(srs@.schedule[due[j] as int].is_due(now_in_epoch_days));
                }
            }
        }
    }
    order
}

/// In a rising sequence nothing occurs twice.
pub proof fn lemma_rising_counts(s: Seq<u16>)
    requires
        forall|a: int, b: int| 0 <= a < b < s.len() ==> s[a] < s[b],
    ensures
        forall|x: u16| s.to_multiset().count(x) <= 1,
{
    assert(s.no_duplicates());
    s.lemma_multiset_has_no_duplicates();
    assert forall|x: u16| s.to_multiset().count(x) <= 1 by {
        if s.to_multiset().count(x) > 0 {
            assert(s.to_multiset().contains(x));
        }
    }
}

/// How many of the answers are correct.
pub open spec fn correct_answers(answers: Seq<Answer>) -> nat
    decreases answers.len(),
{
    if answers.len() == 0 {
        0
    } else if answers.last().is_correct {
        correct_answers(answers.drop_last()) + 1
    } else {
        correct_answers(answers.drop_last())
    }
}

/// How many of the answers are correct.
pub fn count_correct(answers: &Vec<Answer>) -> (count: usize)
    ensures
        count == correct_answers(answers@),
        count <= answers@.len(),
{
    let mut count: usize = 0;
    let mut i: usize = 0;
    assert(answers@.take(0) =~= Seq::<Answer>::empty());
    while i < answers.len()
        invariant
            i <= answers.len(),
            count <= i,
            count == correct_answers(answers@.take(i as int)),
        decreases answers.len() - i,
    {
        assert(answers@.take(i + 1).drop_last() =~= answers@.take(i as int));
        if answers[i].is_correct {
            count += 1;
        }
        i += 1;
    }
    assert(answers@.take(i as int) =~= answers@);
    count
}

/// A card that was just added counts as never reviewed and is due from the
/// day on which it was added: it comes last among the due cards, and the
/// others stay.
pub proof fn law_added_card_is_due(schedule: Seq<CardSchedule>, now_in_epoch_days: u16, later: u16)
    requires
        now_in_epoch_days <= later,
    ensures
        initial_schedule(now_in_epoch_days).is_due(later),
        initial_schedule(now_in_epoch_days).most_recent_interval == 0,
        due_positions(schedule.push(initial_schedule(now_in_epoch_days)), later) == due_positions(
            schedule,
            later,
        ).push(schedule.len() as u16),
{
    let longer = schedule.push(initial_schedule(now_in_epoch_days));
    assert(longer.drop_last() =~= schedule);
}

/// A correct answer is never mistaken for a wrong one at the next review,
/// and a wrong one is always remembered.
pub proof fn law_answer_is_remembered(
    entry: CardSchedule,
    is_correct: bool,
    now_in_epoch_days: u16,
    next: u16,
)
    requires
        next >= 1,
    ensures
        rescheduled(entry, is_correct, now_in_epoch_days, next).last_was_correct() == is_correct,
{
}

} // verus!
