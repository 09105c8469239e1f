//! The store's file format: a card count, the answer histogram, the
//! schedule, and the card records, all little-endian and without padding.

use crate::error::Error;
use crate::flat::{CardSchedule, Contents, Srs, Stat, STAT_ROW_COUNT};
use vstd::prelude::*;

verus! {

/// The bytes before the schedule: two for the card count, two for each row
/// of the histogram.
pub const SCHEDULE_OFFSET: usize = 732;

/// The bytes of one schedule entry.
pub const SCHEDULE_ROW_BYTES: usize = 4;

/// A 16-bit number as two bytes, low byte first.
pub open spec fn le16(x: u16) -> Seq<u8> {
    seq![(x % 256) as u8, (x / 256) as u8]
}

/// The 16-bit number that two bytes stand for, low byte first.
pub open spec fn from_le16(low: u8, high: u8) -> u16 {
    (low + high * 256) as u16
}

/// The histogram as it lies in the file: for each row the count of correct
/// answers, then the count of wrong ones.
pub open spec fn stat_bytes(stats: Seq<Stat>) -> Seq<u8> {
    Seq::new(
        2 * stats.len(),
        |k: int|
            if k % 2 == 0 {
                stats[k / 2].correct
            } else {
                stats[k / 2].wrong
            },
    )
}

/// One schedule entry as it lies in the file: the interval, then the day on
/// which the card is due.
pub open spec fn schedule_row_bytes(entry: CardSchedule) -> Seq<u8> {
    le16(entry.most_recent_interval) + le16(entry.scheduled_for)
}

/// The schedule as it lies in the file.
pub open spec fn schedule_bytes(schedule: Seq<CardSchedule>) -> Seq<u8> {
    Seq::new(4 * schedule.len(), |k: int| schedule_row_bytes(schedule[k / 4])[k % 4])
}

/// One card record as it lies in the file: its length, then its bytes.
pub open spec fn framed(card: Seq<u8>) -> Seq<u8> {
    le16(card.len() as u16) + card
}

/// The card records as they lie in the file, one after the other.
pub open spec fn card_bytes(cards: Seq<Seq<u8>>) -> Seq<u8>
    decreases cards.len(),
{
    if cards.len() == 0 {
        Seq::empty()
    } else {
        framed(cards.first()) + card_bytes(cards.drop_first())
    }
}

/// The whole file for a store.
pub open spec fn file_bytes(contents: Contents) -> Seq<u8> {
    le16(contents.cards.len() as u16) + stat_bytes(contents.stats) + schedule_bytes(
        contents.schedule,
    ) + card_bytes(contents.cards)
}

/// The histogram that a file holds.
pub open spec fn parsed_stats(bytes: Seq<u8>) -> Seq<Stat> {
    Seq::new(
        STAT_ROW_COUNT as nat,
        |i: int| Stat { correct: bytes[2 + 2 * i], wrong: bytes[3 + 2 * i] },
    )
}

/// The schedule that a file with `count` cards holds.
pub open spec fn parsed_schedule(bytes: Seq<u8>, count: int) -> Seq<CardSchedule> {
    Seq::new(
        count as nat,
        |i: int|
            CardSchedule {
                most_recent_interval: from_le16(
                    bytes[SCHEDULE_OFFSET + 4 * i],
                    bytes[SCHEDULE_OFFSET + 4 * i + 1],
                ),
                scheduled_for: from_le16(
                    bytes[SCHEDULE_OFFSET + 4 * i + 2],
                    bytes[SCHEDULE_OFFSET + 4 * i + 3],
                ),
            },
    )
}

/// The card records that `region` is made of, or nothing where it does not
/// end with the end of a record.
pub open spec fn parsed_cards(region: Seq<u8>) -> Option<Seq<Seq<u8>>>
    decreases region.len(),
{
    if region.len() == 0 {
        Some(Seq::empty())
    } else if region.len() < 2 {
        None
    } else {
        let length = from_le16(region[0], region[1]) as int;
        if region.len() < 2 + length {
            None
        } else {
            match parsed_cards(region.skip(2 + length)) {
                Some(rest) => Some(seq![region.subrange(2, 2 + length)] + rest),
                None => None,
            }
        }
    }
}

/// The store that a file holds, or nothing where the bytes are not a store
/// file: too short for the histogram or the schedule, a card record cut
/// short, or another number of records than the count announces.
pub open spec fn parsed(bytes: Seq<u8>) -> Option<Contents> {
    if bytes.len() < SCHEDULE_OFFSET {
        None
    } else {
        let count = from_le16(bytes[0], bytes[1]) as int;
        if bytes.len() < SCHEDULE_OFFSET + 4 * count {
            None
        } else {
            match parsed_cards(bytes.skip(SCHEDULE_OFFSET + 4 * count)) {
                Some(cards) => if cards.len() == count {
                    Some(
                        Contents {
                            cards,
                            schedule: parsed_schedule(bytes, count),
                            stats: parsed_stats(bytes),
                        },
                    )
                } else {
                    None
                },
                None => None,
            }
        }
    }
}

/// Two bytes and the number they stand for determine each other.
pub proof fn lemma_le16_round_trip(x: u16, low: u8, high: u8)
    ensures
        le16(x).len() == 2,
        from_le16(le16(x)[0], le16(x)[1]) == x,
        le16(from_le16(low, high)) == seq![low, high],
{
    assert(le16(from_le16(low, high)) =~= seq![low, high]);
}

/// The records of two runs of cards, one after the other, are the records of
/// the cards put together.
pub proof fn lemma_card_bytes_push(cards: Seq<Seq<u8>>, card: Seq<u8>)
    ensures
        card_bytes(cards.push(card)) == card_bytes(cards) + framed(card),
    decreases cards.len(),
{
    if cards.len() == 0 {
        let single = cards.push(card);
        assert(single.first() == card);
        assert(single.drop_first() =~= Seq::<Seq<u8>>::empty());
        assert(card_bytes(single.drop_first()) =~= Seq::<u8>::empty());
        assert(card_bytes(cards) =~= Seq::<u8>::empty());
        assert(card_bytes(single) =~= card_bytes(cards) + framed(card));
    } else {
        let longer = cards.push(card);
        assert(longer.drop_first() =~= cards.drop_first().push(card));
        lemma_card_bytes_push(cards.drop_first(), card);
        assert(card_bytes(longer) =~= card_bytes(cards) + framed(card));
    }
}

/// Reading back the records of a run of cards gives the cards.
pub proof fn lemma_parsed_card_bytes(cards: Seq<Seq<u8>>)
    requires
        forall|i: int| 0 <= i < cards.len() ==> (#[trigger] cards[i]).len() <= 0xffff,
    ensures
        parsed_cards(card_bytes(cards)) == Some(cards),
    decreases cards.len(),
{
    if cards.len() == 0 {
        assert(cards =~= Seq::empty());
    } else {
        let first = cards.first();
        let rest = cards.drop_first();
        let region = card_bytes(cards);
        assert(first.len() <= 0xffff);
        lemma_le16_round_trip(first.len() as u16, 0, 0);
        assert(region.len() >= 2 + first.len());
        assert(region[0] == le16(first.len() as u16)[0]);
        assert(region[1] == le16(first.len() as u16)[1]);
        assert(region.skip(2 + first.len() as int) =~= card_bytes(rest));
        assert(region.subrange(2, 2 + first.len() as int) =~= first);
        assert forall|i: int| 0 <= i < rest.len() implies (#[trigger] rest[i]).len() <= 0xffff by {
            assert(rest[i] == cards[i + 1]);
        }
        lemma_parsed_card_bytes(rest);
        assert(seq![first] + rest =~= cards);
    }
}

/// A region that parts into card records is made of exactly those records,
/// and each fits the length field.
pub proof fn lemma_card_bytes_parsed(region: Seq<u8>)
    requires
        parsed_cards(region).is_some(),
    ensures
        card_bytes(parsed_cards(region).unwrap()) == region,
        forall|i: int|
            0 <= i < parsed_cards(region).unwrap().len() ==> (#[trigger] parsed_cards(
                region,
            ).unwrap()[i]).len() <= 0xffff,
    decreases region.len(),
{
    if region.len() == 0 {
        assert(card_bytes(Seq::<Seq<u8>>::empty()) =~= region);
    } else {
        let length = from_le16(region[0], region[1]) as int;
        let tail = region.skip(2 + length);
        let first = region.subrange(2, 2 + length);
        lemma_card_bytes_parsed(tail);
        let rest = parsed_cards(tail).unwrap();
        let cards = seq![first] + rest;
        assert(cards.first() == first);
        assert(cards.drop_first() =~= rest);
        lemma_le16_round_trip(0, region[0], region[1]);
        assert(framed(first) =~= region.subrange(0, 2 + length));
        assert(card_bytes(cards) =~= region);
        assert forall|i: int| 0 <= i < cards.len() implies (#[trigger] cards[i]).len()
            <= 0xffff by {
            if i > 0 {
                assert(cards[i] == rest[i - 1]);
            }
        }
    }
}

/// Writing a store and reading the file back gives the same cards, schedule
/// and histogram.
pub proof fn law_write_then_open(contents: Contents)
    requires
        contents.wf(),
    ensures
        parsed(file_bytes(contents)) == Some(contents),
{
    let bytes = file_bytes(contents);
    let count = contents.cards.len() as int;
    lemma_le16_round_trip(count as u16, 0, 0);
    assert(bytes.len() >= SCHEDULE_OFFSET + 4 * count);
    assert(bytes[0] == le16(count as u16)[0]);
    assert(bytes[1] == le16(count as u16)[1]);
    assert(from_le16(bytes[0], bytes[1]) == count);
    assert(bytes.skip(SCHEDULE_OFFSET + 4 * count) =~= card_bytes(contents.cards));
    lemma_parsed_card_bytes(contents.cards);
    assert(parsed_stats(bytes) =~= contents.stats) by {
        assert forall|i: int| 0 <= i < STAT_ROW_COUNT implies parsed_stats(bytes)[i]
            == contents.stats[i] by {
            assert(bytes[2 + 2 * i] == stat_bytes(contents.stats)[2 * i]);
            assert(bytes[3 + 2 * i] == stat_bytes(contents.stats)[2 * i + 1]);
        }
    }
    assert(parsed_schedule(bytes, count) =~= contents.schedule) by {
        assert forall|i: int| 0 <= i < count implies parsed_schedule(bytes, count)[i]
            == contents.schedule[i] by {
            let entry = contents.schedule[i];
            let row = schedule_row_bytes(entry);
            let written = schedule_bytes(contents.schedule);
            assert(bytes[SCHEDULE_OFFSET + 4 * i] == written[4 * i]);
            assert(bytes[SCHEDULE_OFFSET + 4 * i + 1] == written[4 * i + 1]);
            assert(bytes[SCHEDULE_OFFSET + 4 * i + 2] == written[4 * i + 2]);
            assert(bytes[SCHEDULE_OFFSET + 4 * i + 3] == written[4 * i + 3]);
            lemma_le16_round_trip(entry.most_recent_interval, 0, 0);
            lemma_le16_round_trip(entry.scheduled_for, 0, 0);
        }
    }
}

/// A file that holds a store is, byte for byte, the file that is written for
/// that store.
pub proof fn law_open_then_write(bytes: Seq<u8>)
    requires
        parsed(bytes).is_some(),
    ensures
        parsed(bytes).unwrap().wf(),
        file_bytes(parsed(bytes).unwrap()) == bytes,
{
    let contents = parsed(bytes).unwrap();
    let count = from_le16(bytes[0], bytes[1]) as int;
    let region = bytes.skip(SCHEDULE_OFFSET + 4 * count);
    lemma_card_bytes_parsed(region);
    lemma_le16_round_trip(0, bytes[0], bytes[1]);
    assert forall|k: int| 0 <= k < 4 * count implies schedule_bytes(contents.schedule)[k]
        == bytes[SCHEDULE_OFFSET + k] by {
        let i = k / 4;
        let entry = contents.schedule[i];
        lemma_le16_round_trip(
            0,
            bytes[SCHEDULE_OFFSET + 4 * i],
            bytes[SCHEDULE_OFFSET + 4 * i + 1],
        );
        lemma_le16_round_trip(
            0,
            bytes[SCHEDULE_OFFSET + 4 * i + 2],
            bytes[SCHEDULE_OFFSET + 4 * i + 3],
        );
    }
    assert(file_bytes(contents) =~= bytes);
}

/// The byte sequences that a vector of byte vectors holds.
pub open spec fn records(cards: Seq<Vec<u8>>) -> Seq<Seq<u8>> {
    Seq::new(cards.len(), |i: int| cards[i]@)
}

/// `head` put in front of the cards in `tail`, where there are any.
pub open spec fn prepended(head: Seq<Seq<u8>>, tail: Option<Seq<Seq<u8>>>) -> Option<
    Seq<Seq<u8>>,
> {
    match tail {
        Some(rest) => Some(head + rest),
        None => None,
    }
}

/// Appends a 16-bit number, low byte first.
pub fn push_le16(out: &mut Vec<u8>, x: u16)
    ensures
        final(out)@ == old(out)@ + le16(x),
{
    out.push((x % 256) as u8);
    out.push((x / 256) as u8);
    assert(out@ =~= old(out)@ + le16(x));
}

/// Reads the 16-bit number at `at`, low byte first.
pub fn read_le16(bytes: &[u8], at: usize) -> (x: u16)
    requires
        at + 2 <= bytes@.len(),
    ensures
        x == from_le16(bytes@[at as int], bytes@[at + 1]),
{
    let low: u16 = bytes[at] as u16;
    let high: u16 = bytes[at + 1] as u16;
    low + high * 256
}

/// The file for a store.
pub fn write(srs: &Srs) -> (bytes: Vec<u8>)
    requires
        srs.wf(),
    ensures
        bytes@ == file_bytes(srs@),
{
    let mut out: Vec<u8> = Vec::new();
    push_le16(&mut out, srs.cards.len() as u16);
    let ghost head = le16(srs@.cards.len() as u16);
    assert(out@ =~= head);

    let mut i: usize = 0;
    while i < srs.stats.len()
        invariant
            i <= srs.stats.len(),
            out@.len() == 2 + 2 * i,
            out@.subrange(0, 2) == head,
            forall|k: int| 0 <= k < 2 * i ==> out@[2 + k] == stat_bytes(srs.stats@)[k],
        decreases srs.stats.len() - i,
    {
        let ghost before = out@;
        out.push(srs.stats[i].correct);
        out.push(srs.stats[i].wrong);
        assert(out@.subrange(0, 2) =~= before.subrange(0, 2));
        i += 1;
    }
    assert(out@ =~= head + stat_bytes(srs@.stats));
    let ghost fixed = out@;

    let mut j: usize = 0;
    while j < srs.schedule.len()
        invariant
            j <= srs.schedule.len(),
            out@.len() == fixed.len() + 4 * j,
            out@.subrange(0, fixed.len() as int) == fixed,
            forall|k: int|
                0 <= k < 4 * j ==> out@[fixed.len() + k] == schedule_bytes(srs.schedule@)[k],
        decreases srs.schedule.len() - j,
    {
        let ghost before = out@;
        let entry: CardSchedule = srs.schedule[j];
        push_le16(&mut out, entry.most_recent_interval);
        push_le16(&mut out, entry.scheduled_for);
        assert(out@ =~= before + schedule_row_bytes(entry));
        assert(out@.subrange(0, fixed.len() as int) =~= before.subrange(0, fixed.len() as int));
        assert forall|k: int| 0 <= k < 4 * (j + 1) implies out@[fixed.len() + k]
            == schedule_bytes(srs.schedule@)[k] by {
            if k >= 4 * j {
                assert(k / 4 == j as int);
                assert(out@[fixed.len() + k] == schedule_row_bytes(entry)[k - 4 * j]);
            } else {
                assert(out@[fixed.len() + k] == before[fixed.len() + k]);
            }
        }
        j += 1;
    }
    assert(out@ =~= fixed + schedule_bytes(srs@.schedule));
    let ghost scheduled = out@;
    let ghost cards = srs@.cards;

    let mut n: usize = 0;
    assert(cards.take(0) =~= Seq::<Seq<u8>>::empty());
    while n < srs.cards.len()
        invariant
            n <= srs.cards.len(),
            srs.wf(),
            cards == srs@.cards,
            out@ == scheduled + card_bytes(cards.take(n as int)),
        decreases srs.cards.len() - n,
    {
        let record: &Vec<u8> = &srs.cards[n];
        assert(record@ == cards[n as int]);
        let ghost before = out@;
        push_le16(&mut out, record.len() as u16);
        out.extend_from_slice(record.as_slice());
        proof {
            assert(out@ =~= before + framed(record@));
            lemma_card_bytes_push(cards.take(n as int), record@);
            assert(cards.take(n + 1) =~= cards.take(n as int).push(record@));
            assert(out@ =~= scheduled + card_bytes(cards.take(n + 1)));
        }
        n += 1;
    }
    assert(cards.take(n as int) =~= cards);
    out
}

/// The store that a file holds. The bytes must be laid out exactly as
/// `write` lays them out; anything else is refused.
pub fn open(bytes: &[u8]) -> (opened: Result<Srs, Error>)
    ensures
        parsed(bytes@).is_none() ==> opened == Err::<Srs, Error>(Error::MalformedFile),
        parsed(bytes@).is_some() ==> opened.is_ok() && opened.unwrap()@ == parsed(
            bytes@,
        ).unwrap(),
        opened.is_ok() ==> opened.unwrap().wf(),
{
    if bytes.len() < SCHEDULE_OFFSET {
        return Err(Error::MalformedFile);
    }
    let count: usize = read_le16(bytes, 0) as usize;
    let cards_offset: usize = SCHEDULE_OFFSET + SCHEDULE_ROW_BYTES * count;
    if bytes.len() < cards_offset {
        return Err(Error::MalformedFile);
    }
    let mut stats: Vec<Stat> = Vec::new();
    let mut i: usize = 0;
    while i < STAT_ROW_COUNT
        invariant
            i <= STAT_ROW_COUNT,
            bytes@.len() >= SCHEDULE_OFFSET,
            stats@.len() == i,
            forall|k: int| 0 <= k < i ==> stats@[k] == parsed_stats(bytes@)[k],
        decreases STAT_ROW_COUNT - i,
    {
        stats.push(Stat { correct: bytes[2 + 2 * i], wrong: bytes[3 + 2 * i] });
        i += 1;
    }
    assert(stats@ =~= parsed_stats(bytes@));

    let mut schedule: Vec<CardSchedule> = Vec::new();
    let mut j: usize = 0;
    while j < count
        invariant
            j <= count,
            count <= 0xffff,
            bytes@.len() >= SCHEDULE_OFFSET + 4 * count,
            schedule@.len() == j,
            forall|k: int| 0 <= k < j ==> schedule@[k] == parsed_schedule(bytes@, count as int)[k],
        decreases count - j,
    {
        let at: usize = SCHEDULE_OFFSET + SCHEDULE_ROW_BYTES * j;
        schedule.push(
            CardSchedule {
                most_recent_interval: read_le16(bytes, at),
                scheduled_for: read_le16(bytes, at + 2),
            },
        );
        j += 1;
    }
    assert(schedule@ =~= parsed_schedule(bytes@, count as int));

    let ghost region = bytes@.skip(cards_offset as int);
    let mut cards: Vec<Vec<u8>> = Vec::new();
    let mut pos: usize = cards_offset;
    proof {
        if parsed_cards(region).is_some() {
            assert(records(cards@) + parsed_cards(region).unwrap() =~= parsed_cards(
                region,
            ).unwrap());
        }
    }
    while pos < bytes.len()
        invariant
            cards_offset <= pos <= bytes@.len(),
            bytes@.len() >= SCHEDULE_OFFSET,
            count == from_le16(bytes@[0], bytes@[1]),
            cards_offset == SCHEDULE_OFFSET + 4 * count,
            region == bytes@.skip(cards_offset as int),
            parsed_cards(region) == prepended(
                records(cards@),
                parsed_cards(bytes@.skip(pos as int)),
            ),
        decreases bytes.len() - pos,
    {
        let ghost tail = bytes@.skip(pos as int);
        if bytes.len() - pos < 2 {
            return Err(Error::MalformedFile);
        }
        let length: usize = read_le16(bytes, pos) as usize;
        assert(length == from_le16(tail[0], tail[1]));
        if bytes.len() - pos - 2 < length {
            return Err(Error::MalformedFile);
        }
        let record: Vec<u8> = vstd::slice::slice_to_vec(
            vstd::slice::slice_subrange(bytes, pos + 2, pos + 2 + length),
        );
        let ghost before = records(cards@);
        cards.push(record);
        proof {
            assert(record@ =~= tail.subrange(2, 2 + length));
            assert(tail.skip(2 + length) =~= bytes@.skip(pos + 2 + length));
            assert(records(cards@) =~= before.push(record@));
            let rest = parsed_cards(bytes@.skip(pos + 2 + length));
            if rest.is_some() {
                assert(before + (seq![record@] + rest.unwrap()) =~= records(cards@)
                    + rest.unwrap());
            }
        }
        pos += 2 + length;
    }
    proof {
        assert(bytes@.skip(pos as int) =~= Seq::<u8>::empty());
        assert(records(cards@) + Seq::<Seq<u8>>::empty() =~= records(cards@));
    }
    if cards.len() != count {
        return Err(Error::MalformedFile);
    }
    let srs = Srs { cards, schedule, stats };
    proof {
        assert(srs@.cards =~= records(cards@));
        law_open_then_write(bytes@);
    }
    Ok(srs)
}

/// The file of a store without cards.
pub open spec fn empty_file() -> Seq<u8> {
    file_bytes(
        Contents {
            cards: Seq::empty(),
            schedule: Seq::empty(),
            stats: crate::flat::empty_stats(),
        },
    )
}

/// The file to begin with. Where there is no file yet, it is the file of a
/// store without cards. Where there is one, it must hold a store, and it
/// stays as it is: beginning twice changes nothing.
///
/// Fails when the file that is there does not hold a store.
pub fn init(existing: Option<&[u8]>) -> (file: Result<Vec<u8>, Error>)
    ensures
        existing.is_none() ==> file.is_ok() && file.unwrap()@ == empty_file(),
        existing matches Some(bytes) ==> {
            &&& parsed(bytes@).is_some() ==> file.is_ok() && file.unwrap()@ == bytes@
            &&& parsed(bytes@).is_none() ==> file == Err::<Vec<u8>, Error>(Error::MalformedFile)
        },
{
    match existing {
        None => {
            let srs = Srs::new();
            assert(srs@.cards =~= Seq::<Seq<u8>>::empty());
            assert(srs@.schedule =~= Seq::<CardSchedule>::empty());
            Ok(write(&srs))
        },
        Some(bytes) => match open(bytes) {
            Ok(srs) => {
                proof {
                    law_open_then_write(bytes@);
                }
                Ok(write(&srs))
            },
            Err(e) => Err(e),
        },
    }
}

} // verus!
