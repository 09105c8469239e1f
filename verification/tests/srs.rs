use srs_cli::error::Error;
use srs_cli::rand::Rng;
use srs_cli::schedule::LowKeyAnki;
use srs_cli::srs::{
    answers_to, cards_not_in, due_instant_of, hold_u16, hold_u32, holds_card, AnswerRow,
    GlobalStats, ReviewInputs, Srs, Tally,
};

const DAY: u64 = 86_400_000;

fn store_with_deck(name: &str) -> (Srs, u64) {
    let mut srs = Srs::new(0);
    srs.create_deck(name, 0).unwrap();
    let id = srs.decks()[0].id;
    (srs, id)
}

fn ids(srs: &Srs) -> Vec<u64> {
    srs.cards.iter().map(|c| c.id).collect()
}

fn due_ids(srs: &Srs, as_of: u64) -> Vec<Vec<u64>> {
    let mut rng = Rng::with_seed(1);
    srs.cards_to_review(as_of, &mut rng)
        .into_iter()
        .map(|(_, cards)| {
            let mut ids: Vec<u64> = cards.into_iter().map(|c| c.id).collect();
            ids.sort();
            ids
        })
        .collect()
}

#[test]
fn spanish_scenario() {
    let now = 5 * DAY;
    let mut srs = Srs::new(0);
    srs.create_deck("Spanish", now).unwrap();
    let deck_id = srs.decks()[0].id;
    srs.create_card(deck_id, "hola".to_string(), "hello".to_string(), now).unwrap();

    let mut rng = Rng::with_seed(3);
    let groups = srs.cards_to_review(now, &mut rng);
    assert_eq!(groups.len(), 1);
    assert_eq!(groups[0].0, "Spanish");
    assert_eq!(groups[0].1.len(), 1);
    assert_eq!(groups[0].1[0].front, "hola");
    assert_eq!(groups[0].1[0].back, "hello");
    let card_id = groups[0].1[0].id;

    let mut schedule = LowKeyAnki::with_seed(0);
    srs.record_answer(card_id, true, now, &mut schedule).unwrap();
    assert_eq!(srs.cards[0].interval_days, Some(1));
    assert_eq!(srs.cards[0].scheduled_for, Some(now + DAY));

    assert!(srs.cards_to_review(now, &mut rng).is_empty());
    assert!(srs.cards_to_review(now + DAY - 1, &mut rng).is_empty());
    let later = srs.cards_to_review(now + DAY, &mut rng);
    assert_eq!(later.len(), 1);
    assert_eq!(later[0].1[0].id, card_id);
}

#[test]
fn deleting_a_deck_takes_its_cards_along() {
    let (mut srs, deck_id) = store_with_deck("Spanish");
    for front in ["uno", "dos", "tres"] {
        srs.create_card(deck_id, front.to_string(), String::new(), 0).unwrap();
    }
    let mut schedule = LowKeyAnki::with_seed(0);
    srs.record_answer(srs.cards[0].id, true, 0, &mut schedule).unwrap();
    assert_eq!(srs.card_previews().len(), 3);

    srs.delete_deck(deck_id).unwrap();

    assert!(srs.card_previews().is_empty());
    assert!(srs.cards.is_empty());
    assert!(srs.answers.is_empty());
    let (global, decks) = srs.stats(0);
    assert!(decks.is_empty());
    assert_eq!(global, GlobalStats { active: 0, suspended: 0, leech: 0, for_review: 0 });
    assert!(srs.decks().is_empty());
}

#[test]
fn deleting_a_deck_keeps_the_other_decks_whole() {
    let (mut srs, spanish) = store_with_deck("Spanish");
    srs.create_deck("French", 0).unwrap();
    let french = srs.decks()[1].id;
    srs.create_card(spanish, "hola".to_string(), "hello".to_string(), 0).unwrap();
    srs.create_card(french, "salut".to_string(), "hi".to_string(), 0).unwrap();
    srs.create_card(spanish, "adios".to_string(), "bye".to_string(), 0).unwrap();
    let mut schedule = LowKeyAnki::with_seed(0);
    for id in ids(&srs) {
        srs.record_answer(id, true, 0, &mut schedule).unwrap();
    }
    srs.delete_deck(spanish).unwrap();
    assert_eq!(srs.decks().len(), 1);
    assert_eq!(srs.decks()[0].name, "French");
    assert_eq!(ids(&srs), vec![2]);
    assert_eq!(srs.answers, vec![AnswerRow { card_id: 2, is_correct: true, timestamp: 0 }]);
    assert_eq!(srs.delete_deck(spanish), Err(Error::UnknownDeck));
}

#[test]
fn new_card_is_due_in_its_deck_only_and_no_leech() {
    let (mut srs, spanish) = store_with_deck("Spanish");
    srs.create_deck("French", 0).unwrap();
    let french = srs.decks()[1].id;
    srs.create_card(french, "salut".to_string(), "hi".to_string(), 10).unwrap();
    let mut rng = Rng::with_seed(9);
    let groups = srs.cards_to_review(10, &mut rng);
    assert_eq!(groups.len(), 1);
    assert_eq!(groups[0].0, "French");
    assert_eq!(groups[0].1.len(), 1);
    assert!(srs.due_cards_in(spanish, 10).is_empty());
    assert_eq!(srs.due_cards_in(french, 10).len(), 1);
    let (global, decks) = srs.stats(10);
    assert_eq!(global.leech, 0);
    assert_eq!(global.active, 1);
    assert_eq!(decks[0].active, 0);
    assert_eq!(decks[1].active, 1);
    assert_eq!(decks[1].leech, 0);
}

#[test]
fn four_wrong_answers_make_a_leech() {
    let (mut srs, deck_id) = store_with_deck("Spanish");
    srs.create_card(deck_id, "hola".to_string(), "hello".to_string(), 0).unwrap();
    let card_id = srs.cards[0].id;
    let mut schedule = LowKeyAnki::with_seed(0);
    for round in 0..3u64 {
        srs.record_answer(card_id, false, round * 10 * DAY, &mut schedule).unwrap();
        assert!(!srs.cards[0].is_leech);
        assert!(srs.cards[0].scheduled_for.is_some());
    }
    assert_eq!(srs.count_wrong_answers(card_id), 3);
    srs.record_answer(card_id, false, 40 * DAY, &mut schedule).unwrap();
    assert!(srs.cards[0].is_leech);
    assert_eq!(srs.cards[0].scheduled_for, None);
    assert_eq!(srs.cards[0].interval_days, None);
    assert_eq!(srs.answers.len(), 4);

    assert!(due_ids(&srs, 1000 * DAY).is_empty());
    assert!(due_ids(&srs, u64::MAX).is_empty());
    let (global, decks) = srs.stats(40 * DAY);
    assert_eq!(global, GlobalStats { active: 0, suspended: 0, leech: 1, for_review: 0 });
    assert_eq!(decks[0].leech, 1);
    assert_eq!(decks[0].wrong, 2);
    assert!(srs.card_previews()[0].is_leech);

    assert_eq!(
        srs.record_answer(card_id, true, 50 * DAY, &mut schedule),
        Err(Error::NotScheduled)
    );
    assert!(srs.cards[0].is_leech);
}

#[test]
fn wrong_answers_count_in_total_not_in_a_row() {
    let (mut srs, deck_id) = store_with_deck("Spanish");
    srs.create_card(deck_id, "hola".to_string(), "hello".to_string(), 0).unwrap();
    let card_id = srs.cards[0].id;
    let mut schedule = LowKeyAnki::with_seed(0);
    for (round, correct) in [false, true, false, false, true].into_iter().enumerate() {
        srs.record_answer(card_id, correct, round as u64 * 30 * DAY, &mut schedule).unwrap();
    }
    assert!(!srs.cards[0].is_leech);
    srs.record_answer(card_id, false, 200 * DAY, &mut schedule).unwrap();
    assert!(srs.cards[0].is_leech);
}

#[test]
fn answers_follow_the_low_key_schedule() {
    let (mut srs, deck_id) = store_with_deck("Spanish");
    srs.create_card(deck_id, "hola".to_string(), "hello".to_string(), 0).unwrap();
    let card_id = srs.cards[0].id;
    let mut schedule = LowKeyAnki::with_seed(0);
    srs.record_answer(card_id, true, 0, &mut schedule).unwrap();
    assert_eq!(srs.cards[0].interval_days, Some(1));
    srs.record_answer(card_id, true, DAY, &mut schedule).unwrap();
    assert_eq!(srs.cards[0].interval_days, Some(4));
    assert_eq!(srs.cards[0].scheduled_for, Some(5 * DAY));
    srs.record_answer(card_id, false, 5 * DAY, &mut schedule).unwrap();
    let grown = srs.cards[0].interval_days.unwrap();
    assert!((9..=11).contains(&grown));
    srs.record_answer(card_id, true, 15 * DAY, &mut schedule).unwrap();
    let reduced = srs.cards[0].interval_days.unwrap();
    assert_eq!(reduced, grown * 7 / 10);
    assert_eq!(srs.cards[0].scheduled_for, Some((15 + reduced as u64) * DAY));
}

#[test]
fn interval_modifier_scales_growth() {
    let (mut srs, deck_id) = store_with_deck("Spanish");
    srs.update_interval_modifier(deck_id, 200).unwrap();
    srs.create_card(deck_id, "hola".to_string(), "hello".to_string(), 0).unwrap();
    let card_id = srs.cards[0].id;
    srs.apply_answer(card_id, true, 0, 50).unwrap();
    assert_eq!(
        srs.review_inputs(card_id),
        Ok(ReviewInputs { previous_interval: 50, was_correct: Some(true), interval_modifier: 200 })
    );
    let mut schedule = LowKeyAnki::with_seed(0);
    srs.record_answer(card_id, true, 50 * DAY, &mut schedule).unwrap();
    assert_eq!(srs.cards[0].interval_days, Some(249));
}

#[test]
fn long_interval_suspends_the_card() {
    let (mut srs, deck_id) = store_with_deck("Spanish");
    srs.create_card(deck_id, "hola".to_string(), "hello".to_string(), 0).unwrap();
    let card_id = srs.cards[0].id;
    srs.apply_answer(card_id, true, 0, 364).unwrap();
    assert_eq!(srs.cards[0].interval_days, Some(364));
    assert_eq!(srs.cards[0].scheduled_for, Some(364 * DAY));
    srs.apply_answer(card_id, true, 364 * DAY, 365).unwrap();
    assert_eq!(srs.cards[0].interval_days, None);
    assert_eq!(srs.cards[0].scheduled_for, None);
    assert!(!srs.cards[0].is_leech);
    assert!(due_ids(&srs, 5000 * DAY).is_empty());
    let (global, _) = srs.stats(0);
    assert_eq!(global, GlobalStats { active: 0, suspended: 1, leech: 0, for_review: 0 });
    assert_eq!(srs.apply_answer(card_id, true, 0, 1), Err(Error::NotScheduled));
}

#[test]
fn established_card_without_history_is_refused() {
    let (mut srs, deck_id) = store_with_deck("Spanish");
    srs.create_card(deck_id, "hola".to_string(), "hello".to_string(), 0).unwrap();
    srs.cards[0].interval_days = Some(10);
    let card_id = srs.cards[0].id;
    let mut schedule = LowKeyAnki::with_seed(0);
    assert_eq!(
        srs.record_answer(card_id, true, 0, &mut schedule),
        Err(Error::MissingAnswerHistory)
    );
    assert!(srs.answers.is_empty());
    assert_eq!(srs.cards[0].interval_days, Some(10));
}

#[test]
fn answering_an_unknown_card_fails() {
    let (mut srs, _) = store_with_deck("Spanish");
    let mut schedule = LowKeyAnki::with_seed(0);
    assert_eq!(srs.record_answer(77, true, 0, &mut schedule), Err(Error::UnknownCard));
    assert_eq!(srs.answer_correct(77, 0, &mut schedule), Err(Error::UnknownCard));
    assert_eq!(srs.answer_wrong(77, 0, &mut schedule), Err(Error::UnknownCard));
    assert_eq!(srs.apply_answer(77, true, 0, 1), Err(Error::UnknownCard));
    assert_eq!(srs.review_inputs(77), Err(Error::UnknownCard));
}

#[test]
fn answer_correct_and_wrong_record_what_they_say() {
    let (mut srs, deck_id) = store_with_deck("Spanish");
    srs.create_card(deck_id, "hola".to_string(), "hello".to_string(), 0).unwrap();
    let card_id = srs.cards[0].id;
    let mut schedule = LowKeyAnki::with_seed(0);
    srs.answer_correct(card_id, 3, &mut schedule).unwrap();
    srs.answer_wrong(card_id, 4, &mut schedule).unwrap();
    assert_eq!(
        srs.answers,
        vec![
            AnswerRow { card_id, is_correct: true, timestamp: 3 },
            AnswerRow { card_id, is_correct: false, timestamp: 4 },
        ]
    );
    assert_eq!(srs.latest_answer(card_id), Some(false));
    assert_eq!(srs.latest_answer(card_id + 1), None);
    assert_eq!(srs.count_wrong_answers(card_id), 1);
}

#[test]
fn create_deck_validates_and_numbers() {
    let mut srs = Srs::new(0);
    assert_eq!(srs.create_deck("", 0), Err(Error::EmptyDeckName));
    assert!(srs.decks().is_empty());
    srs.create_deck("a", 1).unwrap();
    srs.create_deck("b", 2).unwrap();
    let decks = srs.decks();
    assert_eq!(decks.len(), 2);
    assert_eq!((decks[0].id, decks[0].name.as_str(), decks[0].interval_modifier), (1, "a", 100));
    assert_eq!((decks[1].id, decks[1].name.as_str(), decks[1].interval_modifier), (2, "b", 100));
    srs.next_deck_id = u64::MAX;
    assert_eq!(srs.create_deck("c", 3), Err(Error::IdsExhausted));
}

#[test]
fn ids_are_not_reused_after_deletion() {
    let (mut srs, deck_id) = store_with_deck("Spanish");
    srs.create_card(deck_id, "uno".to_string(), String::new(), 0).unwrap();
    srs.create_card(deck_id, "dos".to_string(), String::new(), 0).unwrap();
    srs.delete_card(2).unwrap();
    srs.create_card(deck_id, "tres".to_string(), String::new(), 0).unwrap();
    assert_eq!(ids(&srs), vec![1, 3]);
    srs.delete_deck(deck_id).unwrap();
    srs.create_deck("French", 0).unwrap();
    assert_eq!(srs.decks()[0].id, 2);
}

#[test]
fn interval_modifier_has_a_minimum() {
    let (mut srs, deck_id) = store_with_deck("Spanish");
    assert_eq!(srs.update_interval_modifier(deck_id, 49), Err(Error::IntervalModifierTooSmall));
    assert_eq!(srs.update_interval_modifier(99, 49), Err(Error::IntervalModifierTooSmall));
    assert_eq!(srs.get_deck(deck_id).unwrap().interval_modifier, 100);
    assert_eq!(srs.update_interval_modifier(deck_id, 50), Ok(()));
    assert_eq!(srs.get_deck(deck_id).unwrap().interval_modifier, 50);
    assert_eq!(srs.update_interval_modifier(deck_id, 65_535), Ok(()));
    assert_eq!(srs.update_interval_modifier(99, 120), Err(Error::UnknownDeck));
    assert_eq!(srs.get_deck(99).err(), Some(Error::UnknownDeck));
}

#[test]
fn create_card_validates() {
    let (mut srs, deck_id) = store_with_deck("Spanish");
    assert_eq!(
        srs.create_card(deck_id, String::new(), "back".to_string(), 0),
        Err(Error::EmptyFront)
    );
    assert_eq!(
        srs.create_card(deck_id + 1, "front".to_string(), "back".to_string(), 0),
        Err(Error::UnknownDeck)
    );
    srs.next_card_id = u64::MAX;
    assert_eq!(
        srs.create_card(deck_id, "front".to_string(), "back".to_string(), 0),
        Err(Error::IdsExhausted)
    );
    assert!(srs.cards.is_empty());
}

#[test]
fn created_card_has_its_initial_schedule() {
    let (mut srs, deck_id) = store_with_deck("Spanish");
    srs.create_card(deck_id, "hola".to_string(), "hello".to_string(), 1234).unwrap();
    let row = &srs.cards[0];
    assert_eq!(row.id, 1);
    assert_eq!(row.deck_id, deck_id);
    assert_eq!(row.creation_time, 1234);
    assert_eq!(row.interval_days, Some(0));
    assert_eq!(row.scheduled_for, Some(1234));
    assert!(!row.is_leech);
    let card = srs.get_card(1).unwrap();
    assert_eq!((card.id, card.front.as_str(), card.back.as_str()), (1, "hola", "hello"));
    assert_eq!(srs.get_card(2).err(), Some(Error::UnknownCard));
}

#[test]
fn update_card_changes_text_only() {
    let (mut srs, deck_id) = store_with_deck("Spanish");
    srs.create_card(deck_id, "hola".to_string(), "hello".to_string(), 0).unwrap();
    srs.apply_answer(1, true, 0, 9).unwrap();
    srs.update_card(1, "buenas".to_string(), "hi".to_string()).unwrap();
    let row = &srs.cards[0];
    assert_eq!((row.front.as_str(), row.back.as_str()), ("buenas", "hi"));
    assert_eq!(row.interval_days, Some(9));
    assert_eq!(row.scheduled_for, Some(9 * DAY));
    assert_eq!(srs.answers.len(), 1);
    assert_eq!(srs.update_card(1, String::new(), "x".to_string()), Err(Error::EmptyFront));
    assert_eq!(
        srs.update_card(2, "x".to_string(), "y".to_string()),
        Err(Error::UnknownCard)
    );
}

#[test]
fn switch_deck_moves_the_card() {
    let (mut srs, spanish) = store_with_deck("Spanish");
    srs.create_deck("French", 0).unwrap();
    let french = srs.decks()[1].id;
    srs.create_card(spanish, "salut".to_string(), "hi".to_string(), 0).unwrap();
    srs.switch_deck(1, french).unwrap();
    assert_eq!(srs.cards[0].deck_id, french);
    assert!(srs.due_cards_in(spanish, 0).is_empty());
    assert_eq!(srs.due_cards_in(french, 0).len(), 1);
    assert_eq!(srs.switch_deck(2, french), Err(Error::UnknownCard));
    assert_eq!(srs.switch_deck(1, 99), Err(Error::UnknownDeck));
}

#[test]
fn delete_card_takes_its_answers_along() {
    let (mut srs, deck_id) = store_with_deck("Spanish");
    srs.create_card(deck_id, "uno".to_string(), String::new(), 0).unwrap();
    srs.create_card(deck_id, "dos".to_string(), String::new(), 0).unwrap();
    srs.apply_answer(1, true, 0, 1).unwrap();
    srs.apply_answer(2, false, 1, 1).unwrap();
    srs.apply_answer(1, false, 2, 1).unwrap();
    srs.delete_card(1).unwrap();
    assert_eq!(ids(&srs), vec![2]);
    assert_eq!(srs.answers, vec![AnswerRow { card_id: 2, is_correct: false, timestamp: 1 }]);
    assert_eq!(srs.delete_card(1), Err(Error::UnknownCard));
}

#[test]
fn card_list_shows_leeches_first_and_newest_first() {
    let (mut srs, deck_id) = store_with_deck("Spanish");
    for front in ["a", "b", "c", "d"] {
        srs.create_card(deck_id, front.to_string(), String::new(), 0).unwrap();
    }
    for _ in 0..4 {
        srs.apply_answer(2, false, 0, 1).unwrap();
    }
    let listed: Vec<(u64, String, bool)> =
        srs.card_previews().into_iter().map(|p| (p.id, p.front, p.is_leech)).collect();
    assert_eq!(
        listed,
        vec![
            (2, "b".to_string(), true),
            (4, "d".to_string(), false),
            (3, "c".to_string(), false),
            (1, "a".to_string(), false),
        ]
    );
}

#[test]
fn due_cards_are_grouped_by_deck_and_shuffled() {
    let (mut srs, spanish) = store_with_deck("Spanish");
    srs.create_deck("Empty", 0).unwrap();
    srs.create_deck("French", 0).unwrap();
    let french = srs.decks()[2].id;
    for n in 0..20 {
        let deck = if n % 2 == 0 { spanish } else { french };
        srs.create_card(deck, format!("card {n}"), String::new(), 0).unwrap();
    }
    srs.apply_answer(1, true, 0, 3).unwrap();
    let mut rng = Rng::with_seed(12345);
    let groups = srs.cards_to_review(0, &mut rng);
    assert_eq!(groups.len(), 2);
    assert_eq!(groups[0].0, "Spanish");
    assert_eq!(groups[1].0, "French");
    let spanish_ids: Vec<u64> = groups[0].1.iter().map(|c| c.id).collect();
    let french_ids: Vec<u64> = groups[1].1.iter().map(|c| c.id).collect();
    let mut sorted = spanish_ids.clone();
    sorted.sort();
    assert_eq!(sorted, vec![3, 5, 7, 9, 11, 13, 15, 17, 19]);
    assert_ne!(spanish_ids, sorted);
    let mut sorted = french_ids.clone();
    sorted.sort();
    assert_eq!(sorted, vec![2, 4, 6, 8, 10, 12, 14, 16, 18, 20]);
    let unshuffled: Vec<u64> = srs.due_cards_in(french, 0).iter().map(|c| c.id).collect();
    assert_eq!(unshuffled, sorted);
}

#[test]
fn due_day_follows_the_stores_time_zone() {
    let mut east = Srs::new(3600);
    east.create_deck("d", 0).unwrap();
    east.create_card(1, "c".to_string(), String::new(), 0).unwrap();
    east.apply_answer(1, true, 0, 1).unwrap();
    assert_eq!(east.cards[0].scheduled_for, Some(DAY));
    // 22:59:59 UTC is the last second of the first local day.
    assert!(due_ids(&east, 23 * 3_600_000 - 1).is_empty());
    assert_eq!(due_ids(&east, 23 * 3_600_000), vec![vec![1]]);
}

#[test]
fn stats_count_cards_and_recent_answers() {
    let now = 100 * DAY;
    let (mut srs, spanish) = store_with_deck("Spanish");
    srs.create_deck("French", 0).unwrap();
    let french = srs.decks()[1].id;
    for n in 0..6u64 {
        let deck = if n < 4 { spanish } else { french };
        srs.create_card(deck, format!("card {n}"), String::new(), now).unwrap();
    }
    srs.apply_answer(1, true, now, 1).unwrap();
    srs.apply_answer(2, true, now, 2).unwrap();
    srs.apply_answer(3, true, now, 400).unwrap();
    for _ in 0..4 {
        srs.apply_answer(4, false, now, 1).unwrap();
    }
    srs.apply_answer(5, true, 10 * DAY, 30).unwrap();
    srs.apply_answer(5, false, 70 * DAY, 30).unwrap();
    srs.apply_answer(5, true, 70 * DAY + 1, 30).unwrap();

    let (global, decks) = srs.stats(now);
    assert_eq!(global, GlobalStats { active: 4, suspended: 1, leech: 1, for_review: 3 });
    assert_eq!(decks.len(), 2);
    assert_eq!(decks[0].name, "Spanish");
    assert_eq!(
        (decks[0].active, decks[0].suspended, decks[0].leech, decks[0].for_review),
        (2, 1, 1, 1)
    );
    assert_eq!((decks[0].correct, decks[0].wrong), (3, 4));
    assert_eq!(decks[1].name, "French");
    assert_eq!(
        (decks[1].active, decks[1].suspended, decks[1].leech, decks[1].for_review),
        (2, 0, 0, 2)
    );
    assert_eq!((decks[1].correct, decks[1].wrong), (1, 0));
}

#[test]
fn reading_twice_reads_the_same() {
    let (mut srs, deck_id) = store_with_deck("Spanish");
    for n in 0..5 {
        srs.create_card(deck_id, format!("card {n}"), format!("back {n}"), n).unwrap();
    }
    srs.apply_answer(2, false, 9, 3).unwrap();
    let first = (
        format!("{:?}", srs.decks()),
        format!("{:?}", srs.card_previews()),
        format!("{:?}", srs.stats(50)),
        format!("{:?}", srs.get_card(3)),
        format!("{:?}", srs.due_cards_in(deck_id, 50)),
        format!("{:?}", srs.cards_to_review(50, &mut Rng::with_seed(5))),
    );
    let second = (
        format!("{:?}", srs.decks()),
        format!("{:?}", srs.card_previews()),
        format!("{:?}", srs.stats(50)),
        format!("{:?}", srs.get_card(3)),
        format!("{:?}", srs.due_cards_in(deck_id, 50)),
        format!("{:?}", srs.cards_to_review(50, &mut Rng::with_seed(5))),
    );
    assert_eq!(first, second);
}

#[test]
fn count_cards_counts_by_kind_and_deck() {
    let (mut srs, deck_id) = store_with_deck("Spanish");
    for n in 0..3 {
        srs.create_card(deck_id, format!("card {n}"), String::new(), 0).unwrap();
    }
    srs.apply_answer(1, true, 0, 500).unwrap();
    assert_eq!(srs.count_cards(None, Tally::Active, 0), 2);
    assert_eq!(srs.count_cards(Some(deck_id), Tally::Suspended, 0), 1);
    assert_eq!(srs.count_cards(Some(deck_id + 1), Tally::Active, 0), 0);
    assert_eq!(srs.count_cards(None, Tally::Leech, 0), 0);
    assert_eq!(srs.count_cards(None, Tally::ForReview, 0), 0);
    assert_eq!(srs.count_cards(None, Tally::ForReview, 1), 2);
    assert_eq!(srs.count_answers(deck_id, true, -1), 1);
    assert_eq!(srs.count_answers(deck_id, true, 0), 0);
    assert_eq!(srs.count_answers(deck_id, false, -1), 0);
}

#[test]
fn helpers_hold_and_filter() {
    assert_eq!(hold_u16(65_535), 65_535);
    assert_eq!(hold_u16(65_536), 65_535);
    assert_eq!(hold_u16(7), 7);
    assert_eq!(hold_u32(7), 7);
    assert_eq!(hold_u32(usize::MAX), u32::MAX);
    assert_eq!(due_instant_of(5, 2), 5 + 2 * DAY);
    assert_eq!(due_instant_of(u64::MAX - 10, 1), u64::MAX);
    assert_eq!(due_instant_of(9, 0), 9);

    let (mut srs, deck_id) = store_with_deck("Spanish");
    srs.create_deck("French", 0).unwrap();
    srs.create_card(deck_id, "a".to_string(), String::new(), 0).unwrap();
    srs.create_card(2, "b".to_string(), String::new(), 0).unwrap();
    assert!(holds_card(&srs.cards, 2));
    assert!(!holds_card(&srs.cards, 3));
    let kept = cards_not_in(&srs.cards, deck_id);
    assert_eq!(kept.len(), 1);
    assert_eq!(kept[0].id, 2);
    let answers = vec![
        AnswerRow { card_id: 1, is_correct: true, timestamp: 0 },
        AnswerRow { card_id: 2, is_correct: true, timestamp: 1 },
    ];
    assert_eq!(answers_to(&answers, &kept), vec![answers[1]]);
}

#[test]
fn soundness_of_rows_is_checked() {
    let (mut srs, deck_id) = store_with_deck("Spanish");
    srs.create_card(deck_id, "a".to_string(), String::new(), 0).unwrap();
    srs.create_card(deck_id, "b".to_string(), String::new(), 0).unwrap();
    srs.apply_answer(1, true, 0, 1).unwrap();
    assert!(srs.is_sound());

    srs.cards[1].id = 1;
    assert!(!srs.cards_are_sound());
    assert!(!srs.is_sound());
    srs.cards[1].id = 2;

    srs.cards[0].deck_id = 9;
    assert!(!srs.is_sound());
    srs.cards[0].deck_id = deck_id;

    srs.cards[0].is_leech = true;
    assert!(!srs.is_sound());
    srs.cards[0].is_leech = false;

    srs.cards[0].interval_days = None;
    assert!(!srs.is_sound());
    srs.cards[0].interval_days = Some(1);

    srs.cards[0].front = String::new();
    assert!(!srs.is_sound());
    srs.cards[0].front = "a".to_string();

    srs.next_card_id = 2;
    assert!(!srs.is_sound());
    srs.next_card_id = 3;

    srs.decks[0].interval_modifier = 49;
    assert!(!srs.decks_are_sound());
    srs.decks[0].interval_modifier = 50;

    srs.decks[0].name = String::new();
    assert!(!srs.is_sound());
    srs.decks[0].name = "Spanish".to_string();

    srs.answers[0].card_id = 7;
    assert!(!srs.answers_are_sound());
    assert!(!srs.is_sound());
    srs.answers[0].card_id = 1;
    assert!(srs.is_sound());
}
