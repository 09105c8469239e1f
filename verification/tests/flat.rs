use srs_cli::error::{Error, ErrorKind};
use srs_cli::flat::{
    apply_answer, apply_in_turn, count_answer, count_correct, due_day_of, find_place,
    find_separator, make_record, review_order, sort_answers,
};
use srs_cli::rand::Rng;
use srs_cli::schedule::LowKeyAnki;
use srs_cli::{
    add_card, apply_answers, card, card_front, cards_to_review, delete_card, edit_card, Answer,
    CardSchedule, Srs, Stat,
};

fn store_with(cards: &[(&str, &str)], today: u16) -> Srs {
    let mut srs = Srs::new();
    for (front, back) in cards {
        srs = add_card(srs, today, front.to_string(), back.to_string()).unwrap();
    }
    srs
}

#[test]
fn new_store_is_empty_with_a_full_histogram() {
    let srs = Srs::new();
    assert!(srs.cards.is_empty());
    assert!(srs.schedule.is_empty());
    assert_eq!(srs.stats.len(), 365);
    assert!(srs.stats.iter().all(|s| *s == Stat { correct: 0, wrong: 0 }));
    let by_default = Srs::default();
    assert_eq!(by_default.stats.len(), 365);
    assert_eq!(Stat::default(), Stat { correct: 0, wrong: 0 });
}

#[test]
fn added_card_is_unreviewed_and_due_at_once() {
    let srs = store_with(&[("hola", "hello")], 20_000);
    assert_eq!(srs.cards, vec![b"hola\0hello".to_vec()]);
    assert_eq!(
        srs.schedule,
        vec![CardSchedule { most_recent_interval: 0, scheduled_for: 20_000 }]
    );
    assert_eq!(cards_to_review(&srs, 20_000), vec![0]);
    assert_eq!(cards_to_review(&srs, 19_999), Vec::<u16>::new());
}

#[test]
fn add_card_rejects_an_empty_front() {
    let added = add_card(Srs::new(), 1, String::new(), "back".to_string());
    assert_eq!(added.err(), Some(Error::EmptyFront));
}

#[test]
fn add_card_rejects_a_record_that_is_too_long() {
    let just_fits = add_card(Srs::new(), 1, "f".repeat(4000), "b".repeat(95));
    assert_eq!(just_fits.unwrap().cards[0].len(), 4096);
    let too_long = add_card(Srs::new(), 1, "f".repeat(4000), "b".repeat(96));
    assert_eq!(too_long.err(), Some(Error::CardTooLong));
}

#[test]
fn add_card_rejects_a_full_store() {
    let mut srs = Srs::new();
    srs.cards = vec![b"a\0b".to_vec(); 65_535];
    srs.schedule = vec![CardSchedule { most_recent_interval: 1, scheduled_for: 2 }; 65_535];
    let added = add_card(srs, 1, "front".to_string(), "back".to_string());
    assert_eq!(added.err(), Some(Error::TooManyCards));
}

#[test]
fn edit_card_replaces_the_text_and_keeps_the_schedule() {
    let srs = store_with(&[("uno", "one"), ("dos", "two")], 7);
    let srs = edit_card(srs, 1, "dos".to_string(), "2".to_string()).unwrap();
    assert_eq!(srs.cards, vec![b"uno\0one".to_vec(), b"dos\x002".to_vec()]);
    assert_eq!(srs.schedule[1], CardSchedule { most_recent_interval: 0, scheduled_for: 7 });
}

#[test]
fn edit_card_reports_what_is_wrong() {
    let srs = store_with(&[("uno", "one")], 7);
    assert_eq!(
        edit_card(srs, 0, String::new(), "x".to_string()).err(),
        Some(Error::EmptyFront)
    );
    let srs = store_with(&[("uno", "one")], 7);
    assert_eq!(
        edit_card(srs, 0, "f".repeat(5000), String::new()).err(),
        Some(Error::CardTooLong)
    );
    let srs = store_with(&[("uno", "one")], 7);
    assert_eq!(
        edit_card(srs, 1, "dos".to_string(), "two".to_string()).err(),
        Some(Error::UnknownCard)
    );
}

#[test]
fn delete_card_moves_the_later_cards_up() {
    let srs = store_with(&[("uno", "one"), ("dos", "two"), ("tres", "three")], 7);
    let srs = delete_card(srs, 1).unwrap();
    assert_eq!(srs.cards, vec![b"uno\0one".to_vec(), b"tres\0three".to_vec()]);
    assert_eq!(srs.schedule.len(), 2);
    assert_eq!(delete_card(srs, 2).err(), Some(Error::UnknownCard));
}

#[test]
fn card_front_reads_up_to_the_separator() {
    assert_eq!(card_front(b"hola\0hello"), Ok("hola"));
    assert_eq!(card_front(b"\0hello"), Ok(""));
    assert_eq!(card_front(b"a\0b\0c"), Ok("a"));
    assert_eq!(card_front("ma\u{f1}ana\0tomorrow".as_bytes()), Ok("ma\u{f1}ana"));
    assert_eq!(card_front(b"hola"), Err(Error::MissingSeparator));
    assert_eq!(card_front(b""), Err(Error::MissingSeparator));
    assert_eq!(card_front(b"\xff\0hello"), Err(Error::InvalidText));
}

#[test]
fn find_separator_finds_the_first_one() {
    assert_eq!(find_separator(b"abc\0de\0"), Some(3));
    assert_eq!(find_separator(b"\0"), Some(0));
    assert_eq!(find_separator(b"abc"), None);
}

#[test]
fn make_record_joins_front_and_back() {
    assert_eq!(make_record("hola", "hello"), b"hola\0hello".to_vec());
    assert_eq!(make_record("", ""), vec![0u8]);
}

#[test]
fn card_parts_the_record_without_the_separator() {
    let srs = store_with(&[("hola", "hello")], 7);
    let found = card(&srs, 0).unwrap();
    assert_eq!(found.front, "hola");
    assert_eq!(found.back, "hello");
    assert_eq!(card(&srs, 1).err(), Some(Error::UnknownCard));
}

#[test]
fn card_reports_broken_records() {
    let mut srs = Srs::new();
    srs.cards = vec![b"no separator".to_vec(), b"front\0\xc3".to_vec(), b"\xc3\0back".to_vec()];
    srs.schedule = vec![CardSchedule { most_recent_interval: 0, scheduled_for: 0 }; 3];
    assert_eq!(card(&srs, 0).err(), Some(Error::MissingSeparator));
    assert_eq!(card(&srs, 1).err(), Some(Error::InvalidText));
    assert_eq!(card(&srs, 2).err(), Some(Error::InvalidText));
}

#[test]
fn cards_to_review_lists_due_cards_in_store_order() {
    let mut srs = store_with(&[("a", "1"), ("b", "2"), ("c", "3"), ("d", "4")], 10);
    srs.schedule[0].scheduled_for = 11;
    srs.schedule[1].scheduled_for = 10;
    srs.schedule[2].scheduled_for = 0;
    srs.schedule[3].scheduled_for = 12;
    assert_eq!(cards_to_review(&srs, 10), vec![1, 2]);
    assert_eq!(cards_to_review(&srs, 11), vec![0, 1, 2]);
    assert_eq!(cards_to_review(&srs, 65_535), vec![0, 1, 2, 3]);
}

#[test]
fn schedule_entry_tells_due_and_last_answer() {
    let entry = CardSchedule { most_recent_interval: 4, scheduled_for: 100 };
    assert!(entry.last_was_correct());
    assert!(entry.is_due(100));
    assert!(!entry.is_due(99));
    let wrong = CardSchedule { most_recent_interval: 4, scheduled_for: 0 };
    assert!(!wrong.last_was_correct());
    assert!(wrong.is_due(0));
}

#[test]
fn due_day_is_held_at_the_last_day() {
    assert_eq!(due_day_of(20_000, 4), 20_004);
    assert_eq!(due_day_of(65_000, 535), 65_535);
    assert_eq!(due_day_of(65_000, 536), 65_535);
    assert_eq!(due_day_of(0, 0), 0);
}

#[test]
fn count_answer_counts_and_starts_over_when_full() {
    assert_eq!(count_answer(Stat { correct: 3, wrong: 1 }, true), Stat { correct: 4, wrong: 1 });
    assert_eq!(count_answer(Stat { correct: 3, wrong: 1 }, false), Stat { correct: 3, wrong: 2 });
    assert_eq!(count_answer(Stat { correct: 255, wrong: 9 }, true), Stat { correct: 1, wrong: 0 });
    assert_eq!(count_answer(Stat { correct: 9, wrong: 255 }, true), Stat { correct: 1, wrong: 0 });
    assert_eq!(count_answer(Stat { correct: 255, wrong: 9 }, false), Stat { correct: 0, wrong: 1 });
    assert_eq!(
        count_answer(Stat { correct: 254, wrong: 0 }, true),
        Stat { correct: 255, wrong: 0 }
    );
}

#[test]
fn correct_answer_reschedules_and_is_counted_under_the_new_interval() {
    let mut srs = store_with(&[("a", "1")], 100);
    apply_answer(&mut srs, Answer { card_index: 0, is_correct: true }, 100, 1);
    assert_eq!(srs.schedule[0], CardSchedule { most_recent_interval: 1, scheduled_for: 101 });
    assert_eq!(srs.stats[1], Stat { correct: 1, wrong: 0 });
    apply_answer(&mut srs, Answer { card_index: 0, is_correct: true }, 101, 400);
    assert_eq!(srs.schedule[0], CardSchedule { most_recent_interval: 400, scheduled_for: 501 });
    assert_eq!(srs.stats[364], Stat { correct: 1, wrong: 0 });
}

#[test]
fn wrong_answer_keeps_the_interval_and_is_due_at_once() {
    let mut srs = store_with(&[("a", "1")], 100);
    srs.schedule[0] = CardSchedule { most_recent_interval: 10, scheduled_for: 100 };
    apply_answer(&mut srs, Answer { card_index: 0, is_correct: false }, 100, 25);
    assert_eq!(srs.schedule[0], CardSchedule { most_recent_interval: 10, scheduled_for: 0 });
    assert_eq!(srs.stats[10], Stat { correct: 0, wrong: 1 });
    assert!(!srs.schedule[0].last_was_correct());
    assert_eq!(cards_to_review(&srs, 100), vec![0]);
}

#[test]
fn apply_answers_follows_the_schedule() {
    let mut srs = store_with(&[("a", "1"), ("b", "2"), ("c", "3")], 100);
    srs.schedule[1] = CardSchedule { most_recent_interval: 1, scheduled_for: 100 };
    srs.schedule[2] = CardSchedule { most_recent_interval: 50, scheduled_for: 0 };
    let mut answers = vec![
        Answer { card_index: 0, is_correct: true },
        Answer { card_index: 1, is_correct: true },
        Answer { card_index: 2, is_correct: true },
    ];
    let mut schedule = LowKeyAnki::with_seed(0);
    let srs = apply_answers(srs, 100, &mut answers, &mut schedule).unwrap();
    assert_eq!(srs.schedule[0], CardSchedule { most_recent_interval: 1, scheduled_for: 101 });
    assert_eq!(srs.schedule[1], CardSchedule { most_recent_interval: 4, scheduled_for: 104 });
    assert_eq!(srs.schedule[2], CardSchedule { most_recent_interval: 35, scheduled_for: 135 });
    assert_eq!(srs.stats[1].correct, 1);
    assert_eq!(srs.stats[4].correct, 1);
    assert_eq!(srs.stats[35].correct, 1);
}

#[test]
fn apply_answers_draws_fuzz_for_established_cards() {
    let mut srs = store_with(&[("a", "1")], 100);
    srs.schedule[0] = CardSchedule { most_recent_interval: 50, scheduled_for: 100 };
    let mut answers = vec![Answer { card_index: 0, is_correct: true }];
    let mut schedule = LowKeyAnki::with_seed(0);
    let srs = apply_answers(srs, 100, &mut answers, &mut schedule).unwrap();
    assert_eq!(srs.schedule[0], CardSchedule { most_recent_interval: 124, scheduled_for: 224 });
}

#[test]
fn apply_answers_applies_repeated_answers_in_turn() {
    let srs = store_with(&[("a", "1")], 100);
    let mut answers = vec![
        Answer { card_index: 0, is_correct: false },
        Answer { card_index: 0, is_correct: true },
    ];
    let mut schedule = LowKeyAnki::with_seed(0);
    let srs = apply_answers(srs, 100, &mut answers, &mut schedule).unwrap();
    assert_eq!(srs.schedule[0], CardSchedule { most_recent_interval: 1, scheduled_for: 101 });
    assert_eq!(srs.stats[0], Stat { correct: 0, wrong: 1 });
    assert_eq!(srs.stats[1], Stat { correct: 1, wrong: 0 });
}

#[test]
fn apply_answers_refuses_an_unknown_card() {
    let srs = store_with(&[("a", "1")], 100);
    let mut answers = vec![
        Answer { card_index: 0, is_correct: true },
        Answer { card_index: 1, is_correct: true },
    ];
    let mut schedule = LowKeyAnki::with_seed(0);
    let applied = apply_answers(srs, 100, &mut answers, &mut schedule);
    assert_eq!(applied.err(), Some(Error::UnknownCard));
}

#[test]
fn errors_fall_into_kinds() {
    assert_eq!(Error::EmptyDeckName.kind(), ErrorKind::Validation);
    assert_eq!(Error::EmptyFront.kind(), ErrorKind::Validation);
    assert_eq!(Error::IntervalModifierTooSmall.kind(), ErrorKind::Validation);
    assert_eq!(Error::CardTooLong.kind(), ErrorKind::Validation);
    assert_eq!(Error::TooManyCards.kind(), ErrorKind::Validation);
    assert_eq!(Error::UnknownCard.kind(), ErrorKind::NotFound);
    assert_eq!(Error::UnknownDeck.kind(), ErrorKind::NotFound);
    assert_eq!(Error::NotScheduled.kind(), ErrorKind::InvariantViolation);
    assert_eq!(Error::MissingAnswerHistory.kind(), ErrorKind::InvariantViolation);
    assert_eq!(Error::MissingSeparator.kind(), ErrorKind::InvariantViolation);
    assert_eq!(Error::InvalidText.kind(), ErrorKind::InvariantViolation);
    assert_eq!(Error::MalformedFile.kind(), ErrorKind::InvariantViolation);
    assert_eq!(Error::IdsExhausted.kind(), ErrorKind::InvariantViolation);
}

#[test]
fn errors_have_messages() {
    assert_eq!(Error::EmptyDeckName.message(), "deck name can't be empty");
    assert_eq!(Error::CardTooLong.message(), "this card is too long");
    assert_eq!(Error::TooManyCards.message(), "reached card count limit");
    assert!(!Error::UnknownCard.message().is_empty());
}

#[test]
fn answers_are_put_in_card_order_and_keep_their_turn() {
    let mut answers = vec![
        Answer { card_index: 3, is_correct: true },
        Answer { card_index: 1, is_correct: false },
        Answer { card_index: 3, is_correct: false },
        Answer { card_index: 0, is_correct: true },
        Answer { card_index: 1, is_correct: true },
    ];
    sort_answers(&mut answers);
    assert_eq!(
        answers,
        vec![
            Answer { card_index: 0, is_correct: true },
            Answer { card_index: 1, is_correct: false },
            Answer { card_index: 1, is_correct: true },
            Answer { card_index: 3, is_correct: true },
            Answer { card_index: 3, is_correct: false },
        ]
    );
    let mut none: Vec<Answer> = vec![];
    sort_answers(&mut none);
    assert!(none.is_empty());
}

#[test]
fn find_place_lies_behind_answers_to_the_same_card() {
    let answers = vec![
        Answer { card_index: 1, is_correct: true },
        Answer { card_index: 4, is_correct: true },
        Answer { card_index: 4, is_correct: false },
        Answer { card_index: 9, is_correct: true },
    ];
    assert_eq!(find_place(&answers, 0), 0);
    assert_eq!(find_place(&answers, 1), 1);
    assert_eq!(find_place(&answers, 4), 3);
    assert_eq!(find_place(&answers, 5), 3);
    assert_eq!(find_place(&answers, 9), 4);
}

#[test]
fn apply_answers_sorts_the_answers_first() {
    let mut srs = store_with(&[("a", "1"), ("b", "2")], 100);
    srs.schedule[0] = CardSchedule { most_recent_interval: 50, scheduled_for: 100 };
    srs.schedule[1] = CardSchedule { most_recent_interval: 50, scheduled_for: 100 };
    let mut answers = vec![
        Answer { card_index: 1, is_correct: true },
        Answer { card_index: 0, is_correct: false },
    ];
    let mut schedule = LowKeyAnki::with_seed(0);
    let srs = apply_answers(srs, 100, &mut answers, &mut schedule).unwrap();
    assert_eq!(answers[0].card_index, 0);
    assert_eq!(answers[1].card_index, 1);
    assert_eq!(srs.schedule[0], CardSchedule { most_recent_interval: 50, scheduled_for: 0 });
    assert_eq!(srs.schedule[1], CardSchedule { most_recent_interval: 124, scheduled_for: 224 });
}

#[test]
fn apply_in_turn_keeps_the_order_given() {
    let srs = store_with(&[("a", "1")], 100);
    let answers = vec![
        Answer { card_index: 0, is_correct: true },
        Answer { card_index: 0, is_correct: false },
    ];
    let mut schedule = LowKeyAnki::with_seed(0);
    let srs = apply_in_turn(srs, 100, &answers, &mut schedule).unwrap();
    assert_eq!(srs.schedule[0], CardSchedule { most_recent_interval: 1, scheduled_for: 0 });
    assert_eq!(srs.stats[1], Stat { correct: 1, wrong: 1 });
}

#[test]
fn review_order_is_the_due_cards_shuffled() {
    let cards: Vec<(String, String)> =
        (0..30).map(|n| (format!("front {n}"), format!("back {n}"))).collect();
    let cards: Vec<(&str, &str)> = cards.iter().map(|(f, b)| (f.as_str(), b.as_str())).collect();
    let mut srs = store_with(&cards, 10);
    srs.schedule[7].scheduled_for = 11;
    let mut rng = Rng::with_seed(99);
    let order = review_order(&srs, 10, &mut rng);
    let mut sorted = order.clone();
    sorted.sort();
    let expected: Vec<u16> = (0..30).filter(|i| *i != 7).collect();
    assert_eq!(sorted, expected);
    assert_ne!(order, expected);
    let mut again = Rng::with_seed(99);
    assert_eq!(review_order(&srs, 10, &mut again), order);
}

#[test]
fn count_correct_counts_the_correct_answers() {
    let answers = vec![
        Answer { card_index: 3, is_correct: true },
        Answer { card_index: 1, is_correct: false },
        Answer { card_index: 2, is_correct: true },
    ];
    assert_eq!(count_correct(&answers), 2);
    assert_eq!(count_correct(&vec![]), 0);
}

#[test]
fn soundness_is_checked() {
    let mut srs = store_with(&[("a", "1")], 100);
    assert!(srs.is_sound());
    srs.schedule.pop();
    assert!(!srs.is_sound());
    let mut srs = Srs::new();
    srs.stats.pop();
    assert!(!srs.is_sound());
    let mut srs = Srs::new();
    srs.cards = vec![vec![0u8; 65_536]];
    srs.schedule = vec![CardSchedule { most_recent_interval: 0, scheduled_for: 0 }];
    assert!(!srs.is_sound());
    srs.cards = vec![vec![0u8; 65_535]];
    assert!(srs.is_sound());
}
