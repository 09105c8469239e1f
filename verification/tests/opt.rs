use srs_cli::opt::{
    contains, find, same_text, subcommand, value, value_as_u16, value_as_u64, ArgError, Key, Opt,
    Subcommand,
};

fn args(words: &[&str]) -> Vec<String> {
    words.iter().map(|w| w.to_string()).collect()
}

#[test]
fn subcommand_comes_first() {
    let opt = Opt::parse(&args(&["list"])).unwrap();
    assert!(matches!(opt.subcommand, Subcommand::List));
    assert_eq!(opt.path, "srs.db");
    assert!(!opt.database);
    assert_eq!(Opt::parse(&args(&[])).err(), Some(ArgError::MissingSubcommand));
    assert_eq!(Opt::parse(&args(&["-p", "x", "list"])).err(), Some(ArgError::MissingSubcommand));
    assert_eq!(Opt::parse(&args(&["--db"])).err(), Some(ArgError::MissingSubcommand));
    assert_eq!(Opt::parse(&args(&["frobnicate"])).err(), Some(ArgError::UnknownSubcommand));
    assert_eq!(Opt::parse(&args(&[""])).err(), Some(ArgError::UnknownSubcommand));
}

#[test]
fn path_is_taken_from_either_option() {
    assert_eq!(Opt::parse(&args(&["list", "-p", "a.db"])).unwrap().path, "a.db");
    assert_eq!(Opt::parse(&args(&["list", "--path", "b.db"])).unwrap().path, "b.db");
    assert_eq!(
        Opt::parse(&args(&["list", "--path", "b.db", "-p", "a.db"])).unwrap().path,
        "a.db"
    );
    assert_eq!(Opt::parse(&args(&["list", "-p"])).unwrap().path, "srs.db");
}

#[test]
fn every_subcommand_is_known() {
    let parse = |words: &[&str]| Opt::parse(&args(words)).unwrap().subcommand;
    assert!(matches!(parse(&["add"]), Subcommand::Add { deck_id: None }));
    assert!(matches!(
        parse(&["add", "--db", "--deck-id", "3"]),
        Subcommand::Add { deck_id: Some(3) }
    ));
    assert!(matches!(parse(&["delete", "--card-id", "12"]), Subcommand::Delete { card_id: 12 }));
    assert!(matches!(parse(&["edit", "--card-id", "0"]), Subcommand::Edit { card_id: 0 }));
    assert!(matches!(parse(&["review"]), Subcommand::Review));
    assert!(matches!(parse(&["stats"]), Subcommand::Stats));
    assert!(matches!(parse(&["init"]), Subcommand::Init));
    assert!(matches!(parse(&["decks"]), Subcommand::Decks));
    assert!(matches!(
        parse(&["delete-deck", "--deck-id", "7"]),
        Subcommand::DeleteDeck { deck_id: 7 }
    ));
    assert!(matches!(
        parse(&["int-mod", "--modifier", "150", "--deck-id", "2"]),
        Subcommand::IntMod { deck_id: 2, modifier: 150 }
    ));
    assert!(matches!(
        parse(&["switch", "--card-id", "5", "--deck-id", "6"]),
        Subcommand::Switch { card_id: 5, deck_id: 6 }
    ));
    match parse(&["create-deck", "--name", "Spanish"]) {
        Subcommand::CreateDeck { name } => assert_eq!(name, "Spanish"),
        other => panic!("{other:?}"),
    }
}

#[test]
fn options_that_are_needed_must_be_there() {
    let error = |words: &[&str]| Opt::parse(&args(words)).err();
    assert_eq!(error(&["delete"]), Some(ArgError::MissingOption(Key::CardId)));
    assert_eq!(error(&["delete", "--card-id"]), Some(ArgError::MissingOption(Key::CardId)));
    assert_eq!(error(&["delete", "--card-id", "x"]), Some(ArgError::InvalidValue(Key::CardId)));
    assert_eq!(error(&["delete", "--card-id", "-1"]), Some(ArgError::InvalidValue(Key::CardId)));
    assert_eq!(error(&["add", "--db"]), Some(ArgError::MissingOption(Key::DeckId)));
    assert_eq!(error(&["create-deck"]), Some(ArgError::MissingOption(Key::Name)));
    assert_eq!(
        error(&["int-mod", "--deck-id", "1"]),
        Some(ArgError::MissingOption(Key::Modifier))
    );
    assert_eq!(
        error(&["int-mod", "--deck-id", "1", "--modifier", "65536"]),
        Some(ArgError::InvalidValue(Key::Modifier))
    );
    assert_eq!(
        error(&["int-mod", "--modifier", "50"]),
        Some(ArgError::MissingOption(Key::DeckId))
    );
    assert_eq!(
        error(&["switch", "--card-id", "1"]),
        Some(ArgError::MissingOption(Key::DeckId))
    );
}

#[test]
fn helpers_find_flags_and_values() {
    let line = args(&["review", "--db", "-p", "x", "--db"]);
    assert_eq!(find(&line, "--db"), 1);
    assert_eq!(find(&line, "-p"), 2);
    assert_eq!(find(&line, "--nope"), 5);
    assert!(contains(&line, "--db"));
    assert!(!contains(&line, "--d"));
    assert_eq!(value(&line, "-p"), Some(&"x".to_string()));
    assert_eq!(value(&line, "--db"), Some(&"-p".to_string()));
    assert_eq!(value(&line, "x"), Some(&"--db".to_string()));
    assert_eq!(value(&line, "--nope"), None);
    assert!(same_text("a", "a"));
    assert!(!same_text("a", "b"));
    assert!(subcommand(&line, true).is_ok());
}

#[test]
fn numbers_are_read_in_decimal() {
    let line = args(&[
        "--card-id",
        "18446744073709551615",
        "--modifier",
        "65535",
        "--deck-id",
        "+7",
    ]);
    assert_eq!(value_as_u64(&line, Key::CardId), Ok(u64::MAX));
    assert_eq!(value_as_u16(&line, Key::Modifier), Ok(65_535));
    assert_eq!(value_as_u64(&line, Key::DeckId), Ok(7));
    assert_eq!(value_as_u16(&line, Key::CardId), Err(ArgError::InvalidValue(Key::CardId)));
    let line = args(&["--card-id", "18446744073709551616"]);
    assert_eq!(value_as_u64(&line, Key::CardId), Err(ArgError::InvalidValue(Key::CardId)));
    assert_eq!(Key::Name.text(), "--name");
}
