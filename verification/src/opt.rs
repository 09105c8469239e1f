//! The program's command line: which subcommand to run, on which store.

use vstd::prelude::*;
use vstd::string::StrSliceExecFns;

verus! {

/// The path of the store where none is given.
pub open spec fn default_path() -> Seq<char> {
    "srs.db"@
}

/// The options that take a value.
#[derive(Clone, Copy, Debug, PartialEq, Eq, Structural)]
pub enum Key {
    /// `--card-id`
    CardId,
    /// `--deck-id`
    DeckId,
    /// `--name`
    Name,
    /// `--modifier`
    Modifier,
}

impl Key {
    /// The option as it is written on the command line.
    pub open spec fn spec_text(self) -> Seq<char> {
        match self {
            Key::CardId => "--card-id"@,
            Key::DeckId => "--deck-id"@,
            Key::Name => "--name"@,
            Key::Modifier => "--modifier"@,
        }
    }

    /// The option as it is written on the command line.
    pub fn text(self) -> (text: &'static str)
        ensures
            text@ == self.spec_text(),
    {
        match self {
            Key::CardId => "--card-id",
            Key::DeckId => "--deck-id",
            Key::Name => "--name",
            Key::Modifier => "--modifier",
        }
    }
}

/// Why a command line was refused.
#[derive(Clone, Copy, Debug, PartialEq, Eq, Structural)]
pub enum ArgError {
    /// The first argument is missing or is an option.
    MissingSubcommand,
    /// The first argument is no subcommand.
    UnknownSubcommand,
    /// The subcommand needs this option, and it is not there or has no value.
    MissingOption(Key),
    /// The value of this option is no number, or too large a one.
    InvalidValue(Key),
}

/// The subcommand to run.
#[derive(Debug)]
pub enum Subcommand {
    /// Create a new card; in a database, in the deck with this id.
    Add { deck_id: Option<u64> },
    /// List all cards.
    List,
    /// Delete the card with the given id.
    Delete { card_id: u64 },
    /// Edit the contents of the card with the given id.
    Edit { card_id: u64 },
    /// Review cards that are scheduled for review.
    Review,
    /// Output statistics of reviews.
    Stats,
    /// Create the store.
    Init,
    /// Create a deck.
    CreateDeck { name: String },
    /// List all decks.
    Decks,
    /// Delete the deck with the given id and its cards.
    DeleteDeck { deck_id: u64 },
    /// Set the interval modifier of a deck.
    IntMod { deck_id: u64, modifier: u16 },
    /// Move a card to another deck.
    Switch { card_id: u64, deck_id: u64 },
}

/// A parsed representation of command line arguments.
#[derive(Debug)]
pub struct Opt {
    /// The [`Subcommand`] to run.
    pub subcommand: Subcommand,
    /// The path of the store. Defaults to `srs.db`.
    pub path: String,
    /// Whether the store is a database with decks.
    pub database: bool,
}

/// A subcommand, with its texts as sequences of characters.
pub enum SubcommandModel {
    Add { deck_id: Option<u64> },
    List,
    Delete { card_id: u64 },
    Edit { card_id: u64 },
    Review,
    Stats,
    Init,
    CreateDeck { name: Seq<char> },
    Decks,
    DeleteDeck { deck_id: u64 },
    IntMod { deck_id: u64, modifier: u16 },
    Switch { card_id: u64, deck_id: u64 },
}

/// A command line, with its texts as sequences of characters.
pub struct OptModel {
    pub subcommand: SubcommandModel,
    pub path: Seq<char>,
    pub database: bool,
}

impl View for Subcommand {
    type V = SubcommandModel;

    open spec fn view(&self) -> SubcommandModel {
        match *self {
            Subcommand::Add { deck_id } => SubcommandModel::Add { deck_id },
            Subcommand::List => SubcommandModel::List,
            Subcommand::Delete { card_id } => SubcommandModel::Delete { card_id },
            Subcommand::Edit { card_id } => SubcommandModel::Edit { card_id },
            Subcommand::Review => SubcommandModel::Review,
            Subcommand::Stats => SubcommandModel::Stats,
            Subcommand::Init => SubcommandModel::Init,
            Subcommand::CreateDeck { name } => SubcommandModel::CreateDeck { name: name@ },
            Subcommand::Decks => SubcommandModel::Decks,
            Subcommand::DeleteDeck { deck_id } => SubcommandModel::DeleteDeck { deck_id },
            Subcommand::IntMod { deck_id, modifier } => SubcommandModel::IntMod {
                deck_id,
                modifier,
            },
            Subcommand::Switch { card_id, deck_id } => SubcommandModel::Switch {
                card_id,
                deck_id,
            },
        }
    }
}

impl View for Opt {
    type V = OptModel;

    open spec fn view(&self) -> OptModel {
        OptModel { subcommand: self.subcommand@, path: self.path@, database: self.database }
    }
}

/// The arguments that a vector of strings holds.
pub open spec fn texts(args: Seq<String>) -> Seq<Seq<char>> {
    Seq::new(args.len(), |i: int| args[i]@)
}

/// The first place at which `key` stands among `args`, or their number
/// where it stands nowhere.
pub open spec fn position_of(args: Seq<Seq<char>>, key: Seq<char>) -> int
    decreases args.len(),
{
    if args.len() == 0 || args[0] == key {
        0
    } else {
        1 + position_of(args.skip(1), key)
    }
}

/// Whether `key` stands among `args`.
pub open spec fn has_flag(args: Seq<Seq<char>>, key: Seq<char>) -> bool {
    position_of(args, key) < args.len()
}

/// The argument behind the first `key`, where there is one.
pub open spec fn value_of(args: Seq<Seq<char>>, key: Seq<char>) -> Option<Seq<char>> {
    let at = position_of(args, key);
    if at + 1 < args.len() {
        Some(args[at + 1])
    } else {
        None
    }
}

/// The number that std's `str::parse::<u64>` reads in a text, where it
/// reads one.
pub uninterp spec fn number_in(text: Seq<char>) -> Option<u64>;

/// The number that is given for `key`.
pub open spec fn number_of(args: Seq<Seq<char>>, key: Key) -> Result<u64, ArgError> {
    match value_of(args, key.spec_text()) {
        None => Err(ArgError::MissingOption(key)),
        Some(text) => match number_in(text) {
            Some(number) => Ok(number),
            None => Err(ArgError::InvalidValue(key)),
        },
    }
}

/// The 16-bit number that is given for `key`.
pub open spec fn small_number_of(args: Seq<Seq<char>>, key: Key) -> Result<u16, ArgError> {
    match number_of(args, key) {
        Ok(number) => if number <= u16::MAX {
            Ok(number as u16)
        } else {
            Err(ArgError::InvalidValue(key))
        },
        Err(e) => Err(e),
    }
}

/// The text that is given for `key`.
pub open spec fn text_of(args: Seq<Seq<char>>, key: Key) -> Result<Seq<char>, ArgError> {
    match value_of(args, key.spec_text()) {
        None => Err(ArgError::MissingOption(key)),
        Some(text) => Ok(text),
    }
}

/// The path that is given with `-p` or, failing that, with `--path`, or the
/// default.
pub open spec fn path_of(args: Seq<Seq<char>>) -> Seq<char> {
    match value_of(args, "-p"@) {
        Some(path) => path,
        None => match value_of(args, "--path"@) {
            Some(path) => path,
            None => default_path(),
        },
    }
}

/// Whether a text begins with a dash, as options do.
pub open spec fn is_option(text: Seq<char>) -> bool {
    text.len() > 0 && text[0] == '-'
}

/// The subcommand that the arguments ask for: the first argument names it,
/// and the options that it needs follow anywhere behind.
pub open spec fn subcommand_of(args: Seq<Seq<char>>, database: bool) -> Result<
    SubcommandModel,
    ArgError,
> {
    if args.len() == 0 || is_option(args[0]) {
        Err(ArgError::MissingSubcommand)
    } else if args[0] == "add"@ {
        if database {
            match number_of(args, Key::DeckId) {
                Ok(deck_id) => Ok(SubcommandModel::Add { deck_id: Some(deck_id) }),
                Err(e) => Err(e),
            }
        } else {
            Ok(SubcommandModel::Add { deck_id: None })
        }
    } else if args[0] == "list"@ {
        Ok(SubcommandModel::List)
    } else if args[0] == "delete"@ {
        match number_of(args, Key::CardId) {
            Ok(card_id) => Ok(SubcommandModel::Delete { card_id }),
            Err(e) => Err(e),
        }
    } else if args[0] == "edit"@ {
        match number_of(args, Key::CardId) {
            Ok(card_id) => Ok(SubcommandModel::Edit { card_id }),
            Err(e) => Err(e),
        }
    } else if args[0] == "review"@ {
        Ok(SubcommandModel::Review)
    } else if args[0] == "stats"@ {
        Ok(SubcommandModel::Stats)
    } else if args[0] == "init"@ {
        Ok(SubcommandModel::Init)
    } else if args[0] == "create-deck"@ {
        match text_of(args, Key::Name) {
            Ok(name) => Ok(SubcommandModel::CreateDeck { name }),
            Err(e) => Err(e),
        }
    } else if args[0] == "decks"@ {
        Ok(SubcommandModel::Decks)
    } else if args[0] == "delete-deck"@ {
        match number_of(args, Key::DeckId) {
            Ok(deck_id) => Ok(SubcommandModel::DeleteDeck { deck_id }),
            Err(e) => Err(e),
        }
    } else if args[0] == "int-mod"@ {
        match number_of(args, Key::DeckId) {
            Ok(deck_id) => match small_number_of(args, Key::Modifier) {
                Ok(modifier) => Ok(SubcommandModel::IntMod { deck_id, modifier }),
                Err(e) => Err(e),
            },
            Err(e) => Err(e),
        }
    } else if args[0] == "switch"@ {
        match number_of(args, Key::CardId) {
            Ok(card_id) => match number_of(args, Key::DeckId) {
                Ok(deck_id) => Ok(SubcommandModel::Switch { card_id, deck_id }),
                Err(e) => Err(e),
            },
            Err(e) => Err(e),
        }
    } else {
        Err(ArgError::UnknownSubcommand)
    }
}

/// What the arguments ask for.
pub open spec fn parsed(args: Seq<Seq<char>>) -> Result<OptModel, ArgError> {
    let database = has_flag(args, "--db"@);
    match subcommand_of(args, database) {
        Ok(subcommand) => Ok(OptModel { subcommand, path: path_of(args), database }),
        Err(e) => Err(e),
    }
}

/// `position_of` is the one place that holds `key` (or is the end) and has
/// none before it.
pub proof fn lemma_position_of(args: Seq<Seq<char>>, key: Seq<char>, p: int)
    requires
        0 <= p <= args.len(),
        forall|k: int| 0 <= k < p ==> args[k] != key,
        p < args.len() ==> args[p] == key,
    ensures
        position_of(args, key) == p,
    decreases args.len(),
{
    if args.len() == 0 || args[0] == key {
    } else {
        let rest = args.skip(1);
        assert forall|k: int| 0 <= k < p - 1 implies rest[k] != key by {
            assert(rest[k] == args[k + 1]);
        }
        lemma_position_of(rest, key, p - 1);
    }
}

/// std's `str::parse::<u64>`: the number that a text holds in decimal
/// digits, or nothing where the text is no such number.
#[verifier::external_body]
fn number(text: &str) -> (number: Option<u64>)
    ensures
        number == number_in(text@),
{
    match text.parse::<u64>() {
        Ok(number) => Some(number),
        Err(_) => None,
    }
}

/// Whether two texts are the same.
pub fn same_text(a: &str, b: &str) -> (same: bool)
    ensures
        same == (a@ == b@),
{
    let left: String = a.to_owned();
    let right: String = b.to_owned();
    left == right
}

/// The first place at which `key` stands among `args`, or their number
/// where it stands nowhere.
pub fn find(args: &Vec<String>, key: &str) -> (at: usize)
    ensures
        at == position_of(texts(args@), key@),
        at <= args@.len(),
{
    let mut i: usize = 0;
    while i < args.len()
        invariant
            i <= args.len(),
            forall|k: int| 0 <= k < i ==> texts(args@)[k] != key@,
        decreases args.len() - i,
    {
        if same_text(args[i].as_str(), key) {
            proof {
                lemma_position_of(texts(args@), key@, i as int);
            }
            return i;
        }
        i += 1;
    }
    proof {
        lemma_position_of(texts(args@), key@, i as int);
    }
    i
}

/// Whether `key` stands among `args`.
pub fn contains(args: &Vec<String>, key: &str) -> (found: bool)
    ensures
        found == has_flag(texts(args@), key@),
{
    find(args, key) < args.len()
}

/// The argument behind the first `key`, where there is one.
pub fn value<'a>(args: &'a Vec<String>, key: &str) -> (value: Option<&'a String>)
    ensures
        value.is_some() == value_of(texts(args@), key@).is_some(),
        value matches Some(text) ==> text@ == value_of(texts(args@), key@).unwrap(),
{
    let at: usize = find(args, key);
    if at < args.len() && at + 1 < args.len() {
        Some(&args[at + 1])
    } else {
        None
    }
}

/// The number that is given for `key`.
pub fn value_as_u64(args: &Vec<String>, key: Key) -> (value: Result<u64, ArgError>)
    ensures
        value == number_of(texts(args@), key),
{
    match value(args, key.text()) {
        None => Err(ArgError::MissingOption(key)),
        Some(text) => match number(text.as_str()) {
            Some(number) => Ok(number),
            None => Err(ArgError::InvalidValue(key)),
        },
    }
}

/// The 16-bit number that is given for `key`.
pub fn value_as_u16(args: &Vec<String>, key: Key) -> (value: Result<u16, ArgError>)
    ensures
        value == small_number_of(texts(args@), key),
{
    match value_as_u64(args, key) {
        Ok(number) => if number <= 0xffff {
            Ok(number as u16)
        } else {
            Err(ArgError::InvalidValue(key))
        },
        Err(e) => Err(e),
    }
}

/// The path that the arguments give, or the default.
pub fn path(args: &Vec<String>) -> (path: String)
    ensures
        path@ == path_of(texts(args@)),
{
    match value(args, "-p") {
        Some(path) => path.clone(),
        None => match value(args, "--path") {
            Some(path) => path.clone(),
            None => "srs.db".to_owned(),
        },
    }
}

/// The subcommand that the arguments ask for.
pub fn subcommand(args: &Vec<String>, database: bool) -> (subcommand: Result<
    Subcommand,
    ArgError,
>)
    ensures
        subcommand_of(texts(args@), database) matches Err(e) ==> subcommand == Err::<
            Subcommand,
            ArgError,
        >(e),
        subcommand_of(texts(args@), database) matches Ok(model) ==> subcommand.is_ok()
            && subcommand.unwrap()@ == model,
{
    if args.len() == 0 {
        return Err(ArgError::MissingSubcommand);
    }
    let first: &str = args[0].as_str();
    assert(first@ == texts(args@)[0]);
    if !first.is_empty() && first.get_char(0) == '-' {
        return Err(ArgError::MissingSubcommand);
    }
    if same_text(first, "add") {
        if database {
            match value_as_u64(args, Key::DeckId) {
                Ok(deck_id) => Ok(Subcommand::Add { deck_id: Some(deck_id) }),
                Err(e) => Err(e),
            }
        } else {
            Ok(Subcommand::Add { deck_id: None })
        }
    } else if same_text(first, "list") {
        Ok(Subcommand::List)
    } else if same_text(first, "delete") {
        match value_as_u64(args, Key::CardId) {
            Ok(card_id) => Ok(Subcommand::Delete { card_id }),
            Err(e) => Err(e),
        }
    } else if same_text(first, "edit") {
        match value_as_u64(args, Key::CardId) {
            Ok(card_id) => Ok(Subcommand::Edit { card_id }),
            Err(e) => Err(e),
        }
    } else if same_text(first, "review") {
        Ok(Subcommand::Review)
    } else if same_text(first, "stats") {
        Ok(Subcommand::Stats)
    } else if same_text(first, "init") {
        Ok(Subcommand::Init)
    } else if same_text(first, "create-deck") {
        match value(args, Key::Name.text()) {
            Some(name) => Ok(Subcommand::CreateDeck { name: name.clone() }),
            None => Err(ArgError::MissingOption(Key::Name)),
        }
    } else if same_text(first, "decks") {
        Ok(Subcommand::Decks)
    } else if same_text(first, "delete-deck") {
        match value_as_u64(args, Key::DeckId) {
            Ok(deck_id) => Ok(Subcommand::DeleteDeck { deck_id }),
            Err(e) => Err(e),
        }
    } else if same_text(first, "int-mod") {
        match value_as_u64(args, Key::DeckId) {
            Ok(deck_id) => match value_as_u16(args, Key::Modifier) {
                Ok(modifier) => Ok(Subcommand::IntMod { deck_id, modifier }),
                Err(e) => Err(e),
            },
            Err(e) => Err(e),
        }
    } else if same_text(first, "switch") {
        match value_as_u64(args, Key::CardId) {
            Ok(card_id) => match value_as_u64(args, Key::DeckId) {
                Ok(deck_id) => Ok(Subcommand::Switch { card_id, deck_id }),
                Err(e) => Err(e),
            },
            Err(e) => Err(e),
        }
    } else {
        Err(ArgError::UnknownSubcommand)
    }
}

impl Opt {
    /// Parses the arguments behind the program's name, resulting in an error
    /// when the subcommand is missing or unknown, or an option that it needs
    /// is missing or holds no number.
    pub fn parse(args: &Vec<String>) -> (opt: Result<Opt, ArgError>)
        ensures
            parsed(texts(args@)) matches Err(e) ==> opt == Err::<Opt, ArgError>(e),
            parsed(texts(args@)) matches Ok(model) ==> opt.is_ok() && opt.unwrap()@ == model,
    {
        let database: bool = contains(args, "--db");
        match subcommand(args, database) {
            Ok(subcommand) => Ok(Opt { subcommand, path: path(args), database }),
            Err(e) => Err(e),
        }
    }
}

} // verus!
