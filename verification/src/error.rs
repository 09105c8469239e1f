//! The failures that the library's operations report.

use vstd::prelude::*;

verus! {

/// The broad classes of failure.
#[derive(Clone, Copy, Debug, PartialEq, Eq, Structural)]
pub enum ErrorKind {
    /// Input was rejected before anything changed.
    Validation,
    /// A card or deck that the operation names does not exist.
    NotFound,
    /// Stored state contradicts itself; the operation gave up.
    InvariantViolation,
}

/// Why an operation failed.
#[derive(Clone, Copy, Debug, PartialEq, Eq, Structural)]
pub enum Error {
    /// A deck needs a name.
    EmptyDeckName,
    /// A card needs a front.
    EmptyFront,
    /// An interval modifier below the smallest a deck can have.
    IntervalModifierTooSmall,
    /// The edited text has lost the line between front and back.
    MissingDivider,
    /// The card's text does not fit in a card record.
    CardTooLong,
    /// The store holds as many cards as it can count.
    TooManyCards,
    /// No card with that id or index.
    UnknownCard,
    /// No deck with that id.
    UnknownDeck,
    /// The card is suspended or a leech, so it has no review to answer.
    NotScheduled,
    /// An established card has no answer on record.
    MissingAnswerHistory,
    /// A card record without the byte that parts front from back.
    MissingSeparator,
    /// A card record whose text is not UTF-8.
    InvalidText,
    /// Bytes that are not a store file.
    MalformedFile,
    /// The store has handed out every id it can count.
    IdsExhausted,
}

impl Error {
    /// The class of failure that this error belongs to.
    pub open spec fn spec_kind(self) -> ErrorKind {
        match self {
            Error::EmptyDeckName
            | Error::EmptyFront
            | Error::IntervalModifierTooSmall
            | Error::MissingDivider
            | Error::CardTooLong
            | Error::TooManyCards => ErrorKind::Validation,
            Error::UnknownCard | Error::UnknownDeck => ErrorKind::NotFound,
            Error::NotScheduled
            | Error::MissingAnswerHistory
            | Error::MissingSeparator
            | Error::InvalidText
            | Error::MalformedFile
            | Error::IdsExhausted => ErrorKind::InvariantViolation,
        }
    }

    /// The class of failure that this error belongs to.
    #[verifier::when_used_as_spec(spec_kind)]
    pub fn kind(self) -> (kind: ErrorKind)
        ensures
            kind == self.spec_kind(),
    {
        match self {
            Error::EmptyDeckName
            | Error::EmptyFront
            | Error::IntervalModifierTooSmall
            | Error::MissingDivider
            | Error::CardTooLong
            | Error::TooManyCards => ErrorKind::Validation,
            Error::UnknownCard | Error::UnknownDeck => ErrorKind::NotFound,
            Error::NotScheduled
            | Error::MissingAnswerHistory
            | Error::MissingSeparator
            | Error::InvalidText
            | Error::MalformedFile
            | Error::IdsExhausted => ErrorKind::InvariantViolation,
        }
    }

    /// A sentence for the user.
    pub open spec fn spec_message(self) -> Seq<char> {
        match self {
            Error::EmptyDeckName => "deck name can't be empty"@,
            Error::EmptyFront => "front of card can't be empty"@,
            Error::IntervalModifierTooSmall => "interval modifier must be at least 50"@,
            Error::MissingDivider => "missing divider between front and back of card"@,
            Error::CardTooLong => "this card is too long"@,
            Error::TooManyCards => "reached card count limit"@,
            Error::UnknownCard => "card doesn't exist"@,
            Error::UnknownDeck => "deck doesn't exist"@,
            Error::NotScheduled => "card isn't scheduled for review"@,
            Error::MissingAnswerHistory => "card was never answered"@,
            Error::MissingSeparator => "no null separator in card string"@,
            Error::InvalidText => "card text isn't valid UTF-8"@,
            Error::MalformedFile => "file isn't a card store"@,
            Error::IdsExhausted => "the store has no id left to give"@,
        }
    }

    /// A sentence for the user.
    pub fn message(self) -> (message: &'static str)
        ensures
            message@ == self.spec_message(),
    {
        match self {
            Error::EmptyDeckName => "deck name can't be empty",
            Error::EmptyFront => "front of card can't be empty",
            Error::IntervalModifierTooSmall => "interval modifier must be at least 50",
            Error::MissingDivider => "missing divider between front and back of card",
            Error::CardTooLong => "this card is too long",
            Error::TooManyCards => "reached card count limit",
            Error::UnknownCard => "card doesn't exist",
            Error::UnknownDeck => "deck doesn't exist",
            Error::NotScheduled => "card isn't scheduled for review",
            Error::MissingAnswerHistory => "card was never answered",
            Error::MissingSeparator => "no null separator in card string",
            Error::InvalidText => "card text isn't valid UTF-8",
            Error::MalformedFile => "file isn't a card store",
            Error::IdsExhausted => "the store has no id left to give",
        }
    }
}

} // verus!
