//! A spaced-repetition flashcard library: a review scheduler, a seedable
//! random source, and the stores that keep cards, decks and review history.
//!
//! Two stores are offered. [`srs::Srs`] keeps decks, cards, schedules and
//! answers under stable ids. The single-file store at the crate's root keeps
//! one unnamed deck in the order of the file that it is written to.

pub mod clock;
pub mod editor;
pub mod error;
pub mod flat;
pub mod model;
pub mod opt;
pub mod file_format;
pub mod rand;
pub mod review;
pub mod schedule;
pub mod srs;
pub mod store_laws;

pub use flat::{
    add_card, apply_answers, card, card_front, cards_to_review, delete_card, edit_card, Answer,
    Card, CardIndex, CardSchedule, Srs, Stat,
};
pub use file_format::open;
