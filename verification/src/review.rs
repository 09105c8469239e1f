//! The review session: which card to show next, what to say between decks,
//! and where each answer goes.
//!
//! The session decides; its driver shows and asks. After each prompt the
//! driver reports back, with the answer where a card was asked, and the
//! session moves on.

use crate::error::Error;
use crate::schedule::Schedule;
use crate::model::{review_inputs_of, with_answer};
use crate::srs::{Card, Srs};
use vstd::prelude::*;

verus! {

/// What the driver is to do at a point of the session.
#[derive(Clone, Copy, Debug, PartialEq, Eq, Structural)]
pub enum Stage {
    /// Say which deck comes next and how many cards it has.
    Announce,
    /// Show a card and ask whether it was known.
    Ask,
    /// Say how many of the deck's cards were answered correctly.
    Summarize,
    /// Say that the review is over.
    Finished,
}

/// A point of the session.
#[derive(Clone, Copy, Debug, PartialEq, Eq, Structural)]
pub struct Position {
    pub stage: Stage,
    /// The deck's group that the session is in.
    pub group: usize,
    /// The card of the group that is asked, in `Stage::Ask`.
    pub card: usize,
    /// How many cards of the group were answered correctly so far.
    pub correct: usize,
}

/// Where a session over groups of these sizes begins.
pub open spec fn first_position(sizes: Seq<nat>) -> Position {
    if sizes.len() == 0 {
        Position { stage: Stage::Finished, group: 0, card: 0, correct: 0 }
    } else {
        Position { stage: Stage::Announce, group: 0, card: 0, correct: 0 }
    }
}

/// Whether a position lies within a session over groups of these sizes.
pub open spec fn is_position(sizes: Seq<nat>, at: Position) -> bool {
    match at.stage {
        Stage::Announce => at.group < sizes.len() && at.card == 0 && at.correct == 0,
        Stage::Ask => at.group < sizes.len() && at.card < sizes[at.group as int] && at.correct
            <= at.card,
        Stage::Summarize => at.group < sizes.len() && at.card == sizes[at.group as int]
            && at.correct <= at.card,
        Stage::Finished => at.group == sizes.len() && at.card == 0 && at.correct == 0,
    }
}

/// The position that follows `at`. After a deck was announced its first card
/// is asked (or, for a group without cards, the deck is summed up at once).
/// After a card was asked, `answered_correctly` is counted and the next card
/// is asked, or the deck is summed up. After a deck was summed up the next
/// one is announced, or the session is over.
pub open spec fn next_position(
    sizes: Seq<nat>,
    at: Position,
    answered_correctly: bool,
) -> Position {
    match at.stage {
        Stage::Announce => if sizes[at.group as int] > 0 {
            Position { stage: Stage::Ask, ..at }
        } else {
            Position { stage: Stage::Summarize, ..at }
        },
        Stage::Ask => {
            let correct = if answered_correctly {
                (at.correct + 1) as usize
            } else {
                at.correct
            };
            let card = (at.card + 1) as usize;
            if card < sizes[at.group as int] {
                Position { stage: Stage::Ask, card, correct, ..at }
            } else {
                Position { stage: Stage::Summarize, card, correct, ..at }
            }
        },
        Stage::Summarize => if at.group + 1 < sizes.len() {
            Position {
                stage: Stage::Announce,
                group: (at.group + 1) as usize,
                card: 0,
                correct: 0,
            }
        } else {
            Position { stage: Stage::Finished, group: (at.group + 1) as usize, card: 0, correct: 0 }
        },
        Stage::Finished => at,
    }
}

/// How many prompts the groups from `group` on take: each deck takes one to
/// announce, one for each card, and one to sum up.
pub open spec fn prompts_from(sizes: Seq<nat>, group: int) -> nat
    decreases sizes.len() - group,
{
    if group < 0 || group >= sizes.len() {
        0
    } else {
        sizes[group] + 2 + prompts_from(sizes, group + 1)
    }
}

/// How many prompts a session has before it, counted from `at`.
pub open spec fn prompts_left(sizes: Seq<nat>, at: Position) -> nat {
    match at.stage {
        Stage::Announce => prompts_from(sizes, at.group as int),
        Stage::Ask => (sizes[at.group as int] - at.card + 1) as nat + prompts_from(
            sizes,
            at.group + 1,
        ),
        Stage::Summarize => 1 + prompts_from(sizes, at.group + 1),
        Stage::Finished => 0,
    }
}

/// Every step of a session leads to a position of the session and brings
/// its end one prompt nearer: a session over finitely many cards ends, and
/// asks each card of each group once.
pub proof fn law_session_moves_on(sizes: Seq<nat>, at: Position, answered_correctly: bool)
    requires
        is_position(sizes, at),
        at.stage != Stage::Finished,
        sizes.len() < usize::MAX,
        forall|g: int| 0 <= g < sizes.len() ==> (#[trigger] sizes[g]) <= usize::MAX,
    ensures
        is_position(sizes, next_position(sizes, at, answered_correctly)),
        prompts_left(sizes, next_position(sizes, at, answered_correctly)) + 1 == prompts_left(
            sizes,
            at,
        ),
{
    let next = next_position(sizes, at, answered_correctly);
    assert(prompts_from(sizes, sizes.len() as int) == 0);
}

/// The sizes of the groups of a session.
pub open spec fn group_sizes(groups: Seq<(String, Vec<Card>)>) -> Seq<nat> {
    Seq::new(groups.len(), |g: int| groups[g].1@.len())
}

/// A review session over the due cards of a store.
pub struct Review {
    pub groups: Vec<(String, Vec<Card>)>,
    pub position: Position,
}

impl Review {
    /// What every session satisfies: its position lies within its groups.
    pub open spec fn wf(&self) -> bool {
        is_position(group_sizes(self.groups@), self.position)
    }

    /// A session over `groups`, at its beginning.
    pub fn new(groups: Vec<(String, Vec<Card>)>) -> (review: Self)
        ensures
            review.groups == groups,
            review.position == first_position(group_sizes(groups@)),
            review.wf(),
    {
        let stage: Stage = if groups.len() == 0 {
            Stage::Finished
        } else {
            Stage::Announce
        };
        Review { groups, position: Position { stage, group: 0, card: 0, correct: 0 } }
    }

    /// How many cards the session has in all, held at the largest number
    /// that can be counted.
    pub fn total(&self) -> (total: usize)
        ensures
            total == held_total(group_sizes(self.groups@)),
    {
        let ghost sizes = group_sizes(self.groups@);
        let mut total: usize = 0;
        let mut g: usize = 0;
        assert(sizes.take(0) =~= Seq::<nat>::empty());
        while g < self.groups.len()
            invariant
                g <= self.groups.len(),
                sizes == group_sizes(self.groups@),
                total == held_total(sizes.take(g as int)),
            decreases self.groups.len() - g,
        {
            assert(sizes.take(g + 1).drop_last() =~= sizes.take(g as int));
            let size: usize = self.groups[g].1.len();
            total = if size > usize::MAX - total {
                usize::MAX
            } else {
                total + size
            };
            g += 1;
        }
        assert(sizes.take(g as int) =~= sizes);
        total
    }

    /// The card to show, where the session is asking one.
    pub fn current_card(&self) -> (card: Option<&Card>)
        requires
            self.wf(),
        ensures
            card.is_some() == (self.position.stage == Stage::Ask),
            card matches Some(c) ==> *c == self.asked(),
    {
        match self.position.stage {
            Stage::Ask => Some(&self.groups[self.position.group].1[self.position.card]),
            _ => None,
        }
    }

    /// The name of the deck that the session is in, where it is in one.
    pub fn current_deck(&self) -> (name: Option<&String>)
        requires
            self.wf(),
        ensures
            name.is_some() == (self.position.stage != Stage::Finished),
            name matches Some(n) ==> *n == self.groups@[self.position.group as int].0,
    {
        match self.position.stage {
            Stage::Finished => None,
            _ => Some(&self.groups[self.position.group].0),
        }
    }

    /// How many cards the deck has that the session is in; zero at the end.
    pub fn cards_in_deck(&self) -> (cards: usize)
        requires
            self.wf(),
        ensures
            self.position.stage == Stage::Finished ==> cards == 0,
            self.position.stage != Stage::Finished ==> cards
                == self.groups@[self.position.group as int].1@.len(),
    {
        match self.position.stage {
            Stage::Finished => 0,
            _ => self.groups[self.position.group].1.len(),
        }
    }

    /// Moves to the next position. `answered_correctly` is counted where a
    /// card was asked and ignored elsewhere.
    pub fn advance(&mut self, answered_correctly: bool)
        requires
            old(self).wf(),
        ensures
            final(self).wf(),
            final(self).groups == old(self).groups,
            final(self).position == next_position(
                group_sizes(old(self).groups@),
                old(self).position,
                answered_correctly,
            ),
    {
        let at: Position = self.position;
        let ghost sizes = group_sizes(self.groups@);
        assert(sizes.len() == self.groups@.len());
        match at.stage {
            Stage::Announce => {
                let stage: Stage = if self.groups[at.group].1.len() > 0 {
                    Stage::Ask
                } else {
                    Stage::Summarize
                };
                self.position = Position { stage, ..at };
            },
            Stage::Ask => {
                let size: usize = self.groups[at.group].1.len();
                let correct: usize = if answered_correctly {
                    at.correct + 1
                } else {
                    at.correct
                };
                let card: usize = at.card + 1;
                let stage: Stage = if card < size {
                    Stage::Ask
                } else {
                    Stage::Summarize
                };
                self.position = Position { stage, group: at.group, card, correct };
            },
            Stage::Summarize => {
                let groups: usize = self.groups.len();
                let stage: Stage = if at.group + 1 < groups {
                    Stage::Announce
                } else {
                    Stage::Finished
                };
                self.position = Position { stage, group: at.group + 1, card: 0, correct: 0 };
            },
            Stage::Finished => {},
        }
    }

    /// Records the answer to the card that is asked in `store` and moves on.
    ///
    /// Fails where the store refuses the answer; the session then stays
    /// where it is and the store as it was.
    pub fn answer<S: Schedule>(
        &mut self,
        store: &mut Srs,
        is_correct: bool,
        now: u64,
        schedule: &mut S,
    ) -> (answered: Result<(), Error>)
        requires
            old(self).wf(),
            old(self).position.stage == Stage::Ask,
            old(store).wf(),
        ensures
            final(self).wf(),
            final(store).wf(),
            final(self).groups == old(self).groups,
            review_inputs_of(old(store)@, old(self).asked_id()) matches Err(e) ==> {
                &&& answered == Err::<(), Error>(e)
                &&& final(store)@ == old(store)@
                &&& final(self).position == old(self).position
            },
            review_inputs_of(old(store)@, old(self).asked_id()) matches Ok(inputs) ==> {
                &&& answered.is_ok()
                &&& final(self).position == next_position(
                    group_sizes(old(self).groups@),
                    old(self).position,
                    is_correct,
                )
                &&& exists|next: u16|
                    {
                        &&& next >= 1
                        &&& S::allows(
                            inputs.previous_interval,
                            inputs.was_correct,
                            inputs.interval_modifier,
                            next,
                        )
                        &&& final(store)@ == #[trigger] with_answer(
                            old(store)@,
                            old(self).asked_id(),
                            is_correct,
                            now,
                            next,
                        )
                    }
            },
    {
        let card_id: u64 = self.groups[self.position.group].1[self.position.card].id;
        match store.record_answer(card_id, is_correct, now, schedule) {
            Ok(()) => {
                self.advance(is_correct);
                Ok(())
            },
            Err(e) => Err(e),
        }
    }

    /// The card that is asked. Meaningful in `Stage::Ask`.
    pub open spec fn asked(&self) -> Card {
        self.groups@[self.position.group as int].1@[self.position.card as int]
    }

    /// The id of the card that is asked. Meaningful in `Stage::Ask`.
    pub open spec fn asked_id(&self) -> u64 {
        self.asked().id
    }
}

/// The sum of the sizes, held at the largest number that can be counted.
pub open spec fn held_total(sizes: Seq<nat>) -> nat
    decreases sizes.len(),
{
    if sizes.len() == 0 {
        0
    } else if held_total(sizes.drop_last()) + sizes.last() > usize::MAX {
        usize::MAX as nat
    } else {
        held_total(sizes.drop_last()) + sizes.last()
    }
}

} // verus!
