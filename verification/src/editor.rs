//! The text that a card is edited in: front and back, one above the other,
//! with a line of dashes between them.

use crate::error::Error;
use vstd::prelude::*;
use vstd::string::StringExecFns;

verus! {

/// The line between front and back.
pub open spec fn divider() -> Seq<char> {
    "----------"@
}

/// The text that is handed to the editor for a card.
pub open spec fn template_text(front: Seq<char>, back: Seq<char>) -> Seq<char> {
    front + "\n"@ + divider() + "\n"@ + back + "\n"@
}

/// Whether `pattern` stands in `text` at position `at`.
pub open spec fn occurs_at(text: Seq<char>, pattern: Seq<char>, at: int) -> bool {
    &&& 0 <= at
    &&& at + pattern.len() <= text.len()
    &&& text.subrange(at, at + pattern.len()) == pattern
}

/// Whether `text` parts at `at` into a head, the divider, and a tail, and
/// `at` is the first place at which the divider stands.
pub open spec fn parts_at(text: Seq<char>, at: int) -> bool {
    &&& occurs_at(text, divider(), at)
    &&& forall|k: int| 0 <= k < at ==> !occurs_at(text, divider(), k)
}

/// Whether the divider stands anywhere in `text`.
pub open spec fn has_divider(text: Seq<char>) -> bool {
    exists|at: int| occurs_at(text, divider(), at)
}

/// The first place at which the divider stands in `text`.
pub open spec fn divider_position(text: Seq<char>) -> int {
    choose|at: int| parts_at(text, at)
}

/// What stands before the first divider.
pub open spec fn head_of(text: Seq<char>) -> Seq<char> {
    text.take(divider_position(text))
}

/// What stands behind the first divider.
pub open spec fn tail_of(text: Seq<char>) -> Seq<char> {
    text.skip(divider_position(text) + divider().len())
}

/// What std's `str::trim` leaves of a text: the text without the white
/// space at its beginning and at its end.
pub uninterp spec fn trimmed(text: Seq<char>) -> Seq<char>;

/// std's `str::split_once` with the divider as the pattern: the parts before
/// and behind the first place at which the divider stands, or nothing where
/// it stands nowhere.
#[verifier::external_body]
fn split_at_divider(text: &str) -> (parts: Option<(&str, &str)>)
    ensures
        parts.is_some() == has_divider(text@),
        parts matches Some((head, tail)) ==> parts_at(text@, head@.len() as int) && text@ == head@
            + divider() + tail@,
{
    text.split_once("----------")
}

/// std's `str::trim`.
#[verifier::external_body]
fn trim(text: &str) -> (rest: &str)
    ensures
        rest@ == trimmed(text@),
{
    text.trim()
}

/// The text that is handed to the editor for a card.
pub fn template(front: &str, back: &str) -> (text: String)
    ensures
        text@ == template_text(front@, back@),
{
    let mut text: String = front.to_owned();
    text.append("\n");
    text.append("----------");
    text.append("\n");
    text.append(back);
    text.append("\n");
    text
}

/// The front and the back that the user left in the editor: what stands
/// before and behind the first divider, each without the white space
/// around it.
///
/// Fails when the divider is gone, and when nothing is left of the front.
pub fn parse(output: &str) -> (texts: Result<(String, String), Error>)
    ensures
        !has_divider(output@) ==> texts == Err::<(String, String), Error>(Error::MissingDivider),
        has_divider(output@) && trimmed(head_of(output@)).len() == 0 ==> texts == Err::<
            (String, String),
            Error,
        >(Error::EmptyFront),
        has_divider(output@) && trimmed(head_of(output@)).len() != 0 ==> {
            &&& texts.is_ok()
            &&& texts.unwrap().0@ == trimmed(head_of(output@))
            &&& texts.unwrap().1@ == trimmed(tail_of(output@))
        },
{
    let (head, tail) = match split_at_divider(output) {
        Some(parts) => parts,
        None => { return Err(Error::MissingDivider); },
    };
    proof {
        lemma_first_place_is_unique(output@, head@.len() as int);
        assert(head@ =~= head_of(output@));
        assert(tail@ =~= tail_of(output@));
    }
    let front: &str = trim(head);
    if front.is_empty() {
        return Err(Error::EmptyFront);
    }
    let back: &str = trim(tail);
    Ok((front.to_owned(), back.to_owned()))
}

/// There is one first place at which the divider stands.
pub proof fn lemma_first_place_is_unique(text: Seq<char>, at: int)
    requires
        parts_at(text, at),
    ensures
        divider_position(text) == at,
{
    let found = divider_position(text);
    assert(parts_at(text, found));
    if found < at {
        assert(!occurs_at(text, divider(), found));
    } else if at < found {
        assert(!occurs_at(text, divider(), at));
    }
}

/// The template of a card whose front holds no divider parts into that
/// front and that back, each with the line breaks that the template put
/// around them.
pub proof fn law_template_parts(front: Seq<char>, back: Seq<char>)
    requires
        forall|k: int| !occurs_at(front + "\n"@ + divider(), divider(), k) || k == front.len() + 1,
    ensures
        has_divider(template_text(front, back)),
        head_of(template_text(front, back)) == front + "\n"@,
        tail_of(template_text(front, back)) == "\n"@ + back + "\n"@,
{
    reveal_strlit("\n");
    reveal_strlit("----------");
    let text = template_text(front, back);
    let at: int = front.len() as int + 1;
    assert(text.subrange(at, at + divider().len()) =~= divider());
    assert(occurs_at(text, divider(), at));
    assert forall|k: int| 0 <= k < at implies !occurs_at(text, divider(), k) by {
        if occurs_at(text, divider(), k) {
            let prefix = front + "\n"@ + divider();
            assert(prefix.subrange(k, k + divider().len()) =~= text.subrange(
                k,
                k + divider().len(),
            ));
            assert(occurs_at(prefix, divider(), k));
        }
    }
    lemma_first_place_is_unique(text, at);
    assert(head_of(text) =~= front + "\n"@);
    assert(tail_of(text) =~= "\n"@ + back + "\n"@);
}

} // verus!
