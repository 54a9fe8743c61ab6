//! The cards of the web dashboard: the sets recommended to a user and the
//! sets they opened lately. Both lists are filled with placeholder cards
//! until the dashboard is connected to the note-card service.
use vstd::prelude::*;

use crate::text::owned;

verus! {

/// A set as the dashboard shows it.
pub struct Card {
    pub title: String,
    pub description: String,
    pub creator: String,
    pub url: String,
}

/// `c` is the placeholder card.
pub open spec fn is_placeholder(c: Card) -> bool {
    &&& c.title@ == "Title"@
    &&& c.description@ == "Description"@
    &&& c.creator@ == "Creator"@
    &&& c.url@ == "url"@
}

/// The placeholder card.
fn placeholder() -> (c: Card)
    ensures
        is_placeholder(c),
{
    Card { title: owned("Title"), description: owned("Description"), creator: owned("Creator"), url: owned("url") }
}

/// `quantity` placeholder cards.
fn placeholders(quantity: usize) -> (r: Vec<Card>)
    ensures
        r@.len() == quantity,
        forall|i: int| 0 <= i < quantity ==> is_placeholder(#[trigger] r@[i]),
{
    let mut out: Vec<Card> = Vec::new();
    let mut i: usize = 0;
    while i < quantity
        invariant
            i <= quantity,
            out@.len() == i,
            forall|k: int| 0 <= k < i ==> is_placeholder(#[trigger] out@[k]),
        decreases quantity - i,
    {
        out.push(placeholder());
        i = i + 1;
    }
    out
}

/// The sets recommended to a user: `quantity` placeholder cards.
pub fn get_card_recommendations(userId: String, quantity: usize) -> (r: Vec<Card>)
    ensures
        r@.len() == quantity,
        forall|i: int| 0 <= i < quantity ==> is_placeholder(#[trigger] r@[i]),
{
    placeholders(quantity)
}

/// The sets a user opened lately: `quantity` placeholder cards.
pub fn get_recent_cards(userId: String, quantity: usize) -> (r: Vec<Card>)
    ensures
        r@.len() == quantity,
        forall|i: int| 0 <= i < quantity ==> is_placeholder(#[trigger] r@[i]),
{
    placeholders(quantity)
}

} // verus!
