//! Sample data for measuring how well note cards compress: cards whose two
//! sides are random identifiers.
use vstd::prelude::*;

use crate::ids::{drawn_from, random_token, url_safe_symbols};

verus! {

/// The length of each side of a sample card: that of a default nanoid.
pub const SIDE_LEN: usize = 21;

/// A two-sided card of plain text.
pub struct Notecard {
    pub front: String,
    pub back: String,
}

/// Whether a card is a sample card: both sides are 21 url-safe symbols.
pub open spec fn is_sample_card(c: Notecard) -> bool {
    &&& c.front@.len() == SIDE_LEN
    &&& c.back@.len() == SIDE_LEN
    &&& drawn_from(c.front@, url_safe_symbols())
    &&& drawn_from(c.back@, url_safe_symbols())
}

/// `n` sample cards, each side a fresh random identifier.
pub fn random_notecards(n: usize) -> (r: Vec<Notecard>)
    ensures
        r@.len() == n,
        forall|i: int| 0 <= i < n ==> is_sample_card(#[trigger] r@[i]),
{
    let mut out: Vec<Notecard> = Vec::new();
    let mut i: usize = 0;
    while i < n
        invariant
            i <= n,
            out@.len() == i,
            forall|k: int| 0 <= k < i ==> is_sample_card(#[trigger] out@[k]),
        decreases n - i,
    {
        out.push(Notecard { front: random_token(SIDE_LEN), back: random_token(SIDE_LEN) });
        i = i + 1;
    }
    out
}

} // verus!
