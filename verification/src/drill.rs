//! A spaced-repetition drill over a deck of two-sided cards: the deck's text
//! format, which card comes next, the multiple-choice question for a card and
//! what an answer does to the card's schedule.
use vstd::prelude::*;

use crate::counting::lemma_covers_below;
use crate::split::{chars_of, lemma_pieces_nonempty, range_texts, split_ranges, split_text};
use crate::text::text_of;

verus! {

/// The mark between the two sides of a card: `##`.
pub open spec fn side_break() -> Seq<char> {
    seq!['#', '#']
}

/// The mark between two cards: `####`.
pub open spec fn card_break() -> Seq<char> {
    seq!['#', '#', '#', '#']
}

/// The two sides of a card's text: the two pieces around its side mark when
/// there are exactly two, else the first piece and an empty back.
pub open spec fn card_sides(piece: Seq<char>) -> (Seq<char>, Seq<char>) {
    let parts = split_text(piece, side_break());
    if parts.len() == 2 {
        (parts[0], parts[1])
    } else {
        (parts[0], Seq::<char>::empty())
    }
}

/// The cards of these texts that have both a front and a back, in order.
pub open spec fn deck_from(pieces: Seq<Seq<char>>) -> Seq<(Seq<char>, Seq<char>)>
    decreases pieces.len(),
{
    if pieces.len() == 0 {
        Seq::empty()
    } else {
        let rest = deck_from(pieces.drop_last());
        let c = card_sides(pieces.last());
        if c.0.len() > 0 && c.1.len() > 0 {
            rest.push(c)
        } else {
            rest
        }
    }
}

/// The deck a text describes: its cards are cut at `####`, the sides of a
/// card at `##`, and cards without both sides are dropped.
pub open spec fn deck_of(text: Seq<char>) -> Seq<(Seq<char>, Seq<char>)> {
    deck_from(split_text(text, card_break()))
}

/// A card of the drill with its schedule: how many turns until it is due,
/// and how often it was answered right and wrong.
pub struct question {
    pub turns_until_repeat: usize,
    pub corrects: usize,
    pub wrongs: usize,
    pub front: String,
    pub back: String,
}

/// `c` is the fresh card with these sides: due at once, never answered.
pub open spec fn is_fresh_card(c: question, sides: (Seq<char>, Seq<char>)) -> bool {
    &&& c.front@ == sides.0
    &&& c.back@ == sides.1
    &&& c.turns_until_repeat == 0
    &&& c.corrects == 0
    &&& c.wrongs == 0
}

/// Reads a deck: every card of the text, fresh.
pub fn parse_deck(text: &str) -> (r: Vec<question>)
    ensures
        r@.len() == deck_of(text@).len(),
        forall|i: int| 0 <= i < r@.len() ==> is_fresh_card(#[trigger] r@[i], deck_of(text@)[i]),
{
    let chars = chars_of(text);
    let n = chars.len();
    let card_mark: Vec<char> = vec!['#', '#', '#', '#'];
    let side_mark: Vec<char> = vec!['#', '#'];
    proof {
        assert(card_mark@ =~= card_break());
        assert(side_mark@ =~= side_break());
        assert(chars@.subrange(0, n as int) =~= chars@);
    }
    let cards = split_ranges(&chars, 0, n, &card_mark);
    let ghost pieces = split_text(chars@, card_break());
    let mut out: Vec<question> = Vec::new();
    let mut k: usize = 0;
    while k < cards.len()
        invariant
            k <= cards@.len(),
            chars@ == text@,
            side_mark@ == side_break(),
            range_texts(chars@, cards@) == pieces,
            pieces == split_text(text@, card_break()),
            forall|j: int| 0 <= j < cards@.len() ==> (#[trigger] cards@[j]).0 <= cards@[j].1 <= chars@.len(),
            out@.len() == deck_from(pieces.take(k as int)).len(),
            forall|i: int| 0 <= i < out@.len() ==> is_fresh_card(#[trigger] out@[i], deck_from(pieces.take(k as int))[i]),
        decreases cards@.len() - k,
    {
        let (a, b) = cards[k];
        let parts = split_ranges(&chars, a, b, &side_mark);
        let ghost piece = pieces[k as int];
        proof {
            assert(range_texts(chars@, cards@)[k as int] == chars@.subrange(a as int, b as int));
            assert(pieces.take(k + 1).drop_last() =~= pieces.take(k as int));
            assert(pieces.take(k + 1).last() == piece);
            lemma_pieces_nonempty(piece, side_break(), 0, 0);
        }
        let (p0a, p0b) = parts[0];
        let front = text_of(vstd::slice::slice_subrange(chars.as_slice(), p0a, p0b));
        let back = if parts.len() == 2 {
            let (p1a, p1b) = parts[1];
            text_of(vstd::slice::slice_subrange(chars.as_slice(), p1a, p1b))
        } else {
            String::new()
        };
        proof {
            let parts_t = split_text(piece, side_break());
            assert(range_texts(chars@, parts@)[0] == chars@.subrange(p0a as int, p0b as int));
            assert(front@ == parts_t[0]);
            if parts@.len() == 2 {
                assert(range_texts(chars@, parts@)[1] == chars@.subrange(parts@[1].0 as int, parts@[1].1 as int));
            }
            assert(front@ == card_sides(piece).0);
            assert(back@ == card_sides(piece).1);
        }
        if !front.as_str().is_empty() && !back.as_str().is_empty() {
            out.push(question { turns_until_repeat: 0, corrects: 0, wrongs: 0, front, back });
        }
        k = k + 1;
    }
    proof {
        assert(pieces.take(k as int) =~= pieces);
    }
    out
}

/// A random number in `lo..hi`.
///
/// Trusted: `rand::Rng::gen_range` on `rand::thread_rng()`. Its source
/// asserts that the range is not empty, which `requires` rules out, and
/// samples within the range; which number comes out is left open.
#[verifier::external_body]
fn random_in(lo: usize, hi: usize) -> (r: usize)
    requires
        lo < hi,
    ensures
        lo <= r < hi,
{
    rand::Rng::gen_range(&mut rand::thread_rng(), lo..hi)
}

/// Puts the entries of a list in a random order.
///
/// Trusted: `rand::seq::SliceRandom::shuffle` on `rand::thread_rng()`, which
/// its source writes as a run of swaps (Fisher-Yates): the same entries come
/// back, each as often as before; their order is left open.
#[verifier::external_body]
fn shuffle_entries(v: &mut Vec<usize>)
    ensures
        final(v)@.to_multiset() == old(v)@.to_multiset(),
{
    rand::seq::SliceRandom::shuffle(v.as_mut_slice(), &mut rand::thread_rng())
}

/// How many wrong answers a multiple-choice question offers.
pub const DISTRACTORS: usize = 3;

/// How many random draws look for distinct wrong answers before the first
/// unused cards are taken.
pub const DRAW_ATTEMPTS: usize = 10000;

/// What is asked for a card.
pub enum Prompt {
    /// Fewer than four cards: nothing can be asked.
    TooFew,
    /// The card's front, the backs offered (in order), and for each the card
    /// it belongs to.
    Ask { front: String, options: Vec<String>, sources: Vec<usize> },
}

/// Whether the player's pick (counted from one) is an offered back equal
/// to the card's back.
pub open spec fn is_right_choice(options: Seq<String>, choice: usize, back: Seq<char>) -> bool {
    &&& 1 <= choice
    &&& choice - 1 < options.len()
    &&& options[choice - 1]@ == back
}

/// The card after an answer: a right answer counts, and the card returns
/// after 20 up to 40 times its right answers less its wrong answers turns
/// while it has more right answers than wrong ones, else after 8 to 14
/// turns; a wrong answer counts and the card returns after 6 to 11 turns.
pub open spec fn answered(before: question, after: question, right: bool) -> bool {
    &&& after.front == before.front
    &&& after.back == before.back
    &&& right ==> {
        &&& after.corrects == before.corrects + 1
        &&& after.wrongs == before.wrongs
        &&& after.corrects > after.wrongs ==> 20 <= after.turns_until_repeat < 40 * after.corrects - after.wrongs
        &&& after.corrects <= after.wrongs ==> 8 <= after.turns_until_repeat < 15
    }
    &&& !right ==> {
        &&& after.corrects == before.corrects
        &&& after.wrongs == before.wrongs + 1
        &&& 6 <= after.turns_until_repeat < 12
    }
}

/// A drill: its cards in the order of the deck, and the card to serve when
/// none is due.
pub struct Drill {
    questions: Vec<question>,
    next_index: usize,
}

impl Drill {
    /// The cards.
    pub closed spec fn cards(&self) -> Seq<question> {
        self.questions@
    }

    /// The card served when none is due.
    pub closed spec fn next(&self) -> usize {
        self.next_index
    }

    /// Every card has a back.
    pub closed spec fn wf(&self) -> bool {
        forall|i: int| 0 <= i < self.questions@.len() ==> (#[trigger] self.questions@[i]).back@.len() > 0
    }

    /// A drill over the deck a text describes, every card fresh.
    pub fn from_text(text: &str) -> (r: Self)
        ensures
            r.wf(),
            r.cards().len() == deck_of(text@).len(),
            forall|i: int| 0 <= i < r.cards().len() ==> is_fresh_card(#[trigger] r.cards()[i], deck_of(text@)[i]),
            r.next() == 0,
    {
        let questions = parse_deck(text);
        proof {
            lemma_deck_has_backs(split_text(text@, card_break()));
        }
        Drill { questions, next_index: 0 }
    }

    /// How many cards the drill has.
    pub fn card_count(&self) -> (r: usize)
        ensures
            r == self.cards().len(),
    {
        self.questions.len()
    }

    /// A card of the drill.
    pub fn card(&self, index: usize) -> (r: &question)
        requires
            index < self.cards().len(),
        ensures
            *r == self.cards()[index as int],
    {
        &self.questions[index]
    }

    /// The card to serve: the first one that is due, else the next one in
    /// turn, which moves the turn on.
    pub fn pick(&mut self) -> (r: usize)
        requires
            old(self).wf(),
        ensures
            final(self).wf(),
            final(self).cards() == old(self).cards(),
            (exists|i: int| 0 <= i < old(self).cards().len() && (#[trigger] old(self).cards()[i]).turns_until_repeat == 0) ==> {
                &&& r < old(self).cards().len()
                &&& old(self).cards()[r as int].turns_until_repeat == 0
                &&& forall|j: int| 0 <= j < r ==> (#[trigger] old(self).cards()[j]).turns_until_repeat != 0
                &&& final(self).next() == old(self).next()
            },
            (forall|i: int| 0 <= i < old(self).cards().len() ==> (#[trigger] old(self).cards()[i]).turns_until_repeat != 0) ==> {
                &&& r == old(self).next()
                &&& final(self).next() == (if old(self).next() < usize::MAX { old(self).next() + 1 } else { usize::MAX as int })
            },
    {
        let ghost q0 = self.questions@;
        let ghost n0 = self.next_index;
        let mut i: usize = 0;
        while i < self.questions.len()
            invariant
                self.questions@ == q0,
                self.next_index == n0,
                q0 == old(self).cards(),
                n0 == old(self).next(),
                self.wf(),
                i <= self.questions@.len(),
                forall|j: int| 0 <= j < i ==> (#[trigger] self.questions@[j]).turns_until_repeat != 0,
            decreases self.questions@.len() - i,
        {
            if self.questions[i].turns_until_repeat == 0 {
                return i;
            }
            i = i + 1;
        }
        let r = self.next_index;
        self.next_index = self.next_index.saturating_add(1);
        r
    }

    /// The question for a card: with at least four cards, its front and four
    /// backs in random order, its own and those of three distinct other
    /// cards.
    pub fn prompt(&self, index: usize) -> (r: Prompt)
        requires
            self.wf(),
            self.cards().len() < 4 || index < self.cards().len(),
        ensures
            self.cards().len() < 4 ==> r is TooFew,
            self.cards().len() >= 4 ==> {
                &&& r matches Prompt::Ask { front, options, sources }
                &&& front == self.cards()[index as int].front
                &&& options@.len() == DISTRACTORS + 1
                &&& sources@.len() == DISTRACTORS + 1
                &&& sources@.no_duplicates()
                &&& sources@.contains(index)
                &&& forall|k: int| 0 <= k < sources@.len() ==> (#[trigger] sources@[k]) < self.cards().len()
                &&& forall|k: int| 0 <= k < options@.len() ==> (#[trigger] options@[k]) == self.cards()[sources@[k] as int].back
            },
    {
        let n = self.questions.len();
        if n < 4 {
            return Prompt::TooFew;
        }
        // The other cards that have a back.
        let mut others: Vec<usize> = Vec::new();
        let mut j: usize = 0;
        while j < n
            invariant
                n == self.questions@.len(),
                self.wf(),
                index < n,
                j <= n,
                others@.len() == (if index < j { j - 1 } else { j as int }),
                forall|k: int| 0 <= k < others@.len() ==> (#[trigger] others@[k]) < j && others@[k] != index,
                forall|k: int, l: int| 0 <= k < l < others@.len() ==> others@[k] < others@[l],
            decreases n - j,
        {
            if j != index && !self.questions[j].back.as_str().is_empty() {
                others.push(j);
            }
            j = j + 1;
        }
        let m = others.len();
        // Three distinct positions among the others, drawn at random.
        let mut used: Vec<usize> = Vec::new();
        let mut attempts: usize = 0;
        while used.len() < DISTRACTORS && attempts < DRAW_ATTEMPTS
            invariant
                m == others@.len(),
                m >= 3,
                used@.len() <= DISTRACTORS,
                used@.no_duplicates(),
                forall|k: int| 0 <= k < used@.len() ==> #[trigger] used@[k] < m,
            decreases DRAW_ATTEMPTS - attempts,
        {
            let r = random_in(0, m);
            if !contains_index(&used, r) {
                proof {
                    lemma_push_fresh_distinct(used@, r);
                }
                used.push(r);
            }
            attempts = attempts + 1;
        }
        // Should the draws keep colliding, the first unused positions.
        let mut p: usize = 0;
        while used.len() < DISTRACTORS && p < m
            invariant
                m == others@.len(),
                m >= 3,
                p <= m,
                used@.len() <= DISTRACTORS,
                used@.no_duplicates(),
                forall|k: int| 0 <= k < used@.len() ==> #[trigger] used@[k] < m,
                used@.len() < DISTRACTORS ==> forall|x: usize| x < p ==> used@.contains(x),
            decreases m - p,
        {
            let ghost prev = used@;
            assert(forall|x: usize| x < p ==> prev.contains(x));
            if !contains_index(&used, p) {
                proof {
                    lemma_push_fresh_distinct(used@, p);
                }
                used.push(p);
            }
            p = p + 1;
            proof {
                if used@.len() < DISTRACTORS {
                    assert forall|x: usize| x < p implies used@.contains(x) by {
                        if x + 1 < p {
                            assert(prev.contains(x));
                            let k = choose|k: int| 0 <= k < prev.len() && prev[k] == x;
                            assert(used@[k] == x);
                        } else if prev.contains(x) {
                            let k = choose|k: int| 0 <= k < prev.len() && prev[k] == x;
                            assert(used@[k] == x);
                        } else {
                            assert(used@[used@.len() - 1] == x);
                        }
                    }
                }
            }
        }
        proof {
            if used@.len() < DISTRACTORS {
                lemma_covers_below(used@, m);
            }
        }
        let mut picked: Vec<usize> = Vec::new();
        picked.push(others[used[0]]);
        picked.push(others[used[1]]);
        picked.push(others[used[2]]);
        picked.push(index);
        proof {
            let u = used@;
            assert(u[0] != u[1] && u[0] != u[2] && u[1] != u[2]);
            assert forall|k: int, l: int| 0 <= k < picked@.len() && 0 <= l < picked@.len() && k != l implies picked@[k] != picked@[l] by {
                if k < 3 && l < 3 {
                    if u[k] < u[l] {
                        assert(others@[u[k] as int] < others@[u[l] as int]);
                    } else {
                        assert(others@[u[l] as int] < others@[u[k] as int]);
                    }
                }
            }
            assert(picked@[3] == index);
        }
        let ghost before = picked@;
        shuffle_entries(&mut picked);
        proof {
            before.lemma_multiset_has_no_duplicates();
            picked@.lemma_multiset_has_no_duplicates_conv();
            broadcast use vstd::seq_lib::to_multiset_contains;
            assert(before.contains(index));
            assert(before.to_multiset().count(index) > 0);
            assert forall|k: int| 0 <= k < picked@.len() implies (#[trigger] picked@[k]) < n by {
                assert(picked@.contains(picked@[k]));
                assert(picked@.to_multiset().count(picked@[k]) > 0);
                assert(before.contains(picked@[k]));
            }
            vstd::seq_lib::to_multiset_len(before);
            vstd::seq_lib::to_multiset_len(picked@);
        }
        let mut options: Vec<String> = Vec::new();
        let mut k: usize = 0;
        while k < picked.len()
            invariant
                k <= picked@.len(),
                n == self.questions@.len(),
                forall|l: int| 0 <= l < picked@.len() ==> #[trigger] picked@[l] < n,
                options@.len() == k,
                forall|l: int| 0 <= l < k ==> (#[trigger] options@[l]) == self.questions@[picked@[l] as int].back,
            decreases picked@.len() - k,
        {
            options.push(self.questions[picked[k]].back.clone());
            k = k + 1;
        }
        Prompt::Ask { front: self.questions[index].front.clone(), options, sources: picked }
    }

    /// Records the player's pick (counted from one) for a card: right when
    /// the offered back at that place equals the card's back.
    pub fn answer(&mut self, index: usize, options: &Vec<String>, choice: usize) -> (right: bool)
        requires
            old(self).wf(),
            index < old(self).cards().len(),
            1 <= choice,
            ({
                let c = old(self).cards()[index as int];
                &&& is_right_choice(options@, choice, c.back@) ==> c.corrects < usize::MAX
                    && (c.corrects + 1 > c.wrongs ==> 40 * (c.corrects + 1) <= usize::MAX)
                &&& !is_right_choice(options@, choice, c.back@) ==> c.wrongs < usize::MAX
            }),
        ensures
            final(self).wf(),
            final(self).next() == old(self).next(),
            right == is_right_choice(options@, choice, old(self).cards()[index as int].back@),
            final(self).cards().len() == old(self).cards().len(),
            answered(old(self).cards()[index as int], final(self).cards()[index as int], right),
            forall|i: int| 0 <= i < old(self).cards().len() && i != index ==> final(self).cards()[i] == old(self).cards()[i],
    {
        let pos = choice - 1;
        let right = pos < options.len() && options[pos] == self.questions[index].back;
        let card = &self.questions[index];
        let mut corrects = card.corrects;
        let mut wrongs = card.wrongs;
        let turns: usize;
        if right {
            corrects = corrects + 1;
            if corrects > wrongs {
                turns = random_in(20, 40 * corrects - wrongs);
            } else {
                turns = random_in(8, 15);
            }
        } else {
            wrongs = wrongs + 1;
            turns = random_in(6, 12);
        }
        let updated = question {
            turns_until_repeat: turns,
            corrects,
            wrongs,
            front: card.front.clone(),
            back: card.back.clone(),
        };
        self.questions.set(index, updated);
        right
    }

    /// Ends a turn: every card that is not due comes one turn closer.
    pub fn end_turn(&mut self)
        requires
            old(self).wf(),
        ensures
            final(self).wf(),
            final(self).next() == old(self).next(),
            final(self).cards().len() == old(self).cards().len(),
            forall|i: int| 0 <= i < old(self).cards().len() ==> {
                let a = old(self).cards()[i];
                let b = #[trigger] final(self).cards()[i];
                &&& b.front == a.front
                &&& b.back == a.back
                &&& b.corrects == a.corrects
                &&& b.wrongs == a.wrongs
                &&& b.turns_until_repeat == (if a.turns_until_repeat > 0 { a.turns_until_repeat - 1 } else { 0 })
            },
    {
        let ghost before = self.questions@;
        let ghost n0 = self.next_index;
        let mut i: usize = 0;
        while i < self.questions.len()
            invariant
                self.next_index == n0,
                n0 == old(self).next(),
                before == old(self).cards(),
                i <= self.questions@.len(),
                self.questions@.len() == before.len(),
                forall|k: int| 0 <= k < before.len() ==> {
                    let a = before[k];
                    let b = #[trigger] self.questions@[k];
                    &&& b.front == a.front
                    &&& b.back == a.back
                    &&& b.corrects == a.corrects
                    &&& b.wrongs == a.wrongs
                    &&& b.turns_until_repeat == (if k < i && a.turns_until_repeat > 0 { (a.turns_until_repeat - 1) as usize } else { a.turns_until_repeat })
                },
            decreases self.questions@.len() - i,
        {
            if self.questions[i].turns_until_repeat > 0 {
                let card = &self.questions[i];
                let updated = question {
                    turns_until_repeat: card.turns_until_repeat - 1,
                    corrects: card.corrects,
                    wrongs: card.wrongs,
                    front: card.front.clone(),
                    back: card.back.clone(),
                };
                self.questions.set(i, updated);
            }
            i = i + 1;
        }
    }
}

/// Tells whether `x` is in `s`.
fn contains_index(s: &Vec<usize>, x: usize) -> (r: bool)
    ensures
        r == s@.contains(x),
{
    let mut i: usize = 0;
    while i < s.len()
        invariant
            i <= s@.len(),
            forall|j: int| 0 <= j < i ==> s@[j] != x,
        decreases s@.len() - i,
    {
        if s[i] == x {
            return true;
        }
        i = i + 1;
    }
    false
}

/// Appending a new entry keeps a list free of duplicates.
proof fn lemma_push_fresh_distinct(s: Seq<usize>, x: usize)
    requires
        s.no_duplicates(),
        !s.contains(x),
    ensures
        s.push(x).no_duplicates(),
{
    let t = s.push(x);
    assert forall|i: int, j: int| 0 <= i < t.len() && 0 <= j < t.len() && i != j implies t[i] != t[j] by {
        if i < s.len() && j < s.len() {
            assert(s[i] != s[j]);
        } else if i < s.len() {
            assert(s[i] != x);
        } else if j < s.len() {
            assert(s[j] != x);
        }
    }
}

/// Every card of a deck has a back.
proof fn lemma_deck_has_backs(pieces: Seq<Seq<char>>)
    ensures
        forall|i: int| 0 <= i < deck_from(pieces).len() ==> (#[trigger] deck_from(pieces)[i]).1.len() > 0,
    decreases pieces.len(),
{
    if pieces.len() > 0 {
        lemma_deck_has_backs(pieces.drop_last());
        let rest = deck_from(pieces.drop_last());
        assert forall|i: int| 0 <= i < deck_from(pieces).len() implies (#[trigger] deck_from(pieces)[i]).1.len() > 0 by {
            if i < rest.len() {
                assert(deck_from(pieces)[i] == rest[i]);
            }
        }
    }
}

} // verus!
