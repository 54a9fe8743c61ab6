//! The store of login tokens handed out so far, which only serves to never
//! hand out the same token twice. Small stores are kept as a list; past a
//! size they switch to a duplicate-free store, and back again when they
//! shrink.
use vstd::prelude::*;

use crate::ids::{all_completions_taken, completes, drawn_from, free_text, random_token, url_safe_alphabet, url_safe_symbols};
use crate::protocol::string_views;

verus! {

/// The views of a list of strings, as a set.
pub open spec fn text_set(v: Seq<String>) -> Set<Seq<char>> {
    string_views(v).to_set()
}

/// No text occurs twice in the list.
pub open spec fn distinct_texts(v: Seq<String>) -> bool {
    forall|i: int, j: int| 0 <= i < j < v.len() ==> v[i]@ != v[j]@
}

/// Size past which the list switches to the duplicate-free store.
pub const LIST_LIMIT: usize = 200;

/// Size under which the duplicate-free store switches back to a list.
pub const SET_FLOOR: usize = 180;

/// How many random tokens are drawn before the tokens are scanned in order
/// for a free one.
pub const TOKEN_ATTEMPTS: usize = 1000000;

/// The length of a token.
pub const TOKEN_LEN: usize = 20;

/// The tokens handed out so far.
pub struct TokenStorage {
    tokens_short: Vec<String>,
    tokens_long: Vec<String>,
    /// false while the tokens are kept in the list, true in the duplicate-free store.
    hash_mode: bool,
}

impl TokenStorage {
    /// The store is consistent: only the store of the current mode holds
    /// tokens, and the duplicate-free store holds no token twice.
    pub closed spec fn wf(&self) -> bool {
        &&& self.hash_mode ==> self.tokens_short@.len() == 0 && distinct_texts(self.tokens_long@)
        &&& !self.hash_mode ==> self.tokens_long@.len() == 0
    }

    /// The tokens handed out so far.
    pub closed spec fn tokens(&self) -> Set<Seq<char>> {
        if self.hash_mode { text_set(self.tokens_long@) } else { text_set(self.tokens_short@) }
    }

    /// The tokens are in the duplicate-free store.
    pub closed spec fn in_hash_mode(&self) -> bool {
        self.hash_mode
    }

    /// How many entries the store of the current mode holds.
    pub closed spec fn stored_len(&self) -> nat {
        if self.hash_mode { self.tokens_long@.len() } else { self.tokens_short@.len() }
    }

    /// An empty store in list mode.
    pub fn new() -> (r: Self)
        ensures
            r.wf(),
            r.tokens() == Set::<Seq<char>>::empty(),
            !r.in_hash_mode(),
    {
        let r = TokenStorage { tokens_short: Vec::new(), tokens_long: Vec::new(), hash_mode: false };
        assert(text_set(r.tokens_short@) =~= Set::<Seq<char>>::empty());
        r
    }

    /// Tells whether the token was handed out.
    pub fn exists_token(&self, token: String) -> (r: bool)
        requires
            self.wf(),
        ensures
            r == self.tokens().contains(token@),
    {
        if self.hash_mode {
            self.exists_long(token)
        } else {
            self.exists_short(token)
        }
    }

    fn exists_short(&self, token: String) -> (r: bool)
        ensures
            r == text_set(self.tokens_short@).contains(token@),
    {
        contains_text(&self.tokens_short, &token)
    }

    fn exists_long(&self, token: String) -> (r: bool)
        ensures
            r == text_set(self.tokens_long@).contains(token@),
    {
        contains_text(&self.tokens_long, &token)
    }

    /// Every token of `TOKEN_LEN` URL-safe characters was handed out.
    pub open spec fn every_token_taken(&self) -> bool {
        forall|t: Seq<char>| #[trigger] completes(t, Seq::empty(), url_safe_symbols(), TOKEN_LEN as nat) ==> self.tokens().contains(t)
    }

    /// A token that was not handed out yet: `TOKEN_LEN` URL-safe characters,
    /// drawn at random while the draw is taken and, after many draws, the
    /// first free one in the alphabet's order. Only when every such token
    /// was handed out is it built longer than all of them.
    fn generate_token(&self) -> (r: String)
        requires
            self.wf(),
        ensures
            !self.tokens().contains(r@),
            !self.every_token_taken() ==> r@.len() == TOKEN_LEN && drawn_from(r@, url_safe_symbols()),
    {
        let mut candidate = random_token(TOKEN_LEN);
        let mut attempts: usize = 1;
        while attempts < TOKEN_ATTEMPTS && self.exists_token(candidate.clone())
            invariant
                self.wf(),
                attempts <= TOKEN_ATTEMPTS,
                candidate@.len() == TOKEN_LEN,
                drawn_from(candidate@, url_safe_symbols()),
            decreases TOKEN_ATTEMPTS - attempts,
        {
            candidate = random_token(TOKEN_LEN);
            attempts = attempts + 1;
        }
        if !self.exists_token(candidate.clone()) {
            return candidate;
        }
        let store = if self.hash_mode { &self.tokens_long } else { &self.tokens_short };
        let alphabet = url_safe_alphabet();
        match free_text(store, &alphabet, TOKEN_LEN) {
            Some(t) => t,
            None => {
                proof {
                    assert forall|t: Seq<char>| #[trigger] completes(t, Seq::empty(), url_safe_symbols(), TOKEN_LEN as nat)
                        implies self.tokens().contains(t) by {
                        assert(string_views(store@).contains(t));
                    }
                }
                self.longer_than_all()
            },
        }
    }

    /// A token longer than every token handed out, hence not handed out.
    fn longer_than_all(&self) -> (r: String)
        requires
            self.wf(),
        ensures
            !self.tokens().contains(r@),
    {
        let store = if self.hash_mode { &self.tokens_long } else { &self.tokens_short };
        let mut out = String::new();
        let mut longest: usize = 0;
        let mut i: usize = 0;
        while i < store.len()
            invariant
                i <= store@.len(),
                longest == out@.len(),
                forall|k: int| 0 <= k < i ==> (#[trigger] store@[k])@.len() <= longest,
            decreases store@.len() - i,
        {
            let n = store[i].as_str().unicode_len();
            if n > longest {
                longest = n;
                out = store[i].clone();
            }
            i = i + 1;
        }
        proof {
            reveal_strlit("_");
        }
        out.append("_");
        proof {
            if self.tokens().contains(out@) {
                let j = choose|j: int| 0 <= j < store@.len() && #[trigger] string_views(store@)[j] == out@;
                assert(store@[j]@.len() <= longest);
            }
        }
        out
    }

    fn add_entry(&mut self, token: String)
        requires
            old(self).wf(),
        ensures
            final(self).wf(),
            final(self).tokens() == old(self).tokens().insert(token@),
            final(self).hash_mode == old(self).hash_mode,
            final(self).stored_len() <= old(self).stored_len() + 1,
    {
        broadcast use vstd::seq_lib::group_seq_properties;
        if self.hash_mode {
            if !contains_text(&self.tokens_long, &token) {
                let ghost before = self.tokens_long@;
                let ghost t = token;
                self.tokens_long.push(token);
                proof {
                    lemma_push_text_set(before, t);
                    assert(self.tokens_long@ =~= before.push(t));
                    assert forall|a: int, b: int| 0 <= a < b < self.tokens_long@.len() implies self.tokens_long@[a]@ != self.tokens_long@[b]@ by {
                        if b == self.tokens_long@.len() - 1 {
                            assert(string_views(before)[a] == before[a]@);
                        }
                    }
                }
            } else {
                assert(text_set(self.tokens_long@).insert(token@) =~= text_set(self.tokens_long@));
            }
        } else {
            let ghost before = self.tokens_short@;
            self.tokens_short.push(token);
            proof {
                lemma_push_text_set(before, self.tokens_short@.last());
                assert(self.tokens_short@ =~= before.push(self.tokens_short@.last()));
            }
        }
    }

    /// Hands out a new token: one that was not handed out before, which from
    /// now on counts as handed out.
    pub fn add_and_get_new_token(&mut self) -> (r: String)
        requires
            old(self).wf(),
        ensures
            final(self).wf(),
            !old(self).tokens().contains(r@),
            final(self).tokens() == old(self).tokens().insert(r@),
            !old(self).every_token_taken() ==> r@.len() == TOKEN_LEN && drawn_from(r@, url_safe_symbols()),
    {
        let token = self.generate_token();
        self.add_entry(token.clone());
        self.mode_shifter();
        token
    }

    /// Switches stores by size: a list past `LIST_LIMIT` entries becomes the
    /// duplicate-free store, which turns back into a list under `SET_FLOOR`.
    fn mode_shifter(&mut self)
        requires
            old(self).wf(),
        ensures
            final(self).wf(),
            final(self).tokens() == old(self).tokens(),
            !old(self).hash_mode ==> final(self).hash_mode == (old(self).tokens_short@.len() > LIST_LIMIT),
            old(self).hash_mode ==> final(self).hash_mode == (old(self).tokens_long@.len() >= SET_FLOOR),
    {
        if !self.hash_mode {
            if self.tokens_short.len() > LIST_LIMIT {
                self.convert_to_hash_set();
            }
        } else {
            if self.tokens_long.len() < SET_FLOOR {
                self.convert_to_vec();
            }
        }
    }

    /// Moves the tokens from the list into the duplicate-free store; nothing
    /// happens when they are already there.
    fn convert_to_hash_set(&mut self)
        requires
            old(self).wf(),
        ensures
            final(self).wf(),
            final(self).tokens() == old(self).tokens(),
            final(self).hash_mode,
            old(self).hash_mode ==> *final(self) == *old(self),
    {
        if !self.hash_mode {
            let ghost orig = self.tokens_short@;
            let steal = self.tokens_short.split_off(0);
            assert(steal@ =~= orig);
            let mut long: Vec<String> = Vec::new();
            let mut i: usize = 0;
            while i < steal.len()
                invariant
                    i <= steal@.len(),
                    distinct_texts(long@),
                    text_set(long@) == text_set(steal@.take(i as int)),
                decreases steal@.len() - i,
            {
                proof {
                    assert(steal@.take(i + 1) =~= steal@.take(i as int).push(steal@[i as int]));
                    lemma_push_text_set(steal@.take(i as int), steal@[i as int]);
                }
                if !contains_text(&long, &steal[i]) {
                    let ghost before = long@;
                    long.push(steal[i].clone());
                    proof {
                        lemma_push_text_set(before, steal@[i as int]);
                        assert(long@ =~= before.push(steal@[i as int]));
                        assert forall|a: int, b: int| 0 <= a < b < long@.len() implies long@[a]@ != long@[b]@ by {
                            if b == long@.len() - 1 {
                                assert(text_set(before).contains(before[a]@)) by {
                                    assert(string_views(before)[a] == before[a]@);
                                }
                            }
                        }
                    }
                } else {
                    assert(text_set(long@).insert(steal@[i as int]@) =~= text_set(long@));
                }
                i = i + 1;
            }
            proof {
                assert(steal@.take(steal@.len() as int) =~= steal@);
                assert(self.tokens_short@ =~= Seq::<String>::empty());
            }
            self.tokens_long = long;
            self.hash_mode = true;
        }
    }

    /// Moves the tokens from the duplicate-free store back into the list;
    /// nothing happens when they are already there.
    fn convert_to_vec(&mut self)
        requires
            old(self).wf(),
        ensures
            final(self).wf(),
            final(self).tokens() == old(self).tokens(),
            !final(self).hash_mode,
            !old(self).hash_mode ==> *final(self) == *old(self),
    {
        if self.hash_mode {
            let ghost orig = self.tokens_long@;
            let steal = self.tokens_long.split_off(0);
            assert(steal@ =~= orig);
            assert(self.tokens_long@ =~= Seq::<String>::empty());
            self.tokens_short = steal;
            self.hash_mode = false;
        }
    }
}

/// Appending a text adds its view to the set of views.
proof fn lemma_push_text_set(v: Seq<String>, s: String)
    ensures
        text_set(v.push(s)) == text_set(v).insert(s@),
{
    assert(string_views(v.push(s)) =~= string_views(v).push(s@));
    string_views(v).lemma_push_to_set_commute(s@);
}

/// Tells whether the list holds a text equal to `t`.
fn contains_text(v: &Vec<String>, t: &String) -> (r: bool)
    ensures
        r == text_set(v@).contains(t@),
{
    let mut i: usize = 0;
    while i < v.len()
        invariant
            i <= v@.len(),
            forall|k: int| 0 <= k < i ==> (#[trigger] v@[k])@ != t@,
        decreases v@.len() - i,
    {
        if v[i] == *t {
            assert(string_views(v@)[i as int] == t@);
            return true;
        }
        i = i + 1;
    }
    proof {
        if text_set(v@).contains(t@) {
            let k = choose|k: int| 0 <= k < v@.len() && #[trigger] string_views(v@)[k] == t@;
            assert(v@[k]@ == t@);
        }
    }
    false
}

/// The tokens of a store after the first `k` hand-outs are those `k`
/// tokens, none twice.
proof fn lemma_handed_out_prefix(states: Seq<Set<Seq<char>>>, results: Seq<Seq<char>>, k: int)
    requires
        0 <= k <= results.len(),
        states.len() == results.len() + 1,
        states[0] == Set::<Seq<char>>::empty(),
        forall|i: int| 0 <= i < results.len() ==> !states[i].contains(#[trigger] results[i]) && states[i + 1] == states[i].insert(results[i]),
    ensures
        states[k] == results.take(k).to_set(),
        results.take(k).no_duplicates(),
    decreases k,
{
    if k == 0 {
        assert(results.take(0).to_set() =~= Set::<Seq<char>>::empty());
    } else {
        lemma_handed_out_prefix(states, results, k - 1);
        let prev = results.take(k - 1);
        assert(results.take(k) =~= prev.push(results[k - 1]));
        assert(!states[k - 1].contains(results[k - 1]));
        assert(results.take(k).to_set() =~= prev.to_set().insert(results[k - 1])) by {
            assert forall|t: Seq<char>| results.take(k).to_set().contains(t) <==> prev.to_set().insert(results[k - 1]).contains(t) by {
                if results.take(k).contains(t) {
                    let j = choose|j: int| 0 <= j < results.take(k).len() && results.take(k)[j] == t;
                    if j < k - 1 {
                        assert(prev[j] == t);
                    }
                }
                if prev.contains(t) {
                    let j = choose|j: int| 0 <= j < prev.len() && prev[j] == t;
                    assert(results.take(k)[j] == t);
                }
                if t == results[k - 1] {
                    assert(results.take(k)[k - 1] == t);
                }
            }
        }
        assert forall|a: int, b: int| 0 <= a < results.take(k).len() && 0 <= b < results.take(k).len() && a != b
            implies results.take(k)[a] != results.take(k)[b] by {
            if a == k - 1 {
                assert(prev.contains(results.take(k)[b]));
            } else if b == k - 1 {
                assert(prev.contains(results.take(k)[a]));
            } else {
                assert(prev[a] == results.take(k)[a] && prev[b] == results.take(k)[b]);
            }
        }
    }
}

/// Law: from a new store, after `n` hand-outs the store holds exactly the
/// `n` tokens handed out, and no token was handed out twice. `states[i]` is
/// the store's tokens before hand-out `i` and `results[i]` its token; each
/// step is what `add_and_get_new_token` promises.
pub proof fn lemma_handed_out_tokens(states: Seq<Set<Seq<char>>>, results: Seq<Seq<char>>)
    requires
        states.len() == results.len() + 1,
        states[0] == Set::<Seq<char>>::empty(),
        forall|i: int| 0 <= i < results.len() ==> !states[i].contains(#[trigger] results[i]) && states[i + 1] == states[i].insert(results[i]),
    ensures
        states[results.len() as int] == results.to_set(),
        results.no_duplicates(),
{
    lemma_handed_out_prefix(states, results, results.len() as int);
    assert(results.take(results.len() as int) =~= results);
}

} // verus!
