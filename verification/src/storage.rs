//! Keyed stores of the server: a small key-value store and the register of
//! session tokens with the time each was issued or renewed.
use std::hash::Hash;
use vstd::prelude::*;

use crate::ids::{all_completions_taken, completes, drawn_from, free_completion, random_token, url_safe_alphabet, url_safe_symbols};
use crate::protocol::string_views;
use crate::token_storage::TOKEN_ATTEMPTS;

verus! {

/// Shared state of the server's tasks (they hold no shared data yet).
pub struct CrossThreadState {}

/// A key-value store kept as a list of pairs in insertion order.
pub struct OptimalDataStorage<D, G> {
    vec: Vec<(D, G)>,
    hash: Vec<(D, G)>,
    mode: bool,
    /// Switches to the other structure when reaching this many items.
    switch_threshold: usize,
    /// Leeway to not switch instantly around the threshold.
    allowance: usize,
}

/// A store of single values, kept as a list.
pub struct OptimalSingleDataStore<D> {
    vec: Vec<D>,
    hash: Vec<D>,
    /// True = set mode, false = list mode.
    mode: bool,
    switch_threshold: usize,
    allowance: usize,
}

/// The keys of a store: an equality that contracts can speak of, which the
/// store uses to find a key. It is an equivalence.
pub trait StoreKey: Sized {
    /// The two keys are the same key.
    spec fn same_key(&self, other: &Self) -> bool;

    /// Tells whether the two keys are the same key.
    fn key_eq(&self, other: &Self) -> (r: bool)
        ensures
            r == self.same_key(other),
    ;

    /// Being the same key is reflexive, symmetric and transitive.
    proof fn lemma_same_key_equivalence(a: Self, b: Self, c: Self)
        ensures
            a.same_key(&a),
            a.same_key(&b) ==> b.same_key(&a),
            a.same_key(&b) && b.same_key(&c) ==> a.same_key(&c),
    ;
}

/// Texts are the same key when they have the same characters.
impl StoreKey for String {
    open spec fn same_key(&self, other: &Self) -> bool {
        self@ == other@
    }

    fn key_eq(&self, other: &Self) -> (r: bool) {
        *self == *other
    }

    proof fn lemma_same_key_equivalence(a: Self, b: Self, c: Self) {
    }
}

/// The index of the first pair whose key equals `key`, or -1.
pub open spec fn first_key_index<D: StoreKey, G>(s: Seq<(D, G)>, key: D) -> int
    decreases s.len(),
{
    if s.len() == 0 {
        -1
    } else {
        let p = first_key_index(s.drop_last(), key);
        if p >= 0 {
            p
        } else if s.last().0.same_key(&key) {
            s.len() - 1
        } else {
            -1
        }
    }
}

/// The pairs whose key differs from `key`, in order.
pub open spec fn without_key<D: StoreKey, G>(s: Seq<(D, G)>, key: D) -> Seq<(D, G)> {
    s.filter(|p: (D, G)| !p.0.same_key(&key))
}

/// The index of the last pair whose key equals `key`, or -1.
pub open spec fn last_key_index<D: StoreKey, G>(s: Seq<(D, G)>, key: D) -> int
    decreases s.len(),
{
    if s.len() == 0 {
        -1
    } else if s.last().0.same_key(&key) {
        s.len() - 1
    } else {
        last_key_index(s.drop_last(), key)
    }
}

impl<D, G> OptimalDataStorage<D, G> where D: Eq + Hash + StoreKey, G: Default + Clone {
    /// The pairs of the store, in insertion order.
    pub closed spec fn pairs(&self) -> Seq<(D, G)> {
        self.vec@
    }

    /// The store keeps its pairs in the list.
    pub closed spec fn wf(&self) -> bool {
        !self.mode && self.hash@.len() == 0
    }

    /// The threshold the store was made with.
    pub closed spec fn threshold(&self) -> usize {
        self.switch_threshold
    }

    /// An empty store with the given switch threshold (the leeway is fixed).
    pub fn new(thresh: usize, allowance: usize) -> (r: Self)
        ensures
            r.wf(),
            r.pairs() == Seq::<(D, G)>::empty(),
            r.threshold() == thresh,
    {
        OptimalDataStorage { vec: Vec::new(), hash: Vec::new(), mode: false, switch_threshold: thresh, allowance: 10 }
    }

    /// Adds the pair (key, item) after the existing ones.
    pub fn push(&mut self, item: G, key: D)
        requires
            old(self).wf(),
        ensures
            final(self).wf(),
            final(self).pairs() == old(self).pairs().push((key, item)),
            final(self).threshold() == old(self).threshold(),
    {
        self.vec.push((key, item));
        if self.vec.len() > self.switch_threshold && self.vec.len() - self.switch_threshold > self.allowance {
            self.switch_to_hash();
        }
    }

    /// The item of the first pair with the given key, if any.
    pub fn get(&self, key: D) -> (r: Option<&G>)
        requires
            self.wf(),
        ensures
            ({
                let i = first_key_index(self.pairs(), key);
                &&& i < 0 ==> r is None
                &&& i >= 0 ==> r == Some(&self.pairs()[i].1)
            }),
    {
        let mut i: usize = 0;
        while i < self.vec.len()
            invariant
                i <= self.vec@.len(),
                first_key_index(self.vec@.take(i as int), key) == -1,
            decreases self.vec@.len() - i,
        {
            proof {
                assert(self.vec@.take(i + 1).drop_last() =~= self.vec@.take(i as int));
            }
            if self.vec[i].0.key_eq(&key) {
                proof {
                    lemma_first_key_extends(self.vec@, key, i + 1);
                }
                return Some(&self.vec[i].1);
            }
            i = i + 1;
        }
        proof {
            assert(self.vec@.take(self.vec@.len() as int) =~= self.vec@);
        }
        None
    }

    /// Removes every pair with the given key; found a copy of the item of
    /// the last one removed, if any.
    pub fn remove(&mut self, key: D) -> (r: Option<G>)
        requires
            old(self).wf(),
        ensures
            final(self).wf(),
            final(self).threshold() == old(self).threshold(),
            final(self).pairs() == without_key(old(self).pairs(), key),
            ({
                let i = last_key_index(old(self).pairs(), key);
                &&& i < 0 ==> r is None
                &&& i >= 0 ==> (r is Some && cloned(old(self).pairs()[i].1, r->0))
            }),
    {
        let steal = self.vec.split_off(0);
        let ghost orig = steal@;
        assert(orig =~= old(self).vec@);
        let mut kept: Vec<(D, G)> = Vec::new();
        let mut found: Option<G> = None;
        let mut rest = steal;
        let ghost mut taken: int = 0;
        proof {
            assert(orig.take(0) =~= Seq::<(D, G)>::empty());
            assert(rest@ =~= orig.skip(0));
        }
        while rest.len() > 0
            invariant
                0 <= taken <= orig.len(),
                taken + rest@.len() == orig.len(),
                rest@ == orig.skip(taken),
                kept@ == without_key(orig.take(taken), key),
                ({
                    let i = last_key_index(orig.take(taken), key);
                    &&& i < 0 ==> found is None
                    &&& i >= 0 ==> (found is Some && cloned(orig[i].1, found->0))
                }),
            decreases rest@.len(),
        {
            let x = rest.remove(0);
            proof {
                assert(x == orig[taken]);
                assert(orig.take(taken + 1) =~= orig.take(taken).push(x));
                assert(orig.take(taken + 1).drop_last() =~= orig.take(taken));
                reveal(Seq::filter);
            }
            if x.0.key_eq(&key) {
                found = Some(x.1.clone());
            } else {
                kept.push(x);
            }
            proof {
                taken = taken + 1;
                assert(rest@ =~= orig.skip(taken));
            }
        }
        proof {
            assert(orig.take(taken) =~= orig);
        }
        self.vec = kept;
        match found {
            Some(g) => Some(g),
            _ => None,
        }
    }

    /// Moves the pairs of the set store into the list, in place of what the
    /// list held; it acts while the list is in use, where the set store is
    /// empty. Nothing calls it, as the store never leaves the list.
    fn switch_to_vec(&mut self)
        requires
            old(self).wf(),
        ensures
            final(self).wf(),
            final(self).pairs() == Seq::<(D, G)>::empty(),
            final(self).threshold() == old(self).threshold(),
    {
        if !self.mode {
            let hash = self.hash.split_off(0);
            self.vec = hash;
        }
    }

    /// Would move the pairs from the list into the set store; the store only
    /// switches when the set store is in use, which it never is.
    fn switch_to_hash(&mut self)
        requires
            old(self).wf(),
        ensures
            *final(self) == *old(self),
    {
        if self.mode {
            let vec = self.vec.split_off(0);
            self.hash = vec;
        }
    }
}

/// Once the first match lies in a prefix, longer prefixes keep it.
proof fn lemma_first_key_extends<D: StoreKey, G>(s: Seq<(D, G)>, key: D, n: int)
    requires
        0 <= n <= s.len(),
        first_key_index(s.take(n), key) >= 0 || (n > 0 && s[n - 1].0.same_key(&key) && first_key_index(s.take(n - 1), key) == -1),
    ensures
        first_key_index(s, key) == (if first_key_index(s.take(n), key) >= 0 { first_key_index(s.take(n), key) } else { n - 1 }),
        first_key_index(s.take(n), key) >= 0,
    decreases s.len() - n,
{
    if n > 0 {
        assert(s.take(n).drop_last() =~= s.take(n - 1));
    }
    if n == s.len() {
        assert(s.take(n) =~= s);
    } else {
        assert(s.take(n + 1).drop_last() =~= s.take(n));
        lemma_first_key_extends(s, key, n + 1);
    }
}

/// Law: a new store finds no key.
pub proof fn lemma_new_store_finds_nothing<D: StoreKey, G>(probe: D)
    ensures
        first_key_index(Seq::<(D, G)>::empty(), probe) == -1,
{
}

/// Law: what the store finds for a key after a push. A key that some pair
/// already had still finds that pair; a key that no pair had finds the
/// pushed pair exactly when it is the pushed key. So the pushed key is
/// always found afterwards, and the pushed item when it was not held.
pub proof fn lemma_get_after_push<D: StoreKey, G>(s: Seq<(D, G)>, key: D, item: G, probe: D)
    ensures
        first_key_index(s.push((key, item)), probe) == (if first_key_index(s, probe) >= 0 {
            first_key_index(s, probe)
        } else if key.same_key(&probe) {
            s.len() as int
        } else {
            -1
        }),
        first_key_index(s, key) < 0 ==> first_key_index(s.push((key, item)), key) == s.len(),
        first_key_index(s.push((key, item)), key) >= 0,
{
    assert(s.push((key, item)).drop_last() =~= s);
    D::lemma_same_key_equivalence(key, key, key);
}

/// Law: once a key is removed, no pair has it.
pub proof fn lemma_removed_key_gone<D: StoreKey, G>(s: Seq<(D, G)>, key: D)
    ensures
        first_key_index(without_key(s, key), key) < 0,
    decreases s.len(),
{
    reveal(Seq::filter);
    if s.len() > 0 {
        lemma_removed_key_gone(s.drop_last(), key);
        let rest = without_key(s.drop_last(), key);
        if !s.last().0.same_key(&key) {
            assert(without_key(s, key).drop_last() =~= rest);
        } else {
            assert(without_key(s, key) =~= rest);
        }
    } else {
        assert(without_key(s, key) =~= s);
    }
}

/// Law: removing a key keeps what every other key finds: it is found after
/// the removal exactly when it was found before, with the same item.
pub proof fn lemma_remove_keeps_other_keys<D: StoreKey, G>(s: Seq<(D, G)>, key: D, probe: D)
    requires
        !key.same_key(&probe),
    ensures
        first_key_index(without_key(s, key), probe) >= 0 <==> first_key_index(s, probe) >= 0,
        first_key_index(s, probe) >= 0 ==> without_key(s, key)[first_key_index(without_key(s, key), probe)].1 == s[first_key_index(s, probe)].1,
    decreases s.len(),
{
    reveal(Seq::filter);
    if s.len() > 0 {
        lemma_remove_keeps_other_keys(s.drop_last(), key, probe);
        let rest = without_key(s.drop_last(), key);
        let last = s.last();
        D::lemma_same_key_equivalence(last.0, key, probe);
        D::lemma_same_key_equivalence(key, last.0, probe);
        lemma_first_key_found(rest, probe);
        lemma_first_key_found(s.drop_last(), probe);
        let fd = first_key_index(s.drop_last(), probe);
        let fr = first_key_index(rest, probe);
        if fd >= 0 {
            assert(s[fd] == s.drop_last()[fd]);
        }
        if !last.0.same_key(&key) {
            assert(without_key(s, key) =~= rest.push(last));
            assert(rest.push(last).drop_last() =~= rest);
            if fr >= 0 {
                assert(rest.push(last)[fr] == rest[fr]);
            }
            assert(rest.push(last)[rest.len() as int] == last);
        } else {
            assert(without_key(s, key) =~= rest);
            assert(!last.0.same_key(&probe));
        }
    } else {
        assert(without_key(s, key) =~= s);
    }
}

/// When the key is found, the first pair with it is one with the key.
proof fn lemma_first_key_found<D: StoreKey, G>(s: Seq<(D, G)>, key: D)
    ensures
        first_key_index(s, key) >= 0 ==> first_key_index(s, key) < s.len() && s[first_key_index(s, key)].0.same_key(&key),
        first_key_index(s, key) < 0 ==> forall|i: int| 0 <= i < s.len() ==> !(#[trigger] s[i]).0.same_key(&key),
        first_key_index(s, key) >= 0 ==> forall|i: int| 0 <= i < first_key_index(s, key) ==> !(#[trigger] s[i]).0.same_key(&key),
    decreases s.len(),
{
    if s.len() > 0 {
        lemma_first_key_found(s.drop_last(), key);
        assert forall|i: int| 0 <= i < s.len() - 1 implies s[i] == s.drop_last()[i] by {}
    }
}

/// Law: when no two pairs share the key (each key pushed at most once since
/// it was last removed), the pair `remove` copies the item of, the last with
/// the key, is the one `get` finds, the first with it; so `remove` gives
/// what `get` found, and afterwards the key is found no more.
pub proof fn lemma_single_pair_remove_gives_get<D: StoreKey, G>(s: Seq<(D, G)>, key: D)
    requires
        forall|i: int, j: int| 0 <= i < j < s.len() ==> !((#[trigger] s[i]).0.same_key(&key) && (#[trigger] s[j]).0.same_key(&key)),
    ensures
        last_key_index(s, key) == first_key_index(s, key),
        first_key_index(without_key(s, key), key) < 0,
    decreases s.len(),
{
    lemma_removed_key_gone(s, key);
    if s.len() > 0 {
        let init = s.drop_last();
        assert forall|i: int, j: int| 0 <= i < j < init.len() implies !((#[trigger] init[i]).0.same_key(&key) && (#[trigger] init[j]).0.same_key(&key)) by {
            assert(init[i] == s[i] && init[j] == s[j]);
        }
        lemma_single_pair_remove_gives_get(init, key);
        lemma_first_key_found(init, key);
        if s.last().0.same_key(&key) {
            if first_key_index(init, key) >= 0 {
                let f = first_key_index(init, key);
                assert(init[f] == s[f]);
                assert(s[f].0.same_key(&key) && s[s.len() - 1].0.same_key(&key));
            }
        }
    }
}

/// Six hours, in milliseconds: how long a session token stays valid.
pub const SESSION_LIFETIME_MS: i64 = 21600000;

/// The tokens handed out so far, each with the time (milliseconds since the
/// epoch) it was issued or last renewed. Tokens begin with the server's
/// location code.
pub struct SessionTokenStorage {
    location_code: String,
    used_session_tokens: Vec<(String, i64)>,
}

/// No token appears twice.
pub open spec fn distinct_tokens(s: Seq<(String, i64)>) -> bool {
    forall|i: int, j: int| 0 <= i < j < s.len() ==> s[i].0@ != s[j].0@
}

/// The tokens of the register.
pub open spec fn token_texts(s: Seq<(String, i64)>) -> Set<Seq<char>> {
    token_views(s).to_set()
}

/// The tokens of the register, in order.
pub open spec fn token_views(s: Seq<(String, i64)>) -> Seq<Seq<char>> {
    s.map_values(|e: (String, i64)| e.0@)
}

/// The token has not outlived its lifetime at time `now`.
pub open spec fn still_valid(issued: i64, now: i64) -> bool {
    now - issued <= SESSION_LIFETIME_MS
}

/// The entries still valid at time `now`, in order.
pub open spec fn valid_at(s: Seq<(String, i64)>, now: i64) -> Seq<(String, i64)> {
    s.filter(|e: (String, i64)| still_valid(e.1, now))
}

/// `after` holds an entry exactly when `before` does and no more than the
/// lifetime has passed between its time and `now`.
pub open spec fn keeps_exactly_fresh(before: Seq<(String, i64)>, after: Seq<(String, i64)>, now: i64) -> bool {
    forall|e: (String, i64)| #[trigger] after.contains(e) <==> (before.contains(e) && now - e.1 <= SESSION_LIFETIME_MS)
}

/// Law: expiring at time `now` keeps an entry exactly when it was in the
/// register and no more than the lifetime has passed since its own time,
/// wherever it stands in the register.
pub proof fn lemma_expiry_keeps_exactly_the_fresh(s: Seq<(String, i64)>, now: i64)
    ensures
        forall|e: (String, i64)| #[trigger] valid_at(s, now).contains(e) <==> (s.contains(e) && now - e.1 <= SESSION_LIFETIME_MS),
{
    broadcast use vstd::seq_lib::group_filter_ensures;
    let p = |e: (String, i64)| still_valid(e.1, now);
    assert forall|e: (String, i64)| #[trigger] valid_at(s, now).contains(e) <==> (s.contains(e) && now - e.1 <= SESSION_LIFETIME_MS) by {
        if valid_at(s, now).contains(e) {
            s.lemma_filter_contains_rev(p, e);
            let i = choose|i: int| 0 <= i < s.filter(p).len() && s.filter(p)[i] == e;
            assert(p(s.filter(p)[i]));
        }
        if s.contains(e) && now - e.1 <= SESSION_LIFETIME_MS {
            let i = choose|i: int| 0 <= i < s.len() && s[i] == e;
            s.lemma_filter_contains(p, i);
        }
    }
}

/// The time now, in milliseconds since the epoch.
///
/// Trusted: `chrono::Utc::now` and `timestamp_millis`. The value comes from
/// the clock, so nothing is stated of it.
#[verifier::external_body]
pub(crate) fn now_millis() -> i64 {
    chrono::Utc::now().timestamp_millis()
}

impl SessionTokenStorage {
    /// The register holds each token once.
    pub closed spec fn wf(&self) -> bool {
        distinct_tokens(self.used_session_tokens@)
    }

    /// The location code that begins every token.
    pub closed spec fn location(&self) -> Seq<char> {
        self.location_code@
    }

    /// The tokens with their times, in the order they were first issued.
    pub closed spec fn entries(&self) -> Seq<(String, i64)> {
        self.used_session_tokens@
    }

    /// An empty register for the given location code.
    pub fn new(location_code: String) -> (r: Self)
        ensures
            r.wf(),
            r.location() == location_code@,
            r.entries() == Seq::<(String, i64)>::empty(),
    {
        SessionTokenStorage { location_code, used_session_tokens: Vec::new() }
    }

    fn position(&self, token: &str) -> (r: Option<usize>)
        ensures
            match r {
                Some(i) => i < self.entries().len() && self.entries()[i as int].0@ == token@,
                None => !token_texts(self.entries()).contains(token@),
            },
    {
        let mut i: usize = 0;
        while i < self.used_session_tokens.len()
            invariant
                i <= self.used_session_tokens@.len(),
                forall|k: int| 0 <= k < i ==> (#[trigger] self.used_session_tokens@[k]).0@ != token@,
            decreases self.used_session_tokens@.len() - i,
        {
            if crate::text::str_eq(self.used_session_tokens[i].0.as_str(), token) {
                return Some(i);
            }
            i = i + 1;
        }
        proof {
            if token_texts(self.entries()).contains(token@) {
                let k = choose|k: int| 0 <= k < self.entries().len() && #[trigger] token_views(self.entries())[k] == token@;
                assert(self.entries()[k].0@ == token@);
            }
        }
        None
    }

    /// Every token made of the location code and `len` URL-safe characters
    /// is in the register.
    pub open spec fn every_token_taken(&self, len: nat) -> bool {
        all_completions_taken(token_views(self.entries()), self.location(), url_safe_symbols(), self.location().len() + len as nat)
    }

    /// The tokens of the register, as a list.
    fn token_list(&self) -> (r: Vec<String>)
        ensures
            string_views(r@) == token_views(self.entries()),
    {
        let mut out: Vec<String> = Vec::new();
        let mut i: usize = 0;
        while i < self.used_session_tokens.len()
            invariant
                i <= self.used_session_tokens@.len(),
                out@.len() == i,
                forall|k: int| 0 <= k < i ==> (#[trigger] out@[k])@ == self.used_session_tokens@[k].0@,
            decreases self.used_session_tokens@.len() - i,
        {
            out.push(self.used_session_tokens[i].0.clone());
            i = i + 1;
        }
        proof {
            assert(string_views(out@) =~= token_views(self.used_session_tokens@));
        }
        out
    }

    /// The characters of the location code.
    fn location_chars(&self) -> (r: Vec<char>)
        ensures
            r@ == self.location(),
    {
        let code = self.location_code.as_str();
        let n = code.unicode_len();
        let mut out: Vec<char> = Vec::new();
        let mut i: usize = 0;
        while i < n
            invariant
                i <= n,
                n == self.location_code@.len(),
                code@ == self.location_code@,
                out@ =~= self.location_code@.take(i as int),
            decreases n - i,
        {
            out.push(code.get_char(i));
            i = i + 1;
            proof {
                assert(out@ =~= self.location_code@.take(i as int));
            }
        }
        proof {
            assert(self.location_code@.take(i as int) =~= self.location_code@);
        }
        out
    }

    /// Reserves and returns a new session token: the location code followed
    /// by `len` URL-safe characters, drawn at random while the token is
    /// taken and, after many draws, the first free one in the alphabet's
    /// order; issued now. Only when every such token is taken is it built
    /// longer than all of them.
    pub fn get_new_session_token(&mut self, len: usize) -> (r: String)
        requires
            old(self).wf(),
            0 < len <= usize::MAX / 8,
        ensures
            final(self).wf(),
            !token_texts(old(self).entries()).contains(r@),
            final(self).entries().len() == old(self).entries().len() + 1,
            final(self).entries().drop_last() == old(self).entries(),
            final(self).entries().last().0@ == r@,
            r@.len() > old(self).location().len(),
            r@.subrange(0, old(self).location().len() as int) == old(self).location(),
            final(self).location() == old(self).location(),
            !old(self).every_token_taken(len as nat) && old(self).location().len() + len <= usize::MAX ==> completes(r@, old(self).location(), url_safe_symbols(), old(self).location().len() + len as nat),
    {
        self.get_new_session_token_retry(len, 0)
    }

    /// The same as `get_new_session_token`, counting draws from `attempt`.
    pub fn get_new_session_token_retry(&mut self, len: usize, attempt: usize) -> (r: String)
        requires
            old(self).wf(),
            0 < len <= usize::MAX / 8,
        ensures
            final(self).wf(),
            !token_texts(old(self).entries()).contains(r@),
            final(self).entries().len() == old(self).entries().len() + 1,
            final(self).entries().drop_last() == old(self).entries(),
            final(self).entries().last().0@ == r@,
            r@.len() > old(self).location().len(),
            r@.subrange(0, old(self).location().len() as int) == old(self).location(),
            final(self).location() == old(self).location(),
            !old(self).every_token_taken(len as nat) && old(self).location().len() + len <= usize::MAX ==> completes(r@, old(self).location(), url_safe_symbols(), old(self).location().len() + len as nat),
    {
        let mut attempts = attempt;
        let mut candidate = self.location_code.clone();
        candidate.append(random_token(len).as_str());
        while attempts < TOKEN_ATTEMPTS && self.position(candidate.as_str()).is_some()
            invariant
                self.wf(),
                0 < len <= usize::MAX / 8,
                candidate@.len() == self.location().len() + len,
                candidate@.subrange(0, self.location().len() as int) == self.location(),
                forall|i: int| self.location().len() <= i < candidate@.len() ==> url_safe_symbols().contains(#[trigger] candidate@[i]),
            decreases TOKEN_ATTEMPTS - attempts,
        {
            candidate = self.location_code.clone();
            candidate.append(random_token(len).as_str());
            attempts = attempts + 1;
        }
        if self.position(candidate.as_str()).is_none() {
            proof {
                assert(completes(candidate@, self.location(), url_safe_symbols(), self.location().len() + len as nat)) by {
                    assert forall|i: int| 0 <= i < self.location().len() implies #[trigger] candidate@[i] == self.location()[i] by {
                        assert(candidate@.subrange(0, self.location().len() as int)[i] == candidate@[i]);
                    }
                }
            }
            return self.insert(candidate);
        }
        let token = self.scan_for_token(len);
        self.insert(token)
    }

    /// A token the register does not hold, beginning with the location code:
    /// the first free one of `len` further URL-safe characters in the
    /// alphabet's order, or, when all of those are taken, one longer than
    /// every token held.
    fn scan_for_token(&self, len: usize) -> (r: String)
        requires
            len > 0,
        ensures
            !token_texts(self.entries()).contains(r@),
            r@.len() > self.location().len(),
            r@.subrange(0, self.location().len() as int) == self.location(),
            !self.every_token_taken(len as nat) && self.location().len() + len <= usize::MAX ==> completes(r@, self.location(), url_safe_symbols(), self.location().len() + len as nat),
    {
        let n = self.location_code.as_str().unicode_len();
        if n > usize::MAX - len {
            return self.longer_than_all();
        }
        let taken = self.token_list();
        let mut prefix = self.location_chars();
        let alphabet = url_safe_alphabet();
        match free_completion(&taken, &mut prefix, &alphabet, n + len) {
            Some(t) => {
                proof {
                    assert(t@.subrange(0, self.location().len() as int) =~= self.location());
                }
                t
            },
            None => self.longer_than_all(),
        }
    }

    /// A token longer than every token in the register, beginning with the
    /// location code.
    fn longer_than_all(&self) -> (r: String)
        ensures
            !token_texts(self.entries()).contains(r@),
            r@.len() > self.location().len(),
            r@.subrange(0, self.location().len() as int) == self.location(),
    {
        let mut out = String::new();
        let mut longest: usize = 0;
        let mut i: usize = 0;
        while i < self.used_session_tokens.len()
            invariant
                i <= self.used_session_tokens@.len(),
                longest == out@.len(),
                forall|k: int| 0 <= k < i ==> (#[trigger] self.used_session_tokens@[k]).0@.len() <= longest,
            decreases self.used_session_tokens@.len() - i,
        {
            let n = self.used_session_tokens[i].0.as_str().unicode_len();
            if n > longest {
                longest = n;
                out = self.used_session_tokens[i].0.clone();
            }
            i = i + 1;
        }
        proof {
            reveal_strlit("_");
        }
        let mut token = self.location_code.clone();
        token.append(out.as_str());
        token.append("_");
        proof {
            assert(token@.subrange(0, self.location().len() as int) =~= self.location());
            if token_texts(self.entries()).contains(token@) {
                let k = choose|k: int| 0 <= k < self.entries().len() && #[trigger] token_views(self.entries())[k] == token@;
                assert(self.entries()[k].0@.len() <= longest);
            }
        }
        token
    }

    /// Records the token as issued now; the caller makes sure it is new.
    fn insert(&mut self, session_token: String) -> (r: String)
        requires
            old(self).wf(),
            !token_texts(old(self).entries()).contains(session_token@),
        ensures
            final(self).wf(),
            r == session_token,
            final(self).entries().len() == old(self).entries().len() + 1,
            final(self).entries().drop_last() == old(self).entries(),
            final(self).entries().last().0 == session_token,
            final(self).location() == old(self).location(),
    {
        let now = now_millis();
        let ghost before = self.used_session_tokens@;
        self.used_session_tokens.push((session_token.clone(), now));
        proof {
            assert(self.used_session_tokens@.drop_last() =~= before);
            assert forall|i: int, j: int| 0 <= i < j < self.used_session_tokens@.len() implies
                self.used_session_tokens@[i].0@ != self.used_session_tokens@[j].0@ by {
                if j == before.len() {
                    assert(token_views(before)[i] == before[i].0@);
                }
            }
        }
        session_token
    }

    /// Drops the tokens that have outlived their lifetime, as of now.
    pub fn token_expiration(&mut self)
        requires
            old(self).wf(),
        ensures
            final(self).wf(),
            final(self).location() == old(self).location(),
            exists|now: i64| final(self).entries() == #[trigger] valid_at(old(self).entries(), now),
            exists|now: i64| #[trigger] keeps_exactly_fresh(old(self).entries(), final(self).entries(), now),
    {
        let now = now_millis();
        self.expire_tokens_at(now);
        assert(keeps_exactly_fresh(old(self).entries(), self.entries(), now));
    }

    /// Keeps exactly the tokens still valid at time `now`, in order.
    pub fn expire_tokens_at(&mut self, now: i64)
        requires
            old(self).wf(),
        ensures
            final(self).wf(),
            final(self).location() == old(self).location(),
            final(self).entries() == valid_at(old(self).entries(), now),
            forall|e: (String, i64)| #[trigger] final(self).entries().contains(e)
                <==> (old(self).entries().contains(e) && now - e.1 <= SESSION_LIFETIME_MS),
    {
        proof {
            lemma_expiry_keeps_exactly_the_fresh(old(self).entries(), now);
        }
        let steal = self.used_session_tokens.split_off(0);
        let ghost orig = steal@;
        assert(orig =~= old(self).used_session_tokens@);
        let mut kept: Vec<(String, i64)> = Vec::new();
        let mut i: usize = 0;
        while i < steal.len()
            invariant
                i <= steal@.len(),
                steal@ == orig,
                distinct_tokens(orig),
                kept@ == orig.take(i as int).filter(|e: (String, i64)| still_valid(e.1, now)),
            decreases steal@.len() - i,
        {
            proof {
                assert(orig.take(i + 1).drop_last() =~= orig.take(i as int));
                reveal(Seq::filter);
            }
            let issued = steal[i].1;
            if (now as i128) - (issued as i128) <= (SESSION_LIFETIME_MS as i128) {
                kept.push((steal[i].0.clone(), issued));
            }
            i = i + 1;
        }
        proof {
            assert(orig.take(orig.len() as int) =~= orig);
            lemma_filter_keeps_distinct(orig, |e: (String, i64)| still_valid(e.1, now));
        }
        self.used_session_tokens = kept;
    }

    /// Restarts the token's lifetime now; false when the token is unknown.
    pub fn renew_token(&mut self, token: &str) -> (r: bool)
        requires
            old(self).wf(),
        ensures
            final(self).wf(),
            final(self).location() == old(self).location(),
            r == token_texts(old(self).entries()).contains(token@),
            final(self).entries().len() == old(self).entries().len(),
            forall|i: int| 0 <= i < old(self).entries().len() ==> (#[trigger] final(self).entries()[i]).0 == old(self).entries()[i].0,
            forall|i: int| 0 <= i < old(self).entries().len() && old(self).entries()[i].0@ != token@
                ==> (#[trigger] final(self).entries()[i]).1 == old(self).entries()[i].1,
    {
        let now = now_millis();
        self.renew_token_at(token, now)
    }

    /// Sets the token's time to `now`; false when the token is unknown.
    pub fn renew_token_at(&mut self, token: &str, now: i64) -> (r: bool)
        requires
            old(self).wf(),
        ensures
            final(self).wf(),
            final(self).location() == old(self).location(),
            r == token_texts(old(self).entries()).contains(token@),
            final(self).entries().len() == old(self).entries().len(),
            forall|i: int| 0 <= i < old(self).entries().len() ==> {
                &&& (#[trigger] final(self).entries()[i]).0 == old(self).entries()[i].0
                &&& final(self).entries()[i].1 == (if old(self).entries()[i].0@ == token@ { now } else { old(self).entries()[i].1 })
            },
    {
        match self.position(token) {
            Some(i) => {
                let ghost before = self.used_session_tokens@;
                let entry = self.used_session_tokens.remove(i);
                self.used_session_tokens.insert(i, (entry.0, now));
                proof {
                    assert(self.used_session_tokens@ =~= before.update(i as int, (before[i as int].0, now)));
                    assert(token_views(before)[i as int] == token@);
                }
                true
            },
            None => {
                proof {
                    assert forall|k: int| 0 <= k < self.used_session_tokens@.len() implies self.used_session_tokens@[k].0@ != token@ by {
                        assert(token_views(self.used_session_tokens@)[k] == self.used_session_tokens@[k].0@);
                    }
                }
                false
            },
        }
    }
}

/// Keeping some entries of a register keeps its tokens distinct.
proof fn lemma_filter_keeps_distinct(s: Seq<(String, i64)>, keep: spec_fn((String, i64)) -> bool)
    requires
        distinct_tokens(s),
    ensures
        distinct_tokens(s.filter(keep)),
    decreases s.len(),
{
    reveal(Seq::filter);
    if s.len() > 0 {
        let init = s.drop_last();
        assert forall|i: int, j: int| 0 <= i < j < init.len() implies init[i].0@ != init[j].0@ by {
            assert(init[i] == s[i] && init[j] == s[j]);
        }
        lemma_filter_keeps_distinct(init, keep);
        if keep(s.last()) {
            let f = init.filter(keep);
            assert forall|i: int, j: int| 0 <= i < j < f.push(s.last()).len() implies f.push(s.last())[i].0@ != f.push(s.last())[j].0@ by {
                if j == f.len() {
                    assert(f.contains(f[i]));
                    init.lemma_filter_contains_rev(keep, f[i]);
                    let k = choose|k: int| 0 <= k < init.len() && init[k] == f[i];
                    assert(s[k] == init[k]);
                }
            }
        }
    }
}

} // verus!
