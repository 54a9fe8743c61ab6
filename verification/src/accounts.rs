//! Accounts of the note-card service: who is logged in, found by username,
//! email or session token, and the decisions of registering and logging in.
use vstd::prelude::*;
use vstd::string::StrSliceExecFns;

use crate::ids::{completes, drawn_from, free_text, is_uuid_v4_text, random_token, random_uuid_text, url_safe_alphabet, url_safe_symbols};
use crate::protocol::string_views;
use crate::token_storage::TOKEN_ATTEMPTS;
use crate::records::{argon2_accepts, phc_parses};
use crate::text::owned;

verus! {

/// The reply of the account service: success and, on success, the session
/// token; on failure, the reason.
pub struct AuthReply {
    pub success: bool,
    pub mystery: String,
}

/// A session token and when it expires (milliseconds since the epoch).
pub struct AuthToken {
    pub body: String,
    pub expiry: i64,
}

/// An ip a user logged in from, and when first.
pub struct IpInfo {
    pub body: String,
    pub initial_login: i64,
}

/// A logged-in user.
pub struct User {
    pub username: String,
    pub email: String,
    pub login_time: i64,
    pub ips: Vec<IpInfo>,
    pub auth_tokens: Vec<AuthToken>,
}

/// Which user a key leads to: an index into the manager's users.
pub type UserId = usize;

/// The map built from a list of (key, user) pairs; later pairs win.
pub open spec fn pairs_map(s: Seq<(String, UserId)>) -> Map<Seq<char>, UserId>
    decreases s.len(),
{
    if s.len() == 0 {
        Map::empty()
    } else {
        pairs_map(s.drop_last()).insert(s.last().0@, s.last().1)
    }
}

/// A map from texts to numbers (user ids, counters), kept as a list of pairs
/// with distinct keys.
pub struct TextMap {
    entries: Vec<(String, UserId)>,
}

/// A lookup result as a map lookup.
pub open spec fn lookup(m: Map<Seq<char>, UserId>, key: Seq<char>) -> Option<UserId> {
    if m.contains_key(key) { Some(m[key]) } else { None }
}

impl TextMap {
    /// The keys of the list are distinct.
    pub closed spec fn wf(&self) -> bool {
        forall|i: int, j: int| 0 <= i < j < self.entries@.len() ==> self.entries@[i].0@ != self.entries@[j].0@
    }

    /// What the map holds.
    pub closed spec fn view(&self) -> Map<Seq<char>, UserId> {
        pairs_map(self.entries@)
    }

    /// An empty map.
    pub fn new() -> (r: Self)
        ensures
            r.wf(),
            r.view() == Map::<Seq<char>, UserId>::empty(),
    {
        TextMap { entries: Vec::new() }
    }

    /// The user that the key leads to.
    pub fn get(&self, key: &str) -> (r: Option<UserId>)
        requires
            self.wf(),
        ensures
            r == lookup(self.view(), key@),
    {
        let mut i: usize = 0;
        while i < self.entries.len()
            invariant
                i <= self.entries@.len(),
                self.wf(),
                forall|k: int| 0 <= k < i ==> (#[trigger] self.entries@[k]).0@ != key@,
            decreases self.entries@.len() - i,
        {
            if crate::text::str_eq(self.entries[i].0.as_str(), key) {
                proof {
                    lemma_pairs_map_at(self.entries@, i as int);
                }
                return Some(self.entries[i].1);
            }
            i = i + 1;
        }
        proof {
            lemma_pairs_map_absent(self.entries@, key@);
        }
        None
    }

    /// Makes the key lead to the user, replacing what it led to.
    pub fn insert(&mut self, key: String, user: UserId)
        requires
            old(self).wf(),
        ensures
            final(self).wf(),
            final(self).view() == old(self).view().insert(key@, user),
    {
        let mut i: usize = 0;
        while i < self.entries.len()
            invariant
                i <= self.entries@.len(),
                self.entries@ == old(self).entries@,
                old(self).wf(),
                forall|k: int| 0 <= k < i ==> (#[trigger] self.entries@[k]).0@ != key@,
            decreases self.entries@.len() - i,
        {
            if self.entries[i].0 == key {
                let ghost before = self.entries@;
                self.entries.set(i, (key, user));
                proof {
                    lemma_pairs_map_update(before, i as int, self.entries@[i as int]);
                }
                return;
            }
            i = i + 1;
        }
        let ghost before = self.entries@;
        self.entries.push((key, user));
        proof {
            assert(self.entries@.drop_last() =~= before);
            assert forall|a: int, b: int| 0 <= a < b < self.entries@.len() implies self.entries@[a].0@ != self.entries@[b].0@ by {
                if b < before.len() {
                    assert(self.entries@[a] == before[a] && self.entries@[b] == before[b]);
                } else {
                    assert(self.entries@[a] == before[a]);
                }
            }
        }
    }

    /// Every key of `size` URL-safe characters is held.
    pub open spec fn every_key_taken(&self, size: nat) -> bool {
        forall|t: Seq<char>| #[trigger] completes(t, Seq::empty(), url_safe_symbols(), size) ==> self.view().contains_key(t)
    }

    /// The keys held, as a list.
    fn key_list(&self) -> (r: Vec<String>)
        requires
            self.wf(),
        ensures
            forall|k: Seq<char>| #[trigger] string_views(r@).contains(k) <==> self.view().contains_key(k),
    {
        let mut out: Vec<String> = Vec::new();
        let mut i: usize = 0;
        while i < self.entries.len()
            invariant
                i <= self.entries@.len(),
                out@.len() == i,
                forall|k: int| 0 <= k < i ==> (#[trigger] out@[k])@ == self.entries@[k].0@,
            decreases self.entries@.len() - i,
        {
            out.push(self.entries[i].0.clone());
            i = i + 1;
        }
        proof {
            assert forall|k: Seq<char>| #[trigger] string_views(out@).contains(k) <==> self.view().contains_key(k) by {
                if string_views(out@).contains(k) {
                    let j = choose|j: int| 0 <= j < string_views(out@).len() && string_views(out@)[j] == k;
                    lemma_pairs_map_at(self.entries@, j);
                } else {
                    assert forall|j: int| 0 <= j < self.entries@.len() implies (#[trigger] self.entries@[j]).0@ != k by {
                        assert(string_views(out@)[j] == out@[j]@);
                    }
                    lemma_pairs_map_absent(self.entries@, k);
                }
            }
        }
        out
    }

    /// A key the map does not hold: `size` URL-safe characters, drawn at
    /// random while the key is taken and, after many draws, the first free
    /// one in the alphabet's order. Only when every such key is held is the
    /// key built longer than every key held.
    pub fn fresh_key(&self, size: usize) -> (r: String)
        requires
            self.wf(),
            0 < size <= usize::MAX / 8,
        ensures
            !self.view().contains_key(r@),
            !self.every_key_taken(size as nat) ==> r@.len() == size && drawn_from(r@, url_safe_symbols()),
    {
        let mut candidate = random_token(size);
        let mut attempts: usize = 1;
        while attempts < TOKEN_ATTEMPTS && self.get(candidate.as_str()).is_some()
            invariant
                self.wf(),
                0 < size <= usize::MAX / 8,
                attempts <= TOKEN_ATTEMPTS,
                candidate@.len() == size,
                drawn_from(candidate@, url_safe_symbols()),
            decreases TOKEN_ATTEMPTS - attempts,
        {
            candidate = random_token(size);
            attempts = attempts + 1;
        }
        if self.get(candidate.as_str()).is_none() {
            return candidate;
        }
        let keys = self.key_list();
        let alphabet = url_safe_alphabet();
        match free_text(&keys, &alphabet, size) {
            Some(t) => {
                return t;
            },
            None => {
                proof {
                    assert forall|t: Seq<char>| #[trigger] completes(t, Seq::empty(), url_safe_symbols(), size as nat)
                        implies self.view().contains_key(t) by {
                        assert(string_views(keys@).contains(t));
                    }
                }
            },
        }
        let mut out = String::new();
        let mut longest: usize = 0;
        let mut i: usize = 0;
        while i < self.entries.len()
            invariant
                i <= self.entries@.len(),
                longest == out@.len(),
                forall|k: int| 0 <= k < i ==> (#[trigger] self.entries@[k]).0@.len() <= longest,
            decreases self.entries@.len() - i,
        {
            let n = self.entries[i].0.as_str().unicode_len();
            if n > longest {
                longest = n;
                out = self.entries[i].0.clone();
            }
            i = i + 1;
        }
        proof {
            reveal_strlit("_");
        }
        out.append("_");
        proof {
            assert forall|k: int| 0 <= k < self.entries@.len() implies (#[trigger] self.entries@[k]).0@ != out@ by {
                assert(self.entries@[k].0@.len() <= longest);
            }
            lemma_pairs_map_absent(self.entries@, out@);
        }
        out
    }

    /// Makes the key lead nowhere.
    pub fn remove(&mut self, key: &str) -> (r: Option<UserId>)
        requires
            old(self).wf(),
        ensures
            final(self).wf(),
            final(self).view() == old(self).view().remove(key@),
            r == lookup(old(self).view(), key@),
    {
        let mut i: usize = 0;
        while i < self.entries.len()
            invariant
                i <= self.entries@.len(),
                self.entries@ == old(self).entries@,
                old(self).wf(),
                forall|k: int| 0 <= k < i ==> (#[trigger] self.entries@[k]).0@ != key@,
            decreases self.entries@.len() - i,
        {
            if crate::text::str_eq(self.entries[i].0.as_str(), key) {
                let ghost before = self.entries@;
                proof {
                    lemma_pairs_map_at(before, i as int);
                }
                let e = self.entries.remove(i);
                proof {
                    lemma_pairs_map_remove(before, i as int);
                    assert forall|a: int, b: int| 0 <= a < b < self.entries@.len() implies self.entries@[a].0@ != self.entries@[b].0@ by {
                        let a2 = if a < i { a } else { a + 1 };
                        let b2 = if b < i { b } else { b + 1 };
                        assert(self.entries@[a] == before[a2] && self.entries@[b] == before[b2]);
                    }
                }
                return Some(e.1);
            }
            i = i + 1;
        }
        proof {
            lemma_pairs_map_absent(self.entries@, key@);
            assert(self.view().remove(key@) =~= self.view());
        }
        None
    }
}

/// With distinct keys, the map sends each listed key to its pair's user.
proof fn lemma_pairs_map_at(s: Seq<(String, UserId)>, i: int)
    requires
        0 <= i < s.len(),
        forall|a: int, b: int| 0 <= a < b < s.len() ==> s[a].0@ != s[b].0@,
    ensures
        pairs_map(s).contains_key(s[i].0@),
        pairs_map(s)[s[i].0@] == s[i].1,
    decreases s.len(),
{
    if i < s.len() - 1 {
        let init = s.drop_last();
        assert(init[i] == s[i]);
        lemma_pairs_map_at(init, i);
        assert(s[i].0@ != s.last().0@);
    }
}

/// Removing the pair of a key removes the key from the map.
proof fn lemma_pairs_map_remove(s: Seq<(String, UserId)>, i: int)
    requires
        0 <= i < s.len(),
        forall|a: int, b: int| 0 <= a < b < s.len() ==> s[a].0@ != s[b].0@,
    ensures
        pairs_map(s.remove(i)) == pairs_map(s).remove(s[i].0@),
    decreases s.len(),
{
    let t = s.remove(i);
    if i == s.len() - 1 {
        assert(t =~= s.drop_last());
        let init = s.drop_last();
        assert forall|k: int| 0 <= k < init.len() implies (#[trigger] init[k]).0@ != s[i].0@ by {
            assert(init[k] == s[k]);
        }
        lemma_pairs_map_absent(init, s[i].0@);
        assert(pairs_map(t) =~= pairs_map(s).remove(s[i].0@));
    } else {
        let init = s.drop_last();
        assert(t.drop_last() =~= init.remove(i));
        assert(t.last() == s.last());
        assert forall|a: int, b: int| 0 <= a < b < init.len() implies init[a].0@ != init[b].0@ by {
            assert(init[a] == s[a] && init[b] == s[b]);
        }
        lemma_pairs_map_remove(init, i);
        assert(init[i] == s[i]);
        assert(s.last().0@ != s[i].0@);
        assert(pairs_map(t) =~= pairs_map(s).remove(s[i].0@));
    }
}

/// A key in no pair is not in the map.
proof fn lemma_pairs_map_absent(s: Seq<(String, UserId)>, key: Seq<char>)
    requires
        forall|k: int| 0 <= k < s.len() ==> (#[trigger] s[k]).0@ != key,
    ensures
        !pairs_map(s).contains_key(key),
    decreases s.len(),
{
    if s.len() > 0 {
        let init = s.drop_last();
        assert forall|k: int| 0 <= k < init.len() implies (#[trigger] init[k]).0@ != key by {
            assert(init[k] == s[k]);
        }
        lemma_pairs_map_absent(init, key);
    }
}

/// Replacing the pair of a key with one for the same key updates the map.
proof fn lemma_pairs_map_update(s: Seq<(String, UserId)>, i: int, e: (String, UserId))
    requires
        0 <= i < s.len(),
        e.0@ == s[i].0@,
        forall|a: int, b: int| 0 <= a < b < s.len() ==> s[a].0@ != s[b].0@,
    ensures
        pairs_map(s.update(i, e)) == pairs_map(s).insert(e.0@, e.1),
    decreases s.len(),
{
    let t = s.update(i, e);
    if i == s.len() - 1 {
        assert(t.drop_last() =~= s.drop_last());
        assert(pairs_map(t) =~= pairs_map(s).insert(e.0@, e.1));
    } else {
        let init = s.drop_last();
        assert(t.drop_last() =~= init.update(i, e));
        lemma_pairs_map_update(init, i, e);
        assert(s.last().0@ != e.0@);
        assert(pairs_map(t) =~= pairs_map(s).insert(e.0@, e.1));
    }
}

/// Finds a logged-in user by username, by session token or by email.
pub struct UserManageMap {
    usermap: TextMap,
    tokenmap: TextMap,
    emailmap: TextMap,
}

impl UserManageMap {
    pub closed spec fn wf(&self) -> bool {
        self.usermap.wf() && self.tokenmap.wf() && self.emailmap.wf()
    }

    /// Users by username.
    pub closed spec fn by_username(&self) -> Map<Seq<char>, UserId> {
        self.usermap.view()
    }

    /// Users by session token.
    pub closed spec fn by_token(&self) -> Map<Seq<char>, UserId> {
        self.tokenmap.view()
    }

    /// Users by email.
    pub closed spec fn by_email(&self) -> Map<Seq<char>, UserId> {
        self.emailmap.view()
    }

    /// The user a key leads to: by username first, then by token, then by
    /// email.
    pub fn get(&self, key: String) -> (r: Option<UserId>)
        requires
            self.wf(),
        ensures
            r == (if self.by_username().contains_key(key@) {
                Some(self.by_username()[key@])
            } else if self.by_token().contains_key(key@) {
                Some(self.by_token()[key@])
            } else {
                lookup(self.by_email(), key@)
            }),
    {
        if let Some(user) = self.usermap.get(key.as_str()) {
            Some(user)
        } else if let Some(user) = self.tokenmap.get(key.as_str()) {
            Some(user)
        } else {
            self.emailmap.get(key.as_str())
        }
    }

    /// The user with this username, else the one with this email.
    pub fn get_with_user_or_email(&self, email: &String) -> (r: Option<UserId>)
        requires
            self.wf(),
        ensures
            r == (if self.by_username().contains_key(email@) {
                Some(self.by_username()[email@])
            } else {
                lookup(self.by_email(), email@)
            }),
    {
        if let Some(user) = self.usermap.get(email.as_str()) {
            Some(user)
        } else {
            self.emailmap.get(email.as_str())
        }
    }

    /// The user with this session token.
    pub fn get_with_token(&self, token: &String) -> (r: Option<UserId>)
        requires
            self.wf(),
        ensures
            r == lookup(self.by_token(), token@),
    {
        self.tokenmap.get(token.as_str())
    }

    /// The user with this username.
    pub fn get_with_username(&self, token: &String) -> (r: Option<UserId>)
        requires
            self.wf(),
        ensures
            r == lookup(self.by_username(), token@),
    {
        self.usermap.get(token.as_str())
    }

    /// The user with this email.
    pub fn get_with_email(&self, token: &String) -> (r: Option<UserId>)
        requires
            self.wf(),
        ensures
            r == lookup(self.by_email(), token@),
    {
        self.emailmap.get(token.as_str())
    }

    /// An empty map.
    pub fn new() -> (r: Self)
        ensures
            r.wf(),
            r.by_username() == Map::<Seq<char>, UserId>::empty(),
            r.by_token() == Map::<Seq<char>, UserId>::empty(),
            r.by_email() == Map::<Seq<char>, UserId>::empty(),
    {
        UserManageMap { usermap: TextMap::new(), tokenmap: TextMap::new(), emailmap: TextMap::new() }
    }

    /// Makes the email, the token and the username lead to the user.
    pub fn insert(&mut self, email: String, token: String, username: String, user: UserId)
        requires
            old(self).wf(),
        ensures
            final(self).wf(),
            final(self).by_username() == old(self).by_username().insert(username@, user),
            final(self).by_token() == old(self).by_token().insert(token@, user),
            final(self).by_email() == old(self).by_email().insert(email@, user),
    {
        self.usermap.insert(username, user);
        self.tokenmap.insert(token, user);
        self.emailmap.insert(email, user);
    }
}

/// Law: after a user is inserted into the user map (`insert` adds the
/// username, the token and the email to the three maps), their username,
/// their token and their email each lead back to them, whatever the maps
/// held before.
pub proof fn lemma_inserted_user_is_found(
    by_username: Map<Seq<char>, UserId>,
    by_token: Map<Seq<char>, UserId>,
    by_email: Map<Seq<char>, UserId>,
    username: Seq<char>,
    token: Seq<char>,
    email: Seq<char>,
    user: UserId,
)
    ensures
        lookup(by_username.insert(username, user), username) == Some(user),
        lookup(by_token.insert(token, user), token) == Some(user),
        lookup(by_email.insert(email, user), email) == Some(user),
{
}

/// An email is acceptable: it contains a dot and an at sign and is longer
/// than five bytes.
pub open spec fn email_acceptable(email: &str) -> bool {
    email@.contains('.') && email@.contains('@') && email.len() > 5
}

/// A password is acceptable when it has at least six bytes.
pub open spec fn password_acceptable(password: &str) -> bool {
    password.len() >= 6
}

/// `r` is the failed reply with the given reason.
pub open spec fn is_failure(r: AuthReply, reason: Seq<char>) -> bool {
    !r.success && r.mystery@ == reason
}

/// The reply is present and is the failure with the given reason.
pub open spec fn fails_with(r: Option<AuthReply>, reason: Seq<char>) -> bool {
    r matches Some(reply) && is_failure(reply, reason)
}

/// The result is the failure with the given reason.
pub open spec fn rejects_with<T>(r: Result<T, AuthReply>, reason: Seq<char>) -> bool {
    r matches Err(reply) && is_failure(reply, reason)
}

/// A failed reply with the given reason.
fn failure(reason: &str) -> (r: AuthReply)
    ensures
        is_failure(r, reason@),
{
    AuthReply { success: false, mystery: owned(reason) }
}

/// Tells whether the text contains the character.
fn has_char(s: &str, c: char) -> (r: bool)
    ensures
        r == s@.contains(c),
{
    let n = s.unicode_len();
    let mut i: usize = 0;
    while i < n
        invariant
            n == s@.len(),
            i <= n,
            forall|k: int| 0 <= k < i ==> s@[k] != c,
        decreases n - i,
    {
        if s.get_char(i) == c {
            return true;
        }
        i = i + 1;
    }
    false
}

/// The checks before a registration touches the database: the email, then
/// the password, then whether the email or username is already logged in.
/// `None` when registration may go on.
pub fn registration_precheck(email: &str, password: &str, already_logged_in: bool) -> (r: Option<AuthReply>)
    ensures
        !email_acceptable(email) ==> fails_with(r, "Invalid Email"@),
        email_acceptable(email) && !password_acceptable(password) ==> fails_with(r, "Invalid Password"@),
        email_acceptable(email) && password_acceptable(password) && already_logged_in
            ==> fails_with(r, "User Logged In Already"@),
        email_acceptable(email) && password_acceptable(password) && !already_logged_in ==> r is None,
{
    if !has_char(email, '.') || !has_char(email, '@') || email.len() <= 5 {
        return Some(failure("Invalid Email"));
    }
    if password.len() < 6 {
        return Some(failure("Invalid Password"));
    }
    if already_logged_in {
        return Some(failure("User Logged In Already"));
    }
    None
}

/// What registration does once the database was asked whether the user
/// exists: store the user when absent, else fail.
pub fn registration_after_lookup(lookup: &Result<Option<String>, ()>) -> (r: Option<AuthReply>)
    ensures
        match lookup {
            Ok(None) => r is None,
            Ok(Some(_)) => fails_with(r, "User Already Exists"@),
            Err(_) => fails_with(r, "Database Query Failed"@),
        },
{
    match lookup {
        Ok(None) => None,
        Ok(Some(_)) => Some(failure("User Already Exists")),
        Err(_) => Some(failure("Database Query Failed")),
    }
}

/// What registration does once the user's record was (or was not) stored:
/// go on to log the user in when the store succeeded, else fail.
pub fn registration_after_store(stored: &Result<(), ()>) -> (r: Option<AuthReply>)
    ensures
        match stored {
            Ok(()) => r is None,
            Err(_) => fails_with(r, "Database Store Failed"@),
        },
{
    match stored {
        Ok(()) => None,
        Err(_) => Some(failure("Database Store Failed")),
    }
}

/// One day, in milliseconds: how long an account session token is valid.
pub const TOKEN_LIFETIME_MS: i64 = 86400000;

/// The logged-in users and the map that finds them.
pub struct UserManager {
    pub map: UserManageMap,
    pub users: Vec<User>,
}

impl UserManager {
    /// The map leads only to known users.
    pub open spec fn wf(&self) -> bool {
        &&& self.map.wf()
        &&& forall|k: Seq<char>| #[trigger] self.map.by_username().contains_key(k) ==> self.map.by_username()[k] < self.users@.len()
        &&& forall|k: Seq<char>| #[trigger] self.map.by_token().contains_key(k) ==> self.map.by_token()[k] < self.users@.len()
        &&& forall|k: Seq<char>| #[trigger] self.map.by_email().contains_key(k) ==> self.map.by_email()[k] < self.users@.len()
    }

    /// No one logged in.
    pub fn new() -> (r: Self)
        ensures
            r.wf(),
            r.users@.len() == 0,
    {
        UserManager { map: UserManageMap::new(), users: Vec::new() }
    }

    /// The session token belongs to a logged-in user whose username or
    /// email is `username`.
    pub open spec fn token_verifies(&self, token: Seq<char>, username: Seq<char>) -> bool {
        &&& self.map.by_token().contains_key(token)
        &&& {
            let u = self.users@[self.map.by_token()[token] as int];
            u.username@ == username || u.email@ == username
        }
    }

    /// Whether the session token belongs to a logged-in user whose username
    /// or email is `username`.
    pub fn verify_token(&self, token: &String, username: &String) -> (r: bool)
        requires
            self.wf(),
        ensures
            r == self.token_verifies(token@, username@),
    {
        match self.map.get_with_token(token) {
            Some(id) => {
                let u = &self.users[id];
                u.username == *username || u.email == *username
            },
            None => false,
        }
    }

    /// Completes a registration whose record was stored: the new user logs in
    /// with a fresh token valid for a day, found from now on by email, token
    /// and username. The reply carries the token.
    pub fn complete_registration(&mut self, email: String, username: String, now: i64) -> (r: AuthReply)
        requires
            old(self).wf(),
            now <= i64::MAX - TOKEN_LIFETIME_MS,
        ensures
            final(self).wf(),
            r.success,
            is_uuid_v4_text(r.mystery@),
            final(self).users@.len() == old(self).users@.len() + 1,
            final(self).users@.drop_last() == old(self).users@,
            final(self).users@.last().username == username,
            final(self).users@.last().email == email,
            final(self).map.by_token() == old(self).map.by_token().insert(r.mystery@, old(self).users@.len() as UserId),
            final(self).map.by_username() == old(self).map.by_username().insert(username@, old(self).users@.len() as UserId),
            final(self).map.by_email() == old(self).map.by_email().insert(email@, old(self).users@.len() as UserId),
    {
        let token = random_uuid_text();
        let mut tokens: Vec<AuthToken> = Vec::new();
        tokens.push(AuthToken { body: token.clone(), expiry: now + TOKEN_LIFETIME_MS });
        let id = self.users.len();
        self.users.push(User {
            username: username.clone(),
            email: email.clone(),
            login_time: now,
            ips: Vec::new(),
            auth_tokens: tokens,
        });
        self.map.insert(email, token.clone(), username, id);
        AuthReply { success: true, mystery: token }
    }

    /// Logs in a user whose credentials passed: the user found by this email
    /// or username (or a new one) takes the username and email of the record,
    /// gets a fresh token valid for a day, and is found from now on by the
    /// record's email, the token and the record's username.
    pub fn complete_login(&mut self, key: &String, username: String, email: String, now: i64) -> (r: AuthReply)
        requires
            old(self).wf(),
            now <= i64::MAX - TOKEN_LIFETIME_MS,
        ensures
            final(self).wf(),
            r.success,
            is_uuid_v4_text(r.mystery@),
            ({
                let found = if old(self).map.by_username().contains_key(key@) {
                    Some(old(self).map.by_username()[key@])
                } else {
                    lookup(old(self).map.by_email(), key@)
                };
                let id = match found { Some(i) => i, None => old(self).users@.len() as UserId };
                &&& found is None ==> final(self).users@.len() == old(self).users@.len() + 1
                &&& found is Some ==> final(self).users@.len() == old(self).users@.len()
                &&& final(self).users@[id as int].username == username
                &&& final(self).users@[id as int].email == email
                &&& final(self).users@[id as int].auth_tokens@.last().body@ == r.mystery@
                &&& forall|j: int| 0 <= j < old(self).users@.len() && j != id ==> final(self).users@[j] == old(self).users@[j]
                &&& final(self).map.by_token() == old(self).map.by_token().insert(r.mystery@, id)
                &&& final(self).map.by_username() == old(self).map.by_username().insert(username@, id)
                &&& final(self).map.by_email() == old(self).map.by_email().insert(email@, id)
            }),
    {
        let id = match self.map.get_with_user_or_email(key) {
            Some(i) => i,
            None => {
                let i = self.users.len();
                self.users.push(User {
                    username: String::new(),
                    email: String::new(),
                    login_time: now,
                    ips: Vec::new(),
                    auth_tokens: Vec::new(),
                });
                i
            },
        };
        let token = random_uuid_text();
        let ghost before = self.users@;
        let mut user = self.users.remove(id);
        user.username = username.clone();
        user.email = email.clone();
        user.auth_tokens.push(AuthToken { body: token.clone(), expiry: now + TOKEN_LIFETIME_MS });
        self.users.insert(id, user);
        proof {
            assert forall|j: int| 0 <= j < before.len() && j != id implies self.users@[j] == before[j] by {
                if j < id {
                    assert(self.users@[j] == before.remove(id as int)[j]);
                } else {
                    assert(self.users@[j] == before.remove(id as int)[j - 1]);
                }
            }
        }
        self.map.insert(email, token.clone(), username, id);
        AuthReply { success: true, mystery: token }
    }
}

/// Law: the token of a registration verifies for the new user, by username
/// and by email (`before` and `after` are the manager around a call of
/// `complete_registration` that returned `token`, related as its contract
/// states).
pub proof fn lemma_registration_token_verifies(before: UserManager, after: UserManager, token: Seq<char>, username: String, email: String)
    requires
        before.users@.len() < usize::MAX,
        after.users@.len() == before.users@.len() + 1,
        after.users@.last().username == username,
        after.users@.last().email == email,
        after.map.by_token() == before.map.by_token().insert(token, before.users@.len() as UserId),
    ensures
        after.token_verifies(token, username@),
        after.token_verifies(token, email@),
{
    let id = before.users@.len() as UserId;
    assert(after.map.by_token()[token] == id);
    assert(after.users@[id as int] == after.users@.last());
}

/// What the login makes of the database's answer and the password: the
/// record's username and email when the password is right; otherwise the
/// failed reply.
pub fn login_decision(lookup: Result<Option<(String, String, String)>, ()>, password: &str) -> (r: Result<(String, String), AuthReply>)
    ensures
        match lookup {
            Err(_) => rejects_with(r, "Database Query Failed"@),
            Ok(None) => rejects_with(r, "User Not Found"@),
            Ok(Some((hash, username, email))) => if !phc_parses(hash@) {
                rejects_with(r, "Internal Server Error"@)
            } else if !argon2_accepts(password@, hash@) {
                rejects_with(r, "Wrong Password"@)
            } else {
                r == Ok::<(String, String), AuthReply>((username, email))
            },
        },
{
    match lookup {
        Err(_) => Err(failure("Database Query Failed")),
        Ok(None) => Err(failure("User Not Found")),
        Ok(Some((hash, username, email))) => {
            if !crate::records::parse_phc(hash.as_str()) {
                return Err(failure("Internal Server Error"));
            }
            if !crate::records::argon2_verify(password, hash.as_str()) {
                return Err(failure("Wrong Password"));
            }
            Ok((username, email))
        },
    }
}

impl UserManager {
    /// The user a login with this key (a username or an email) lands on: the
    /// one the username leads to, else the one the email leads to, else a
    /// new one.
    pub open spec fn login_target(&self, key: Seq<char>) -> UserId {
        if self.map.by_username().contains_key(key) {
            self.map.by_username()[key]
        } else {
            match lookup(self.map.by_email(), key) {
                Some(i) => i,
                None => self.users@.len() as UserId,
            }
        }
    }

    /// Logs in with a key (a username or an email) and a password, given what
    /// the database returned for the key: the stored hash, username and
    /// email. A failed query, an unknown user, a stored hash that does not
    /// parse and a wrong password are refused with their reasons and change
    /// nothing. A right password logs in the user the key leads to (or a new
    /// one): it takes the stored username and email and a new version 4 UUID
    /// token, by which, as by the username and the email, it is found from
    /// then on.
    pub fn login(&mut self, key: &String, lookup: Result<Option<(String, String, String)>, ()>, password: &str, now: i64) -> (r: AuthReply)
        requires
            old(self).wf(),
            now <= i64::MAX - TOKEN_LIFETIME_MS,
        ensures
            final(self).wf(),
            match lookup {
                Err(_) => is_failure(r, "Database Query Failed"@) && *final(self) == *old(self),
                Ok(None) => is_failure(r, "User Not Found"@) && *final(self) == *old(self),
                Ok(Some((hash, username, email))) => if !phc_parses(hash@) {
                    is_failure(r, "Internal Server Error"@) && *final(self) == *old(self)
                } else if !argon2_accepts(password@, hash@) {
                    is_failure(r, "Wrong Password"@) && *final(self) == *old(self)
                } else {
                    let id = old(self).login_target(key@);
                    &&& r.success
                    &&& is_uuid_v4_text(r.mystery@)
                    &&& id < final(self).users@.len()
                    &&& final(self).map.by_token().contains_key(r.mystery@) && final(self).map.by_token()[r.mystery@] == id
                    &&& final(self).map.by_username().contains_key(username@) && final(self).map.by_username()[username@] == id
                    &&& final(self).map.by_email().contains_key(email@) && final(self).map.by_email()[email@] == id
                    &&& final(self).users@[id as int].username == username
                    &&& final(self).users@[id as int].email == email
                    &&& final(self).users@[id as int].auth_tokens@.last().body@ == r.mystery@
                },
            },
    {
        match login_decision(lookup, password) {
            Err(reply) => reply,
            Ok((username, email)) => self.complete_login(key, username, email, now),
        }
    }
}

} // verus!
