//! The login system of the note-card server: it hands out session tokens on
//! login and registration, verifies them, counts failed verifications per ip,
//! and lets tokens expire a day after they were issued.
//!
//! The database work (checking passwords, storing users, parsing records)
//! happens around these functions; they take its outcome as arguments.
use vstd::prelude::*;

use crate::accounts::{lookup, TextMap, UserId};
use crate::records::{CoreDatatypeError, User};
use crate::text::byte_len;
use crate::ids::{completes, drawn_from, url_safe_symbols};
use crate::protocol::{string_views, text_listed};

verus! {

/// A request from a client, as the server receives it.
pub enum FromClientRequest {
    /// Username, password, ip.
    Login(String, String, String),
    /// Username, password, ip.
    Register(String, String, String),
    /// Username, token, ip.
    VerifySessionToken(String, String, String),
}

/// A request to the login system (the reply channel travels beside it).
pub enum LoginRequest {
    /// Username, password, ip.
    Login(String, String, String),
    /// Username, password, ip.
    Register(String, String, String),
    /// Session token, username, ip.
    VerifySessionToken(String, String, String),
    /// Store all data and shut down.
    Shutdown,
    /// A set id to add to the user with this token.
    RegisterNoteCardId(String, String),
    /// The user with this token.
    GetUser(String),
}

/// The reply of the login system.
pub enum LoginResponse {
    /// The session token.
    Success(String),
    /// The session token was verified.
    Verified,
    Failed,
}

impl FromClientRequest {
    /// The login-system request for a client request that arrived from `ip`:
    /// the connection's ip replaces the one in the request unless it is at
    /// most one byte long; a verification names the token before the username.
    pub fn to_regular_request(self, ip: String) -> (r: LoginRequest)
        ensures
            ({
                let use_own = byte_len(ip@) > 1;
                match self {
                    FromClientRequest::Login(u, p, i) => r == LoginRequest::Login(u, p, if use_own { ip } else { i }),
                    FromClientRequest::Register(u, p, i) => r == LoginRequest::Register(u, p, if use_own { ip } else { i }),
                    FromClientRequest::VerifySessionToken(u, t, i) => r == LoginRequest::VerifySessionToken(t, u, if use_own { ip } else { i }),
                }
            }),
    {
        if ip.as_str().len() > 1 {
            match self {
                FromClientRequest::Login(username, password, _) => LoginRequest::Login(username, password, ip),
                FromClientRequest::Register(username, password, _) => LoginRequest::Register(username, password, ip),
                FromClientRequest::VerifySessionToken(username, token, _) => LoginRequest::VerifySessionToken(token, username, ip),
            }
        } else {
            match self {
                FromClientRequest::Login(username, password, ip) => LoginRequest::Login(username, password, ip),
                FromClientRequest::Register(username, password, ip) => LoginRequest::Register(username, password, ip),
                FromClientRequest::VerifySessionToken(username, token, ip) => LoginRequest::VerifySessionToken(token, username, ip),
            }
        }
    }
}

impl FromClientRequest {
    /// The same request with the connection's ip in place of the one it
    /// carried, as it is forwarded to the central login server.
    pub fn with_ip(self, ip: String) -> (r: FromClientRequest)
        ensures
            match self {
                FromClientRequest::Login(u, p, _) => r == FromClientRequest::Login(u, p, ip),
                FromClientRequest::Register(u, p, _) => r == FromClientRequest::Register(u, p, ip),
                FromClientRequest::VerifySessionToken(u, t, _) => r == FromClientRequest::VerifySessionToken(u, t, ip),
            },
    {
        match self {
            FromClientRequest::Login(username, password, _) => FromClientRequest::Login(username, password, ip),
            FromClientRequest::Register(username, password, _) => FromClientRequest::Register(username, password, ip),
            FromClientRequest::VerifySessionToken(username, token, _) => FromClientRequest::VerifySessionToken(username, token, ip),
        }
    }
}

/// What an upload does after the login system checked its session token:
/// a verified token lets the set be stored (`Ok`); any other answer goes
/// back to the client as it is.
pub fn upload_verdict(answer: LoginResponse) -> (r: Result<(), LoginResponse>)
    ensures
        answer is Verified ==> r is Ok,
        !(answer is Verified) ==> r == Err::<(), LoginResponse>(answer),
{
    match answer {
        LoginResponse::Verified => Ok(()),
        other => Err(other),
    }
}

/// The ports a server listens on.
#[derive(Clone, Copy)]
pub struct Ports {
    pub http: u16,
    pub https: u16,
}

/// The decimal digit `d`.
pub open spec fn digit_char(d: nat) -> char {
    seq!['0', '1', '2', '3', '4', '5', '6', '7', '8', '9'][d as int]
}

/// The decimal text of a number, as `to_string` writes it.
pub open spec fn decimal_text(n: nat) -> Seq<char>
    decreases n,
{
    if n < 10 {
        seq![digit_char(n)]
    } else {
        decimal_text(n / 10).push(digit_char(n % 10))
    }
}

/// The decimal digits of a port.
fn port_digits(n: u16) -> (r: Vec<char>)
    ensures
        r@ == decimal_text(n as nat),
    decreases n,
{
    let digits: Vec<char> = vec!['0', '1', '2', '3', '4', '5', '6', '7', '8', '9'];
    proof {
        assert(digits@ == seq!['0', '1', '2', '3', '4', '5', '6', '7', '8', '9']);
    }
    if n < 10 {
        let mut out: Vec<char> = Vec::new();
        out.push(digits[n as usize]);
        out
    } else {
        let mut out = port_digits(n / 10);
        out.push(digits[(n % 10) as usize]);
        out
    }
}

/// The host a request is redirected to over https: every occurrence of the
/// http port's digits in the host becomes the https port's digits.
pub fn https_host(host: &str, ports: Ports) -> (r: String)
    ensures
        r@ == crate::split::replaced(host@, decimal_text(ports.http as nat), decimal_text(ports.https as nat)),
{
    let from = port_digits(ports.http);
    let to = crate::text::text_of(port_digits(ports.https).as_slice());
    crate::split::replace_all(host, &from, to.as_str())
}

/// Starts and ties together the services of one server.
pub struct Coordinator {}

/// Starts the central command center in place of a normal server.
pub struct commandCenter {}

/// Forwards login requests to a central login system, so that there are no
/// races between servers.
pub struct remoteLoginSystem {}

/// One day, in milliseconds: how long a session token lives.
pub const SESSION_DAY_MS: i64 = 86400000;

/// The length of a session token.
pub const SESSION_TOKEN_LEN: usize = 30;

/// Failed verifications from one ip beyond which its requests are refused.
pub const SUSPICION_LIMIT: usize = 4;

/// The state of the login system.
pub struct LoginSystem {
    /// The users who logged in; session tokens lead to them by index.
    users: Vec<User>,
    /// Session token to user.
    logged_in_users: TextMap,
    /// Username to that user's session tokens (oldest first).
    user_token_map: Vec<(String, Vec<String>)>,
    /// Each token with its expiry, in the order they were issued.
    cleanup_logger: Vec<(String, i64)>,
    /// Failed verifications per ip.
    sus_ips: TextMap,
}

impl LoginSystem {
    /// Tokens lead to known users; no ip has failed more than once past the
    /// limit.
    pub closed spec fn wf(&self) -> bool {
        &&& self.logged_in_users.wf()
        &&& self.sus_ips.wf()
        &&& forall|k: Seq<char>| #[trigger] self.logged_in_users.view().contains_key(k) ==> self.logged_in_users.view()[k] < self.users@.len()
        &&& forall|k: Seq<char>| #[trigger] self.sus_ips.view().contains_key(k) ==> self.sus_ips.view()[k] <= SUSPICION_LIMIT + 1
        &&& self.user_token_map@.len() == 0
        &&& self.users@.len() < usize::MAX
    }

    /// Session tokens and the users they lead to.
    pub closed spec fn sessions(&self) -> Map<Seq<char>, UserId> {
        self.logged_in_users.view()
    }

    /// Every session token of `SESSION_TOKEN_LEN` URL-safe characters is in
    /// use.
    pub open spec fn every_token_taken(&self) -> bool {
        forall|t: Seq<char>| #[trigger] completes(t, Seq::empty(), url_safe_symbols(), SESSION_TOKEN_LEN as nat) ==> self.sessions().contains_key(t)
    }

    /// The users who logged in.
    pub closed spec fn accounts(&self) -> Seq<User> {
        self.users@
    }

    /// The tokens with their expiry, in the order they were issued.
    pub closed spec fn expiry_log(&self) -> Seq<(String, i64)> {
        self.cleanup_logger@
    }

    /// Failed verifications per ip.
    pub closed spec fn failures(&self) -> Map<Seq<char>, UserId> {
        self.sus_ips.view()
    }

    /// How many verifications from the ip failed.
    pub open spec fn suspicion(&self, ip: Seq<char>) -> int {
        if self.failures().contains_key(ip) { self.failures()[ip] as int } else { 0 }
    }

    /// The reply to a token verification, and whether the login system stops
    /// afterwards: an ip with too many failures, or an unknown token, is
    /// refused and stops the system; the user's own username from one of
    /// their ips is verified; their username from another ip gets no reply;
    /// another username is refused.
    pub open spec fn verify_result(&self, token: Seq<char>, username: Seq<char>, ip: Seq<char>) -> (Option<LoginResponse>, bool) {
        if self.suspicion(ip) > SUSPICION_LIMIT {
            (Some(LoginResponse::Failed), true)
        } else if !self.sessions().contains_key(token) {
            (Some(LoginResponse::Failed), true)
        } else {
            let u = self.accounts()[self.sessions()[token] as int];
            if username == u.username@ {
                if u.most_recent_ip@ == ip || string_views(u.ips@).contains(ip) {
                    (Some(LoginResponse::Verified), false)
                } else {
                    (None, false)
                }
            } else {
                (Some(LoginResponse::Failed), false)
            }
        }
    }

    /// Law: a live token of a user, presented with that user's username from
    /// an ip the user is known by (the most recent ip or any ip in the user's
    /// list of ips), is verified, unless the ip is under suspicion; from an ip
    /// the user is not known by it gets no reply.
    pub proof fn lemma_known_ip_verifies(&self, token: Seq<char>, username: Seq<char>, ip: Seq<char>)
        requires
            self.suspicion(ip) <= SUSPICION_LIMIT,
            self.sessions().contains_key(token),
            self.accounts()[self.sessions()[token] as int].username@ == username,
        ensures
            ({
                let u = self.accounts()[self.sessions()[token] as int];
                &&& (u.most_recent_ip@ == ip || exists|k: int| 0 <= k < u.ips@.len() && (#[trigger] u.ips@[k])@ == ip)
                    ==> self.verify_result(token, username, ip) == (Some(LoginResponse::Verified), false)
                &&& (u.most_recent_ip@ != ip && forall|k: int| 0 <= k < u.ips@.len() ==> (#[trigger] u.ips@[k])@ != ip)
                    ==> self.verify_result(token, username, ip) == (None::<LoginResponse>, false)
            }),
    {
        let u = self.accounts()[self.sessions()[token] as int];
        if exists|k: int| 0 <= k < u.ips@.len() && (#[trigger] u.ips@[k])@ == ip {
            let k = choose|k: int| 0 <= k < u.ips@.len() && (#[trigger] u.ips@[k])@ == ip;
            assert(string_views(u.ips@)[k] == ip);
        }
        if string_views(u.ips@).contains(ip) {
            let k = choose|k: int| 0 <= k < string_views(u.ips@).len() && string_views(u.ips@)[k] == ip;
            assert(u.ips@[k]@ == ip);
        }
    }

    /// There is room for one more logged-in user.
    pub fn has_room(&self) -> (r: bool)
        ensures
            r == (self.accounts().len() + 1 < usize::MAX),
    {
        self.users.len() < usize::MAX - 1
    }

    /// A login system with no user logged in.
    pub fn new() -> (r: Self)
        ensures
            r.wf(),
            r.sessions() == Map::<Seq<char>, UserId>::empty(),
            r.accounts() == Seq::<User>::empty(),
            r.expiry_log() == Seq::<(String, i64)>::empty(),
            r.failures() == Map::<Seq<char>, UserId>::empty(),
    {
        LoginSystem {
            users: Vec::new(),
            logged_in_users: TextMap::new(),
            user_token_map: Vec::new(),
            cleanup_logger: Vec::new(),
            sus_ips: TextMap::new(),
        }
    }

    /// Logs the user in with a new 30-character session token, which expires
    /// a day from `now`.
    pub fn generate_new_token(&mut self, user: User, now: i64) -> (r: String)
        requires
            old(self).wf(),
            old(self).accounts().len() + 1 < usize::MAX,
            now <= i64::MAX - SESSION_DAY_MS,
        ensures
            final(self).wf(),
            !old(self).sessions().contains_key(r@),
            final(self).accounts() == old(self).accounts().push(user),
            final(self).sessions() == old(self).sessions().insert(r@, old(self).accounts().len() as UserId),
            final(self).expiry_log() == old(self).expiry_log().push((r, (now + SESSION_DAY_MS) as i64)),
            final(self).failures() == old(self).failures(),
            !old(self).every_token_taken() ==> r@.len() == SESSION_TOKEN_LEN && drawn_from(r@, url_safe_symbols()),
    {
        let token = self.logged_in_users.fresh_key(SESSION_TOKEN_LEN);
        let id = self.users.len();
        self.users.push(user);
        self.logged_in_users.insert(token.clone(), id);
        self.cleanup_logger.push((token.clone(), now + SESSION_DAY_MS));
        token
    }

    /// Gives an already logged-in user one more session token, which expires
    /// a day from `now`.
    pub fn generate_new_token_for_existing_user(&mut self, user: UserId, username: &String, now: i64) -> (r: String)
        requires
            old(self).wf(),
            user < old(self).accounts().len(),
            now <= i64::MAX - SESSION_DAY_MS,
        ensures
            final(self).wf(),
            !old(self).sessions().contains_key(r@),
            final(self).accounts() == old(self).accounts(),
            final(self).sessions() == old(self).sessions().insert(r@, user),
            final(self).expiry_log() == old(self).expiry_log().push((r, (now + SESSION_DAY_MS) as i64)),
            final(self).failures() == old(self).failures(),
            !old(self).every_token_taken() ==> r@.len() == SESSION_TOKEN_LEN && drawn_from(r@, url_safe_symbols()),
    {
        let token = self.logged_in_users.fresh_key(SESSION_TOKEN_LEN);
        self.logged_in_users.insert(token.clone(), user);
        self.cleanup_logger.push((token.clone(), now + SESSION_DAY_MS));
        token
    }

    /// Resets the failures of the ip, when it has any record.
    fn clear_failures(&mut self, ip: &String)
        requires
            old(self).wf(),
        ensures
            final(self).wf(),
            final(self).accounts() == old(self).accounts(),
            final(self).sessions() == old(self).sessions(),
            final(self).expiry_log() == old(self).expiry_log(),
            final(self).failures() == (if old(self).failures().contains_key(ip@) {
                old(self).failures().insert(ip@, 0)
            } else {
                old(self).failures()
            }),
    {
        if self.sus_ips.get(ip.as_str()).is_some() {
            self.sus_ips.insert(ip.clone(), 0);
        }
    }

    /// Finishes a login once the database checked the password. A right
    /// password with a stored record (longer than one byte) logs the user of
    /// the record in: the login's ip becomes their most recent ip and is
    /// added to their ips, they get a new session token, and the ip's
    /// failures are reset. Anything else fails.
    pub fn login_outcome(
        &mut self,
        check: Result<(bool, String), CoreDatatypeError>,
        username: &String,
        ip: String,
        parsed: Option<User>,
        now: i64,
    ) -> (r: LoginResponse)
        requires
            old(self).wf(),
            old(self).accounts().len() + 1 < usize::MAX,
            now <= i64::MAX - SESSION_DAY_MS,
        ensures
            final(self).wf(),
            ({
                let logs_in = check matches Ok((ok, record)) && ok && byte_len(record@) > 1 && parsed is Some;
                &&& !logs_in ==> r is Failed && *final(self) == *old(self)
                &&& logs_in ==> {
                    &&& r matches LoginResponse::Success(t)
                    &&& !old(self).sessions().contains_key(t@)
                    &&& final(self).accounts().len() == old(self).accounts().len() + 1
                    &&& final(self).accounts().drop_last() == old(self).accounts()
                    &&& final(self).accounts().last().username == parsed->0.username
                    &&& final(self).accounts().last().most_recent_ip == ip
                    &&& final(self).accounts().last().ips@ == parsed->0.ips@.push(ip)
                    &&& final(self).sessions() == old(self).sessions().insert(t@, old(self).accounts().len() as UserId)
                    &&& final(self).expiry_log() == old(self).expiry_log().push((t, (now + SESSION_DAY_MS) as i64))
                    &&& final(self).suspicion(ip@) == 0
                    &&& final(self).failures() == (if old(self).failures().contains_key(ip@) {
                        old(self).failures().insert(ip@, 0)
                    } else {
                        old(self).failures()
                    })
                    &&& final(self).verify_result(t@, parsed->0.username@, ip@) == (Some(LoginResponse::Verified), false)
                }
            }),
    {
        match check {
            Ok((verified, record)) => {
                if !verified || record.as_str().len() <= 1 {
                    return LoginResponse::Failed;
                }
                match parsed {
                    Some(user) => {
                        let mut user = user;
                        user.most_recent_ip = ip.clone();
                        user.ips.push(ip.clone());
                        let ghost added = user;
                        assert(added.most_recent_ip@ == ip@);
                        let token = self.generate_new_token(user, now);
                        assert(self.accounts().last() == added);
                        self.clear_failures(&ip);
                        proof {
                            let id = (self.accounts().len() - 1) as UserId;
                            assert(self.sessions().contains_key(token@));
                            assert(self.sessions()[token@] == id);
                            let u = self.accounts()[id as int];
                            assert(u.most_recent_ip@ == ip@);
                        }
                        LoginResponse::Success(token)
                    },
                    None => LoginResponse::Failed,
                }
            },
            Err(_) => LoginResponse::Failed,
        }
    }

    /// Verifies a session token for a username from an ip; see
    /// `verify_result`. A refused username counts one more failure for the ip.
    pub fn verify_session_token(&mut self, token: &String, username: &String, ip: &String) -> (r: (Option<LoginResponse>, bool))
        requires
            old(self).wf(),
        ensures
            final(self).wf(),
            r == old(self).verify_result(token@, username@, ip@),
            ({
                let u = old(self).accounts()[old(self).sessions()[token@] as int];
                old(self).suspicion(ip@) <= SUSPICION_LIMIT && old(self).sessions().contains_key(token@) && u.username@ == username@
                    && (u.most_recent_ip@ == ip@ || exists|k: int| 0 <= k < u.ips@.len() && (#[trigger] u.ips@[k])@ == ip@)
                    ==> r == (Some(LoginResponse::Verified), false)
            }),
            final(self).accounts() == old(self).accounts(),
            final(self).sessions() == old(self).sessions(),
            final(self).expiry_log() == old(self).expiry_log(),
            r == (Some(LoginResponse::Failed), false) ==> final(self).suspicion(ip@) == old(self).suspicion(ip@) + 1,
            r != (Some(LoginResponse::Failed), false) ==> final(self).failures() == old(self).failures(),
    {
        proof {
            if old(self).sessions().contains_key(token@) && old(self).suspicion(ip@) <= SUSPICION_LIMIT
                && old(self).accounts()[old(self).sessions()[token@] as int].username@ == username@ {
                old(self).lemma_known_ip_verifies(token@, username@, ip@);
            }
        }
        let fails = self.sus_ips.get(ip.as_str());
        if let Some(f) = fails {
            if f > SUSPICION_LIMIT {
                return (Some(LoginResponse::Failed), true);
            }
        }
        match self.logged_in_users.get(token.as_str()) {
            None => (Some(LoginResponse::Failed), true),
            Some(id) => {
                let user = &self.users[id];
                if *username == user.username {
                    if user.most_recent_ip == *ip || text_listed(&user.ips, ip) {
                        (Some(LoginResponse::Verified), false)
                    } else {
                        (None, false)
                    }
                } else {
                    let count = match fails {
                        Some(f) => f + 1,
                        None => 1,
                    };
                    self.sus_ips.insert(ip.clone(), count);
                    (Some(LoginResponse::Failed), false)
                }
            },
        }
    }

    /// Finishes a registration once the database stored the user: the user
    /// logs in from the registration's ip with a new session token.
    pub fn register_outcome(&mut self, result: Result<User, CoreDatatypeError>, ip: String, now: i64) -> (r: LoginResponse)
        requires
            old(self).wf(),
            old(self).accounts().len() + 1 < usize::MAX,
            now <= i64::MAX - SESSION_DAY_MS,
        ensures
            final(self).wf(),
            match result {
                Err(_) => r is Failed && *final(self) == *old(self),
                Ok(user) => {
                    &&& r matches LoginResponse::Success(t)
                    &&& !old(self).sessions().contains_key(t@)
                    &&& final(self).accounts().len() == old(self).accounts().len() + 1
                    &&& final(self).accounts().drop_last() == old(self).accounts()
                    &&& final(self).accounts().last().username == user.username
                    &&& final(self).accounts().last().most_recent_ip == ip
                    &&& final(self).accounts().last().ips@ == user.ips@.push(ip)
                    &&& final(self).sessions() == old(self).sessions().insert(t@, old(self).accounts().len() as UserId)
                    &&& final(self).expiry_log() == old(self).expiry_log().push((t, (now + SESSION_DAY_MS) as i64))
                    &&& final(self).failures() == old(self).failures()
                },
            },
    {
        match result {
            Err(_) => LoginResponse::Failed,
            Ok(user) => {
                let mut user = user;
                user.most_recent_ip = ip.clone();
                user.ips.push(ip);
                let token = self.generate_new_token(user, now);
                LoginResponse::Success(token)
            },
        }
    }

    /// Adds a note-card set id to the user with this session token.
    pub fn register_notecard_id(&mut self, notecard_id: String, token: &String)
        requires
            old(self).wf(),
        ensures
            final(self).wf(),
            final(self).sessions() == old(self).sessions(),
            final(self).expiry_log() == old(self).expiry_log(),
            final(self).failures() == old(self).failures(),
            final(self).accounts().len() == old(self).accounts().len(),
            match lookup(old(self).sessions(), token@) {
                Some(id) => {
                    &&& final(self).accounts()[id as int].uploaded_sets@ == old(self).accounts()[id as int].uploaded_sets@.push(notecard_id)
                    &&& final(self).accounts()[id as int].username == old(self).accounts()[id as int].username
                    &&& forall|j: int| 0 <= j < old(self).accounts().len() && j != id ==> final(self).accounts()[j] == old(self).accounts()[j]
                },
                None => final(self).accounts() == old(self).accounts(),
            },
    {
        if let Some(id) = self.logged_in_users.get(token.as_str()) {
            let ghost before = self.users@;
            let mut user = self.users.remove(id);
            user.uploaded_sets.push(notecard_id);
            self.users.insert(id, user);
            proof {
                assert forall|j: int| 0 <= j < before.len() && j != id implies self.users@[j] == before[j] by {
                    if j < id {
                        assert(self.users@[j] == before.remove(id as int)[j]);
                    } else {
                        assert(self.users@[j] == before.remove(id as int)[j - 1]);
                    }
                }
            }
        }
    }

    /// The user with this session token.
    pub fn get_user(&self, token: &String) -> (r: Option<&User>)
        requires
            self.wf(),
        ensures
            match lookup(self.sessions(), token@) {
                Some(id) => r == Some(&self.accounts()[id as int]),
                None => r is None,
            },
    {
        match self.logged_in_users.get(token.as_str()) {
            Some(id) => Some(&self.users[id]),
            None => None,
        }
    }

    /// Lets the tokens at the front of the log that expired before `now`
    /// expire: they are dropped from the log and no longer lead to their
    /// users. Returns the users they led to, whose data is to be saved.
    #[verifier::spinoff_prover]
    #[verifier::rlimit(30)]
    pub fn cleanup_expired_tokens(&mut self, now: i64) -> (r: Vec<UserId>)
        requires
            old(self).wf(),
        ensures
            final(self).wf(),
            final(self).accounts() == old(self).accounts(),
            final(self).failures() == old(self).failures(),
            ({
                let k = old(self).expiry_log().len() - final(self).expiry_log().len();
                &&& 0 <= k <= old(self).expiry_log().len()
                &&& final(self).expiry_log() == old(self).expiry_log().skip(k)
                &&& forall|i: int| 0 <= i < k ==> (#[trigger] old(self).expiry_log()[i]).1 < now
                &&& k < old(self).expiry_log().len() ==> old(self).expiry_log()[k].1 >= now
                &&& final(self).sessions() == expire_sessions(old(self).sessions(), old(self).expiry_log().take(k))
                &&& r@ == expired_users(old(self).sessions(), old(self).expiry_log().take(k))
                &&& forall|i: int| 0 <= i < r@.len() ==> (#[trigger] r@[i]) < old(self).accounts().len()
                &&& forall|i: int| 0 <= i < k ==> !final(self).sessions().contains_key((#[trigger] old(self).expiry_log()[i]).0@)
                &&& forall|key: Seq<char>| (forall|i: int| 0 <= i < k ==> (#[trigger] old(self).expiry_log()[i]).0@ != key)
                    ==> (#[trigger] final(self).sessions().contains_key(key) == old(self).sessions().contains_key(key))
                &&& forall|key: Seq<char>| #[trigger] final(self).sessions().contains_key(key)
                    ==> old(self).sessions().contains_key(key) && final(self).sessions()[key] == old(self).sessions()[key]
                &&& r@.len() <= k
                &&& forall|j: int| 0 <= j < r@.len() ==> led_to_by(old(self).sessions(), old(self).expiry_log().take(k), #[trigger] r@[j])
                &&& forall|i: int| 0 <= i < k && old(self).sessions().contains_key((#[trigger] old(self).expiry_log()[i]).0@)
                    ==> r@.contains(old(self).sessions()[old(self).expiry_log()[i].0@])
            }),
    {
        let mut removed: Vec<UserId> = Vec::new();
        let ghost log0 = self.cleanup_logger@;
        let ghost sessions0 = self.logged_in_users.view();
        let ghost mut k: int = 0;
        while self.cleanup_logger.len() > 0 && self.cleanup_logger[0].1 < now
            invariant
                self.wf(),
                self.users@ == old(self).users@,
                self.sus_ips == old(self).sus_ips,
                0 <= k <= log0.len(),
                self.cleanup_logger@ == log0.skip(k),
                forall|i: int| 0 <= i < k ==> (#[trigger] log0[i]).1 < now,
                self.logged_in_users.view() == expire_sessions(sessions0, log0.take(k)),
                sessions0 == old(self).sessions(),
                removed@ == expired_users(sessions0, log0.take(k)),
                forall|i: int| 0 <= i < removed@.len() ==> (#[trigger] removed@[i]) < self.users@.len(),
            decreases self.cleanup_logger@.len(),
        {
            let popped = self.cleanup_logger.remove(0);
            proof {
                assert(popped == log0[k]);
                assert(log0.take(k + 1) =~= log0.take(k).push(popped));
                assert(log0.take(k + 1).drop_last() =~= log0.take(k));
                assert(log0.take(k + 1).last() == popped);
            }
            let user = self.logged_in_users.remove(popped.0.as_str());
            if let Some(u) = user {
                removed.push(u);
            }
            proof {
                k = k + 1;
                assert(self.cleanup_logger@ =~= log0.skip(k));
            }
        }
        proof {
            let done = log0.take(k);
            lemma_expired_tokens_dropped(sessions0, done);
            lemma_expired_users_are_theirs(sessions0, done);
            assert forall|i: int| 0 <= i < k implies #[trigger] done[i] == log0[i] by {}
            assert forall|key: Seq<char>| (forall|i: int| 0 <= i < k ==> (#[trigger] log0[i]).0@ != key)
                implies (#[trigger] self.logged_in_users.view().contains_key(key) == sessions0.contains_key(key)) by {
                assert forall|i: int| 0 <= i < done.len() implies (#[trigger] done[i]).0@ != key by {
                    assert(done[i] == log0[i]);
                }
            }
            assert forall|i: int| 0 <= i < k implies !self.logged_in_users.view().contains_key((#[trigger] log0[i]).0@) by {
                assert(done[i] == log0[i]);
            }
            assert forall|i: int| 0 <= i < k && sessions0.contains_key((#[trigger] log0[i]).0@)
                implies removed@.contains(sessions0[log0[i].0@]) by {
                assert(done[i] == log0[i]);
            }
            assert(log0.len() - self.cleanup_logger@.len() == k);
        }
        removed
    }
}

/// The sessions left once the tokens of `expired` are dropped.
pub open spec fn expire_sessions(sessions: Map<Seq<char>, UserId>, expired: Seq<(String, i64)>) -> Map<Seq<char>, UserId>
    decreases expired.len(),
{
    if expired.len() == 0 {
        sessions
    } else {
        expire_sessions(sessions, expired.drop_last()).remove(expired.last().0@)
    }
}

/// The users that the tokens of `expired` still led to when each was
/// dropped, in order.
pub open spec fn expired_users(sessions: Map<Seq<char>, UserId>, expired: Seq<(String, i64)>) -> Seq<UserId>
    decreases expired.len(),
{
    if expired.len() == 0 {
        Seq::empty()
    } else {
        let before = expire_sessions(sessions, expired.drop_last());
        let users = expired_users(sessions, expired.drop_last());
        if before.contains_key(expired.last().0@) {
            users.push(before[expired.last().0@])
        } else {
            users
        }
    }
}

/// Law: dropping the tokens of `expired` from the sessions leaves none of
/// them leading anywhere, and changes nothing else: every other token leads
/// where it led before, and no token is added.
pub proof fn lemma_expired_tokens_dropped(sessions: Map<Seq<char>, UserId>, expired: Seq<(String, i64)>)
    ensures
        forall|i: int| 0 <= i < expired.len() ==> !expire_sessions(sessions, expired).contains_key((#[trigger] expired[i]).0@),
        forall|key: Seq<char>| (forall|i: int| 0 <= i < expired.len() ==> (#[trigger] expired[i]).0@ != key)
            ==> (#[trigger] expire_sessions(sessions, expired).contains_key(key) == sessions.contains_key(key)),
        forall|key: Seq<char>| #[trigger] expire_sessions(sessions, expired).contains_key(key)
            ==> sessions.contains_key(key) && expire_sessions(sessions, expired)[key] == sessions[key],
    decreases expired.len(),
{
    if expired.len() > 0 {
        let init = expired.drop_last();
        lemma_expired_tokens_dropped(sessions, init);
        let prev = expire_sessions(sessions, init);
        let cur = expire_sessions(sessions, expired);
        let last = expired[expired.len() - 1].0@;
        assert(cur == prev.remove(last));
        assert forall|i: int| 0 <= i < expired.len() implies !cur.contains_key((#[trigger] expired[i]).0@) by {
            if i < expired.len() - 1 {
                assert(init[i] == expired[i]);
                assert(!prev.contains_key(init[i].0@));
            }
        }
        assert forall|key: Seq<char>| (forall|i: int| 0 <= i < expired.len() ==> (#[trigger] expired[i]).0@ != key)
            implies (#[trigger] cur.contains_key(key) == sessions.contains_key(key)) by {
            assert forall|i: int| 0 <= i < init.len() implies (#[trigger] init[i]).0@ != key by {
                assert(init[i] == expired[i]);
            }
            assert(expired[expired.len() - 1].0@ != key);
            assert(prev.contains_key(key) == sessions.contains_key(key));
            assert(cur.contains_key(key) == prev.contains_key(key));
        }
        assert forall|key: Seq<char>| #[trigger] cur.contains_key(key)
            implies sessions.contains_key(key) && cur[key] == sessions[key] by {
            assert(prev.contains_key(key) && cur[key] == prev[key]);
        }
    }
}

/// Some token of `expired` led to user `u`.
pub open spec fn led_to_by(sessions: Map<Seq<char>, UserId>, expired: Seq<(String, i64)>, u: UserId) -> bool {
    exists|i: int| 0 <= i < expired.len() && sessions.contains_key((#[trigger] expired[i]).0@) && u == sessions[expired[i].0@]
}

/// Law: the users handed back when the tokens of `expired` are dropped are
/// the users those tokens led to: each is the user of one of the tokens,
/// every token that led to a user has that user among them, and there is at
/// most one per token.
pub proof fn lemma_expired_users_are_theirs(sessions: Map<Seq<char>, UserId>, expired: Seq<(String, i64)>)
    ensures
        expired_users(sessions, expired).len() <= expired.len(),
        forall|j: int| 0 <= j < expired_users(sessions, expired).len() ==> led_to_by(sessions, expired, #[trigger] expired_users(sessions, expired)[j]),
        forall|i: int| 0 <= i < expired.len() && sessions.contains_key((#[trigger] expired[i]).0@)
            ==> expired_users(sessions, expired).contains(sessions[expired[i].0@]),
    decreases expired.len(),
{
    if expired.len() > 0 {
        let init = expired.drop_last();
        let e = expired.last();
        lemma_expired_users_are_theirs(sessions, init);
        lemma_expired_tokens_dropped(sessions, init);
        let before = expire_sessions(sessions, init);
        let prev = expired_users(sessions, init);
        let users = expired_users(sessions, expired);
        assert forall|j: int| 0 <= j < users.len() implies led_to_by(sessions, expired, #[trigger] users[j]) by {
            if j < prev.len() {
                assert(users[j] == prev[j]);
                assert(led_to_by(sessions, init, prev[j]));
                let i = choose|i: int| 0 <= i < init.len() && sessions.contains_key((#[trigger] init[i]).0@) && prev[j] == sessions[init[i].0@];
                assert(init[i] == expired[i]);
                assert(sessions.contains_key(expired[i].0@) && users[j] == sessions[expired[i].0@]);
            } else {
                assert(before.contains_key(e.0@));
                assert(expired[expired.len() - 1] == e);
                assert(sessions.contains_key(expired[expired.len() - 1].0@) && users[j] == sessions[expired[expired.len() - 1].0@]);
            }
        }
        assert forall|i: int| 0 <= i < expired.len() && sessions.contains_key((#[trigger] expired[i]).0@)
            implies users.contains(sessions[expired[i].0@]) by {
            if i < expired.len() - 1 {
                assert(init[i] == expired[i]);
                let j = choose|j: int| 0 <= j < prev.len() && prev[j] == sessions[init[i].0@];
                assert(users[j] == prev[j]);
            } else if before.contains_key(e.0@) {
                assert(users[users.len() - 1] == sessions[e.0@]);
            } else {
                let i2 = choose|i2: int| 0 <= i2 < init.len() && (#[trigger] init[i2]).0@ == e.0@;
                assert(sessions.contains_key(init[i2].0@));
                let j = choose|j: int| 0 <= j < prev.len() && prev[j] == sessions[init[i2].0@];
                assert(users[j] == prev[j]);
            }
        }
    }
}

} // verus!
