//! The login endpoint of the game server: what it makes of a request before
//! the login thread sees it, what it answers from the thread's reply, and
//! the list of ips a user logged in from.
use vstd::prelude::*;

use crate::protocol::{pogootRequest, requestType, Data};
use crate::storage::now_millis;
use crate::text::str_eq;
use crate::util::{standard_error_text, util};

verus! {

/// A game a logged-in user may rejoin.
pub enum LoginGameData {
    /// The id of a quiz game and the reconnection token for it.
    PogootGame(String, String),
}

/// The kinds of request the login system serves.
pub enum loginRequestTypes {
    Register,
    Login,
    TokenVerify,
    Temp,
    Anon,
}

/// The data of a request to the login thread (its reply channel travels
/// beside it).
pub enum loginData {
    /// Username, password, ip.
    Login(String, String, String),
    /// Username, password, ip.
    Register(String, String, String),
    /// Token, ip.
    TokenVerify(String, String),
    /// Username.
    Temp(String),
    Empty,
}

/// A request to the login thread.
pub struct loginRequest {
    pub request_type: loginRequestTypes,
    pub data: loginData,
}

/// The answers of the endpoint when the login thread cannot be asked, does
/// not answer, or answers with an error.
pub struct LoginFailures {
    pub channel_lost: String,
    pub no_reply: String,
    pub refused: String,
}

/// What the login endpoint does with a request.
pub enum LoginRoute {
    /// Answer at once with this text.
    Reply(String),
    /// Ask the login thread, answering with one of these texts when that fails.
    Ask(loginRequest, LoginFailures),
}

/// `f` holds the standard error texts of these three messages.
pub open spec fn failures_are(f: LoginFailures, lost: Seq<char>, none: Seq<char>, refused: Seq<char>) -> bool {
    &&& f.channel_lost@ == standard_error_text(lost)
    &&& f.no_reply@ == standard_error_text(none)
    &&& f.refused@ == standard_error_text(refused)
}

/// `r` answers at once with the standard error carrying `msg`.
pub open spec fn replies_error(r: LoginRoute, msg: Seq<char>) -> bool {
    r matches LoginRoute::Reply(t) && t@ == standard_error_text(msg)
}

/// The failure texts of a login, a registration and a temporary login.
fn failures(lost: &str, none: &str, refused: &str) -> (f: LoginFailures)
    ensures
        failures_are(f, lost@, none@, refused@),
{
    LoginFailures { channel_lost: util::standard_error(lost), no_reply: util::standard_error(none), refused: util::standard_error(refused) }
}

/// Decides what the login endpoint does with a request from `ip`. A login
/// needs login data and a registration register data (each a username and a
/// password), a temporary login needs temporary data (a username); anything
/// else is refused at once.
pub fn login_route(json: pogootRequest, ip: String) -> (r: LoginRoute)
    ensures
        match json.request {
            requestType::Login => match json.data {
                Data::LoginData(u, p) => r matches LoginRoute::Ask(req, f)
                    && req.request_type is Login && req.data == loginData::Login(u, p, ip)
                    && failures_are(f, "Login channel died"@, "Login failed"@, "Callback receive failed"@),
                _ => replies_error(r, "Data not correct for login"@),
            },
            requestType::Register => match json.data {
                Data::RegisterData(u, p) => r matches LoginRoute::Ask(req, f)
                    && req.request_type is Register && req.data == loginData::Register(u, p, ip)
                    && failures_are(f, "Register channel died"@, "Register failed"@, "Callback receive failed"@),
                _ => replies_error(r, "Data not correct for register"@),
            },
            requestType::Temp => match json.data {
                Data::TempData(u) => r matches LoginRoute::Ask(req, f)
                    && req.request_type is Temp && req.data == loginData::Temp(u)
                    && failures_are(f, "Login request failed"@, "Callback message not OK"@, "Callback message failed"@),
                _ => replies_error(r, "Data not correct for Temp login"@),
            },
            _ => replies_error(r, "Not login request"@),
        },
{
    match json.request {
        requestType::Login => match json.data {
            Data::LoginData(u, p) => LoginRoute::Ask(
                loginRequest { request_type: loginRequestTypes::Login, data: loginData::Login(u, p, ip) },
                failures("Login channel died", "Login failed", "Callback receive failed"),
            ),
            _ => LoginRoute::Reply(util::standard_error("Data not correct for login")),
        },
        requestType::Register => match json.data {
            Data::RegisterData(u, p) => LoginRoute::Ask(
                loginRequest { request_type: loginRequestTypes::Register, data: loginData::Register(u, p, ip) },
                failures("Register channel died", "Register failed", "Callback receive failed"),
            ),
            _ => LoginRoute::Reply(util::standard_error("Data not correct for register")),
        },
        requestType::Temp => match json.data {
            Data::TempData(u) => LoginRoute::Ask(
                loginRequest { request_type: loginRequestTypes::Temp, data: loginData::Temp(u) },
                failures("Login request failed", "Callback message not OK", "Callback message failed"),
            ),
            _ => LoginRoute::Reply(util::standard_error("Data not correct for Temp login")),
        },
        _ => LoginRoute::Reply(util::standard_error("Not login request")),
    }
}

/// The endpoint's answer from the login thread's reply: the text it sent,
/// or the failure text when it sent an error or nothing.
pub fn login_reply(reply: Option<Result<String, crate::protocol::pogootResponse>>, failures: LoginFailures) -> (r: String)
    ensures
        match reply {
            Some(Ok(t)) => r == t,
            Some(Err(_)) => r == failures.refused,
            None => r == failures.no_reply,
        },
{
    match reply {
        Some(Ok(t)) => t,
        Some(Err(_)) => failures.refused,
        None => failures.no_reply,
    }
}

/// An ip a user logged in from, with the first and the latest time (in
/// milliseconds since the epoch).
pub struct IpEntry {
    pub ip: String,
    pub time: i64,
    pub recent_time: i64,
}

impl IpEntry {
    /// Marks the entry as used now.
    pub fn update_time(&mut self)
        ensures
            final(self).ip == old(self).ip,
            final(self).time == old(self).time,
    {
        self.recent_time = now_millis();
    }
}

/// The ips a user logged in from.
pub struct IpList {
    pub ip_list: Vec<IpEntry>,
}

/// The ips of the entries, in order.
pub open spec fn ips_of(entries: Seq<IpEntry>) -> Seq<Seq<char>> {
    entries.map_values(|e: IpEntry| e.ip@)
}

impl IpList {
    /// Tells whether the list has an entry for the ip.
    pub fn ip_exists(&self, x: &str) -> (r: bool)
        ensures
            r == ips_of(self.ip_list@).contains(x@),
    {
        let mut i: usize = 0;
        while i < self.ip_list.len()
            invariant
                i <= self.ip_list@.len(),
                forall|j: int| 0 <= j < i ==> (#[trigger] self.ip_list@[j]).ip@ != x@,
            decreases self.ip_list@.len() - i,
        {
            if str_eq(self.ip_list[i].ip.as_str(), x) {
                proof {
                    assert(ips_of(self.ip_list@)[i as int] == x@);
                }
                return true;
            }
            i = i + 1;
        }
        proof {
            if ips_of(self.ip_list@).contains(x@) {
                let k = choose|k: int| 0 <= k < ips_of(self.ip_list@).len() && ips_of(self.ip_list@)[k] == x@;
                assert(self.ip_list@[k].ip@ == x@);
            }
        }
        false
    }

    /// Adds an entry for the ip, first and latest used now; it does not look
    /// for an entry already there.
    pub fn addEntry(&mut self, ip: String)
        ensures
            final(self).ip_list@.len() == old(self).ip_list@.len() + 1,
            final(self).ip_list@.drop_last() == old(self).ip_list@,
            final(self).ip_list@.last().ip == ip,
            final(self).ip_list@.last().time == final(self).ip_list@.last().recent_time,
    {
        let now = now_millis();
        self.ip_list.push(IpEntry { ip, time: now, recent_time: now });
        proof {
            assert(self.ip_list@.drop_last() =~= old(self).ip_list@);
        }
    }

    /// Adds the ip when it is new; tells whether it was there already.
    pub fn exists_or_add(&mut self, ip: String) -> (r: bool)
        ensures
            r == ips_of(old(self).ip_list@).contains(ip@),
            r ==> final(self).ip_list@ == old(self).ip_list@,
            !r ==> final(self).ip_list@.drop_last() == old(self).ip_list@ && final(self).ip_list@.last().ip == ip,
            ips_of(final(self).ip_list@).contains(ip@),
    {
        if !self.ip_exists(ip.as_str()) {
            let ghost v = ip@;
            self.addEntry(ip);
            proof {
                let n = self.ip_list@.len() - 1;
                assert(ips_of(self.ip_list@)[n] == v);
            }
            false
        } else {
            true
        }
    }
}

} // verus!
