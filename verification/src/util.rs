//! Helpers of the game protocol: error texts, request unpacking and the
//! leaderboard (player lists sorted by score).
use vstd::prelude::*;
use vstd::multiset::Multiset;

use crate::protocol::{is_error_response, pogootRequest, pogootResponse, requestType, responseType, Data};
use crate::text::{json_quote, json_string, owned, str_eq};

verus! {

/// One entry of a player list: token, username, score.
pub type PlayerEntry = (String, String, usize);

/// `entry` is the player with this username and token.
pub open spec fn is_player(entry: PlayerEntry, username: Seq<char>, token: Seq<char>) -> bool {
    entry.1@ == username && entry.0@ == token
}

/// Inserts `x` into a list sorted by decreasing score, after every entry whose
/// score is at least that of `x`.
pub open spec fn insert_by_score(sorted: Seq<PlayerEntry>, x: PlayerEntry) -> Seq<PlayerEntry>
    decreases sorted.len(),
{
    if sorted.len() == 0 {
        seq![x]
    } else if sorted.last().2 >= x.2 {
        sorted.push(x)
    } else {
        insert_by_score(sorted.drop_last(), x).push(sorted.last())
    }
}

/// The list sorted by decreasing score; entries with equal scores keep their
/// order (a stable sort).
pub open spec fn sort_by_score(s: Seq<PlayerEntry>) -> Seq<PlayerEntry>
    decreases s.len(),
{
    if s.len() == 0 {
        s
    } else {
        insert_by_score(sort_by_score(s.drop_last()), s.last())
    }
}

/// The scores never increase along the list.
pub open spec fn scores_descending(s: Seq<PlayerEntry>) -> bool {
    forall|i: int, j: int| 0 <= i <= j < s.len() ==> s[i].2 >= s[j].2
}

/// The index of the first entry of `s` that is the given player, or -1.
pub open spec fn first_player_index(s: Seq<PlayerEntry>, username: Seq<char>, token: Seq<char>) -> int
    decreases s.len(),
{
    if s.len() == 0 {
        -1
    } else {
        let p = first_player_index(s.drop_last(), username, token);
        if p >= 0 {
            p
        } else if is_player(s.last(), username, token) {
            s.len() - 1
        } else {
            -1
        }
    }
}

/// Inserting into a descending list keeps it descending and adds exactly `x`.
pub proof fn lemma_insert_by_score(sorted: Seq<PlayerEntry>, x: PlayerEntry)
    requires
        scores_descending(sorted),
    ensures
        scores_descending(insert_by_score(sorted, x)),
        insert_by_score(sorted, x).to_multiset() == sorted.to_multiset().insert(x),
        insert_by_score(sorted, x).len() == sorted.len() + 1,
    decreases sorted.len(),
{
    broadcast use vstd::seq_lib::group_to_multiset_ensures;
    if sorted.len() == 0 {
        assert(seq![x].to_multiset() =~= Multiset::empty().insert(x)) by {
            assert(seq![x] =~= Seq::<PlayerEntry>::empty().push(x));
        }
    } else if sorted.last().2 >= x.2 {
    } else {
        let init = sorted.drop_last();
        lemma_insert_by_score(init, x);
        let r = insert_by_score(init, x);
        assert(sorted =~= init.push(sorted.last()));
        assert forall|i: int, j: int| 0 <= i <= j < r.push(sorted.last()).len() implies
            r.push(sorted.last())[i].2 >= r.push(sorted.last())[j].2 by {
            if j == r.len() {
                if i < r.len() {
                    lemma_insert_elements(init, x, i);
                }
            }
        }
        assert(r.push(sorted.last()).to_multiset() =~= sorted.to_multiset().insert(x));
    }
}

/// Every entry of an insertion is `x` or an entry of the list it went into.
proof fn lemma_insert_elements(sorted: Seq<PlayerEntry>, x: PlayerEntry, i: int)
    requires
        0 <= i < insert_by_score(sorted, x).len(),
    ensures
        insert_by_score(sorted, x)[i] == x || exists|k: int| 0 <= k < sorted.len() && sorted[k] == insert_by_score(sorted, x)[i],
    decreases sorted.len(),
{
    if sorted.len() == 0 {
    } else if sorted.last().2 >= x.2 {
        if i < sorted.len() {
            assert(sorted[i] == insert_by_score(sorted, x)[i]);
        }
    } else {
        let init = sorted.drop_last();
        let r = insert_by_score(init, x);
        if i < r.len() {
            lemma_insert_elements(init, x, i);
            if r[i] != x {
                let k = choose|k: int| 0 <= k < init.len() && init[k] == r[i];
                assert(sorted[k] == init[k]);
            }
        } else {
            assert(sorted[sorted.len() - 1] == insert_by_score(sorted, x)[i]);
        }
    }
}

/// Law: sorting a player list gives a list of the same entries, by
/// decreasing score.
pub proof fn lemma_sort_by_score(s: Seq<PlayerEntry>)
    ensures
        scores_descending(sort_by_score(s)),
        sort_by_score(s).to_multiset() == s.to_multiset(),
        sort_by_score(s).len() == s.len(),
    decreases s.len(),
{
    broadcast use vstd::seq_lib::group_to_multiset_ensures;
    if s.len() == 0 {
    } else {
        lemma_sort_by_score(s.drop_last());
        lemma_insert_by_score(sort_by_score(s.drop_last()), s.last());
        assert(s =~= s.drop_last().push(s.last()));
    }
}

/// In a descending list, inserting `x` is putting it at the first position
/// whose score is below that of `x`.
proof fn lemma_insert_at_position(sorted: Seq<PlayerEntry>, x: PlayerEntry, p: int)
    requires
        scores_descending(sorted),
        0 <= p <= sorted.len(),
        forall|k: int| 0 <= k < p ==> sorted[k].2 >= x.2,
        p < sorted.len() ==> sorted[p].2 < x.2,
    ensures
        insert_by_score(sorted, x) == sorted.insert(p, x),
    decreases sorted.len(),
{
    if sorted.len() == 0 {
        assert(sorted.insert(p, x) =~= seq![x]);
    } else if sorted.last().2 >= x.2 {
        assert(p == sorted.len());
        assert(sorted.insert(p, x) =~= sorted.push(x));
    } else {
        let init = sorted.drop_last();
        assert(p < sorted.len());
        lemma_insert_at_position(init, x, p);
        assert(sorted.insert(p, x) =~= init.insert(p, x).push(sorted.last()));
    }
}

/// The JSON text of the standard error response that carries `msg`.
pub open spec fn standard_error_text(msg: Seq<char>) -> Seq<char> {
    "{\"response\":\"errorResponse\",\"data\":{\"StandardErrorData\":"@ + json_string(msg) + "}}"@
}

/// A websocket message as the server read it.
pub enum Incoming {
    /// A text that reads as a request.
    Request(pogootRequest),
    /// A text that does not read as a request.
    Unreadable,
    /// Not a text message.
    NotText,
}

/// Helpers of the game protocol.
pub struct util {}

impl util {
    /// The JSON text of the standard error response that carries `msg`; when
    /// it could not be written (which does not happen), `msg` itself.
    pub fn standard_error(msg: &str) -> (r: String)
        ensures
            r@ == standard_error_text(msg@),
    {
        match json_quote(msg) {
            Some(q) => {
                let mut out = owned("{\"response\":\"errorResponse\",\"data\":{\"StandardErrorData\":");
                out.append(q.as_str());
                out.append("}}");
                out
            },
            None => owned(msg),
        }
    }

    /// Tells whether the data is login data.
    pub fn verify_data_is_login(data: &Data) -> (r: bool)
        ensures
            r == (data is LoginData),
    {
        match data {
            Data::LoginData(_, _) => true,
            _ => false,
        }
    }

    /// Tells whether the data is temporary-login data.
    pub fn verify_data_is_temp(data: &Data) -> (r: bool)
        ensures
            r == (data is TempData),
    {
        match data {
            Data::TempData(_) => true,
            _ => false,
        }
    }

    /// Tells whether the data is register data.
    pub fn verify_data_is_register(data: &Data) -> (r: bool)
        ensures
            r == (data is RegisterData),
    {
        match data {
            Data::RegisterData(_, _) => true,
            _ => false,
        }
    }

    /// The username and password of login or register data; for temporary
    /// login data, the username and an empty password.
    pub fn unpack_login_data(data: Data) -> (r: Result<(String, String), pogootResponse>)
        ensures
            match data {
                Data::LoginData(u, p) => r == Ok::<(String, String), pogootResponse>((u, p)),
                Data::RegisterData(u, p) => r == Ok::<(String, String), pogootResponse>((u, p)),
                Data::TempData(u) => r matches Ok(pair) && pair.0 == u && pair.1@ == Seq::<char>::empty(),
                _ => r matches Err(e) && is_error_response(e, "Not login request"@),
            },
    {
        match data {
            Data::LoginData(username, password) => Ok((username, password)),
            Data::RegisterData(username, password) => Ok((username, password)),
            Data::TempData(username) => Ok((username, String::new())),
            _ => Err(pogootResponse::standard_error_message("Not login request")),
        }
    }

    /// The request a message carries, or the error that answers it.
    pub fn parse_msg_to_pogoot(msg: Incoming) -> (r: Result<pogootRequest, pogootResponse>)
        ensures
            match msg {
                Incoming::Request(req) => r == Ok::<pogootRequest, pogootResponse>(req),
                Incoming::Unreadable => r matches Err(e) && is_error_response(e, "Parse to request failed"@),
                Incoming::NotText => r matches Err(e) && is_error_response(e, "Message not text"@),
            },
    {
        match msg {
            Incoming::Request(req) => Ok(req),
            Incoming::Unreadable => Err(pogootResponse::standard_error_message("Parse to request failed")),
            Incoming::NotText => Err(pogootResponse::standard_error_message("Message not text")),
        }
    }

    /// The token of a token-verification request.
    pub fn unpack_token_verify(request: pogootRequest) -> (r: Result<String, pogootResponse>)
        ensures
            match (request.request, request.data) {
                (requestType::VerifyToken, Data::VerifyToken(t)) => r == Ok::<String, pogootResponse>(t),
                (requestType::VerifyToken, _) => r matches Err(e) && is_error_response(e, "Not Verify Token Data"@),
                _ => r matches Err(e) && is_error_response(e, "Request is not VerifyToken"@),
            },
    {
        match request.request {
            requestType::VerifyToken => match request.data {
                Data::VerifyToken(token) => Ok(token),
                _ => Err(pogootResponse::standard_error_message("Not Verify Token Data")),
            },
            _ => Err(pogootResponse::standard_error_message("Request is not VerifyToken")),
        }
    }

    /// Sorts the player list by decreasing score; players with equal scores
    /// keep their order.
    pub fn sort_player_list(player_list: &mut Vec<PlayerEntry>)
        ensures
            final(player_list)@ == sort_by_score(old(player_list)@),
    {
        let ghost unsorted = player_list@;
        let mut rest = player_list.split_off(0);
        assert(rest@ =~= unsorted);
        let mut sorted: Vec<PlayerEntry> = Vec::new();
        let ghost mut taken: int = 0;
        proof {
            assert(unsorted.take(0) =~= Seq::<PlayerEntry>::empty());
        }
        while rest.len() > 0
            invariant
                0 <= taken,
                taken + rest@.len() == unsorted.len(),
                rest@ == unsorted.skip(taken),
                sorted@ == sort_by_score(unsorted.take(taken)),
            decreases rest@.len(),
        {
            let x = rest.remove(0);
            proof {
                lemma_sort_by_score(unsorted.take(taken));
            }
            let mut p: usize = 0;
            while p < sorted.len() && sorted[p].2 >= x.2
                invariant
                    p <= sorted@.len(),
                    forall|k: int| 0 <= k < p ==> sorted@[k].2 >= x.2,
                decreases sorted@.len() - p,
            {
                p = p + 1;
            }
            proof {
                lemma_insert_at_position(sorted@, x, p as int);
                assert(unsorted.take(taken + 1).drop_last() =~= unsorted.take(taken));
                assert(unsorted.take(taken + 1).last() == x);
                assert(x == unsorted[taken]);
            }
            sorted.insert(p, x);
            proof {
                taken = taken + 1;
                assert(rest@ =~= unsorted.skip(taken));
            }
        }
        proof {
            assert(unsorted.take(taken) =~= unsorted);
        }
        *player_list = sorted;
    }

    /// Sorts the player list, then reports to the given player their score,
    /// the name of the player just ahead of them and how many points that
    /// player is ahead; an error response when the player is not in the list.
    pub fn get_relevant_data(player_list: &mut Vec<PlayerEntry>, username: &str, token: &str) -> (r: pogootResponse)
        ensures
            final(player_list)@ == sort_by_score(old(player_list)@),
            ({
                let s = final(player_list)@;
                let i = first_player_index(s, username@, token@);
                &&& i < 0 ==> is_error_response(r, "Player Not Found In Player List"@)
                &&& i >= 0 ==> {
                    &&& r.response is gameUpdateResponse
                    &&& r.data matches Data::gameUpdateData(points, ahead, gap)
                    &&& points == s[i].2
                    &&& ahead@ == (if i > 0 { s[i - 1].1@ } else { Seq::<char>::empty() })
                    &&& gap == (if i > 0 { s[i - 1].2 - s[i].2 } else { 0 })
                }
            }),
    {
        Self::sort_player_list(player_list);
        proof {
            lemma_sort_by_score(old(player_list)@);
        }
        let ghost s = player_list@;
        let mut i: usize = 0;
        while i < player_list.len()
            invariant
                s == player_list@,
                s == sort_by_score(old(player_list)@),
                scores_descending(s),
                i <= s.len(),
                first_player_index(s.take(i as int), username@, token@) == -1,
            decreases s.len() - i,
        {
            proof {
                assert(s.take(i + 1).drop_last() =~= s.take(i as int));
                lemma_first_index_prefix(s, username@, token@, i as int);
            }
            if str_eq(player_list[i].1.as_str(), username) && str_eq(player_list[i].0.as_str(), token) {
                let mut in_front = String::new();
                let mut gap: usize = 0;
                if i > 0 {
                    in_front = player_list[i - 1].1.clone();
                    gap = player_list[i - 1].2 - player_list[i].2;
                }
                return pogootResponse {
                    response: responseType::gameUpdateResponse,
                    data: Data::gameUpdateData(player_list[i].2, in_front, gap),
                };
            }
            i = i + 1;
        }
        proof {
            assert(s.take(i as int) =~= s);
        }
        pogootResponse::standard_error_message("Player Not Found In Player List")
    }

    /// Turns an answer request of the given player into the internal answer
    /// request that the game processes.
    pub fn map_answer_to_internal(request: pogootRequest, username: &str, token: &str) -> (r: Result<pogootRequest, pogootResponse>)
        ensures
            match request.data {
                Data::AnswerData(id, answer) => {
                    &&& r matches Ok(req)
                    &&& r->Ok_0.request is InternalAnswer
                    &&& r->Ok_0.data matches Data::InternalAnswerData(u, t, qid, a)
                    &&& u@ == username@ && t@ == token@ && qid == id && a == answer
                },
                _ => r matches Err(e) && is_error_response(e, "Could not parse to internal answer"@),
            },
    {
        match request.data {
            Data::AnswerData(id, answer) => Ok(pogootRequest {
                request: requestType::InternalAnswer,
                data: Data::InternalAnswerData(owned(username), owned(token), id, answer),
            }),
            _ => Err(pogootResponse::standard_error_message("Could not parse to internal answer")),
        }
    }
}

/// The first match in a prefix one longer is the one in the shorter prefix,
/// else the new last entry when it matches.
proof fn lemma_first_index_prefix(s: Seq<PlayerEntry>, username: Seq<char>, token: Seq<char>, i: int)
    requires
        0 <= i < s.len(),
        first_player_index(s.take(i), username, token) == -1,
    ensures
        first_player_index(s.take(i + 1), username, token) == (if is_player(s[i], username, token) { i } else { -1 }),
        is_player(s[i], username, token) ==> first_player_index(s, username, token) == i,
        !is_player(s[i], username, token) ==> first_player_index(s.take(i + 1), username, token) == -1,
{
    assert(s.take(i + 1).drop_last() =~= s.take(i));
    if is_player(s[i], username, token) {
        lemma_first_index_extends(s, username, token, i + 1);
    }
}

/// Once the first match lies in a prefix, longer prefixes keep it.
proof fn lemma_first_index_extends(s: Seq<PlayerEntry>, username: Seq<char>, token: Seq<char>, n: int)
    requires
        0 <= n <= s.len(),
        first_player_index(s.take(n), username, token) >= 0,
    ensures
        first_player_index(s, username, token) == first_player_index(s.take(n), username, token),
    decreases s.len() - n,
{
    if n == s.len() {
        assert(s.take(n) =~= s);
    } else {
        assert(s.take(n + 1).drop_last() =~= s.take(n));
        lemma_first_index_extends(s, username, token, n + 1);
    }
}

} // verus!
