//! The quiz server in its first form: one websocket per client, a game thread
//! per game. This module holds its wire types and every decision the server
//! makes: what a client's message before the game leads to, who joins or
//! rejoins a lobby, when a lobby gives up or starts, how a round is asked,
//! answered and scored.
use vstd::prelude::*;

pub use crate::protocol::{censoredQuestion, questionList, Question};
use crate::counting::lemma_distinct_below;
use crate::ids::{
    all_completions_taken, completes, digit_symbols, drawn_from, free_text, random_digits, random_token, url_safe_symbols,
};
use crate::protocol::{censor, choice_texts, string_views, text_listed};
use crate::text::{debug_quote, debug_quoted, owned};

verus! {

/// What a client asks for.
pub enum request {
    /// Create a new game; the data carries the questions.
    CreateGame,
    /// Start the game with this id.
    StartGame(String),
    /// Join the game with this id; the data carries the username.
    SubscribeToGame(String),
    /// An answer, an index into the choices.
    Answer(usize),
    /// Rejoin after a disconnection.
    ReSubscribeToGame(String),
}

/// The data that comes with a request.
pub enum Data {
    Empty,
    QuestionUpload(questionList),
    Username(String),
    UsernameAndToken(String, String),
}

/// A request of a client with its data.
pub struct pogootRequest {
    pub requestType: request,
    pub data: Data,
}

/// The server's replies.
pub enum responses {
    errorResponse(String),
    successResponse(String),
    gameCreatedResponse(String),
    gameCreationErrorResponse(String),
    gameNotFoundError,
    sendReconToken,
    reconToken(String),
    reconnectorToken(String),
}

/// What players learn when the game starts.
pub struct gameData {
    pub totalQuestions: usize,
}

/// The commander's commands during the game.
pub enum commanderCommand {
    next,
}

/// What the commander sees between rounds: the standings as (name, score).
pub enum commanderGamePlayResults {
    Leaderboard(Vec<(String, i32)>),
    GameOver(Vec<(String, i32)>),
}

/// A reply to send on a socket.
pub enum Reply {
    /// A response, sent as its JSON text; the fallback text goes out when the
    /// response cannot be written.
    Json(responses, String),
    /// Plain text.
    Text(String),
}

/// `r` is the reply `errorResponse(text)` with `fallback`.
pub open spec fn is_error_reply(r: Reply, text: Seq<char>, fallback: Seq<char>) -> bool {
    &&& r matches Reply::Json(m, f)
    &&& m matches responses::errorResponse(t)
    &&& t@ == text
    &&& f@ == fallback
}

/// `r` is the reply `successResponse(text)` with `fallback`.
pub open spec fn is_success_reply(r: Reply, text: Seq<char>, fallback: Seq<char>) -> bool {
    &&& r matches Reply::Json(m, f)
    &&& m matches responses::successResponse(t)
    &&& t@ == text
    &&& f@ == fallback
}

/// `r` is the plain text `text`.
pub open spec fn is_text_reply(r: Reply, text: Seq<char>) -> bool {
    r matches Reply::Text(t) && t@ == text
}

/// `a` sends the reply `errorResponse(text)` with `fallback`.
pub open spec fn sends_error(a: SocketAction, text: Seq<char>, fallback: Seq<char>) -> bool {
    &&& a matches SocketAction::Send(r)
    &&& is_error_reply(r, text, fallback)
}

/// What happens on a client's socket before it joins or runs a game.
pub enum SocketEvent {
    /// A text message that reads as a request.
    Request(pogootRequest),
    /// A text message that does not read as a request.
    Unreadable(String),
    /// A message that is not text, in its debugging form.
    Unknown(String),
    /// The client left, or the socket failed.
    Closed,
}

/// What the server does about a socket event.
pub enum SocketAction {
    /// Send this reply and keep reading.
    Send(Reply),
    /// Hand this socket to the game opened on it as its commander, tell the
    /// game to start, and end the connection's own loop.
    Launch,
    /// A start without a game opened on this socket: the connection ends.
    NoGame,
    /// Open a new game: fresh start and commander channels, and, with
    /// questions, a registered game thread (`created_reply`); without, the
    /// upload is refused (`invalid_upload_reply`).
    OpenGame(Option<questionList>),
    /// Hand this socket to the game with this id as the player with this
    /// name and end the loop; when there is no such game, send
    /// `game_not_found_reply` and keep reading.
    Join(String, String),
    /// The client left; cancel the game opened on this socket when `true`.
    Leave(bool),
}

/// The state of a client's socket before it joins or runs a game.
pub struct SocketSession {
    /// A game was opened on this socket and waits for its start.
    pub pending_game: bool,
}

impl SocketSession {
    /// A fresh connection: no game opened.
    pub fn new() -> (r: Self)
        ensures
            !r.pending_game,
    {
        SocketSession { pending_game: false }
    }

    /// Decides what a socket event leads to.
    ///
    /// A start launches the game opened on this socket, or ends the
    /// connection when none was; either way no game stays pending. A create
    /// request always opens fresh channels, with the questions when the data
    /// carries them. A join needs a username. Answers are refused before the
    /// game, a rejoin gets an empty reply, and unreadable or unknown messages
    /// are echoed back in their debugging form. When the client leaves, a
    /// pending game is cancelled.
    pub fn step(&mut self, event: SocketEvent) -> (a: SocketAction)
        ensures
            match event {
                SocketEvent::Request(req) => match req.requestType {
                    request::StartGame(_) => {
                        &&& !final(self).pending_game
                        &&& (old(self).pending_game ==> a is Launch)
                        &&& (!old(self).pending_game ==> a is NoGame)
                    },
                    request::CreateGame => {
                        &&& final(self).pending_game
                        &&& (req.data matches Data::QuestionUpload(q) ==> a == SocketAction::OpenGame(Some(q)))
                        &&& (!(req.data is QuestionUpload) ==> a == SocketAction::OpenGame(None))
                    },
                    request::SubscribeToGame(id) => {
                        &&& final(self).pending_game == old(self).pending_game
                        &&& (req.data matches Data::Username(u) ==> a == SocketAction::Join(id, u))
                        &&& (!(req.data is Username) ==> sends_error(a, "Could Not Join Game"@, "Could Not Join Game"@))
                    },
                    request::Answer(_) => {
                        &&& final(self).pending_game == old(self).pending_game
                        &&& a matches SocketAction::Send(r)
                        &&& is_error_reply(r, "Not Taking Answers"@, "Not Taking Answers"@)
                    },
                    request::ReSubscribeToGame(_) => {
                        &&& final(self).pending_game == old(self).pending_game
                        &&& a matches SocketAction::Send(r)
                        &&& is_text_reply(r, Seq::<char>::empty())
                    },
                },
                SocketEvent::Unreadable(text) => {
                    &&& final(self).pending_game == old(self).pending_game
                    &&& a matches SocketAction::Send(r)
                    &&& is_text_reply(r, "invalid string: "@ + debug_quoted(text@))
                },
                SocketEvent::Unknown(shown) => {
                    &&& final(self).pending_game == old(self).pending_game
                    &&& a matches SocketAction::Send(r)
                    &&& is_text_reply(r, "unknown: "@ + shown@)
                },
                SocketEvent::Closed => {
                    &&& final(self).pending_game == old(self).pending_game
                    &&& a == SocketAction::Leave(old(self).pending_game)
                },
            },
    {
        match event {
            SocketEvent::Request(req) => match req.requestType {
                request::StartGame(_) => {
                    let had = self.pending_game;
                    self.pending_game = false;
                    if had {
                        SocketAction::Launch
                    } else {
                        SocketAction::NoGame
                    }
                },
                request::CreateGame => {
                    self.pending_game = true;
                    match req.data {
                        Data::QuestionUpload(q) => SocketAction::OpenGame(Some(q)),
                        _ => SocketAction::OpenGame(None),
                    }
                },
                request::SubscribeToGame(id) => match req.data {
                    Data::Username(u) => SocketAction::Join(id, u),
                    _ => SocketAction::Send(
                        Reply::Json(responses::errorResponse(owned("Could Not Join Game")), owned("Could Not Join Game")),
                    ),
                },
                request::Answer(_) => SocketAction::Send(
                    Reply::Json(responses::errorResponse(owned("Not Taking Answers")), owned("Not Taking Answers")),
                ),
                request::ReSubscribeToGame(_) => SocketAction::Send(Reply::Text(String::new())),
            },
            SocketEvent::Unreadable(text) => {
                let mut out = owned("invalid string: ");
                let shown = debug_quote(text.as_str());
                out.append(shown.as_str());
                SocketAction::Send(Reply::Text(out))
            },
            SocketEvent::Unknown(shown) => {
                let mut out = owned("unknown: ");
                out.append(shown.as_str());
                SocketAction::Send(Reply::Text(out))
            },
            SocketEvent::Closed => SocketAction::Leave(self.pending_game),
        }
    }
}

/// The reply to a launch: whether the socket reached the game and whether
/// the start signal was taken. The signal says to start exactly when the
/// socket arrived, and to delete the game otherwise.
pub fn launch_report(handed: bool, signalled: bool) -> (r: Reply)
    ensures
        handed && signalled ==> is_success_reply(r, "Succesfully started Game"@, "Failed To Parse Success of Start Game"@),
        handed && !signalled ==> is_error_reply(r, "Failed to started Game"@, "Failed To Parse Failure of Start Game"@),
        !handed && signalled ==> is_success_reply(r, "Succesfully deleted Game"@, "Failed To Parse Deletion of Game"@),
        !handed && !signalled ==> is_error_reply(r, "Failed to delete Game"@, "Failed To Parse Failure of Deletion Game"@),
{
    if handed {
        if signalled {
            Reply::Json(responses::successResponse(owned("Succesfully started Game")), owned("Failed To Parse Success of Start Game"))
        } else {
            Reply::Json(responses::errorResponse(owned("Failed to started Game")), owned("Failed To Parse Failure of Start Game"))
        }
    } else {
        if signalled {
            Reply::Json(responses::successResponse(owned("Succesfully deleted Game")), owned("Failed To Parse Deletion of Game"))
        } else {
            Reply::Json(responses::errorResponse(owned("Failed to delete Game")), owned("Failed To Parse Failure of Deletion Game"))
        }
    }
}

/// The reply to a created game: its id, or the bare id when the response
/// cannot be written.
pub fn created_reply(game_id: String) -> (r: Reply)
    ensures
        r matches Reply::Json(m, f) && m == responses::gameCreatedResponse(game_id) && f == game_id,
{
    let fallback = game_id.clone();
    Reply::Json(responses::gameCreatedResponse(game_id), fallback)
}

/// The reply to a create request without questions.
pub fn invalid_upload_reply() -> (r: Reply)
    ensures
        r matches Reply::Json(m, f) && m matches responses::gameCreationErrorResponse(t)
            && t@ == "Invalid Question Upload"@ && f@ == "Invalid Question Upload"@,
{
    Reply::Json(responses::gameCreationErrorResponse(owned("Invalid Question Upload")), owned("Invalid Question Upload"))
}

/// The reply to a join of a game that does not exist.
pub fn game_not_found_reply() -> (r: Reply)
    ensures
        r matches Reply::Json(m, f) && m is gameNotFoundError && f@ == "Game Id Not found"@,
{
    Reply::Json(responses::gameNotFoundError, owned("Game Id Not found"))
}

/// How long a lobby may go without a new player before it is deleted.
pub const INACTIVE_LIMIT_MS: u64 = 120000;

/// How long a round waits for answers.
pub const ANSWER_WINDOW_MS: u64 = 30000;

/// What a lobby does after one of its polls.
pub enum LobbyVerdict {
    /// Keep waiting for players and for the start.
    Wait,
    /// Inactive too long: delete the game.
    Expire,
    /// The start was refused or the commander never arrived: end the game.
    Abandon,
    /// Start the game with the commander that arrived.
    Begin,
}

/// Decides a lobby poll from the time since the last player joined (when
/// the clock could tell), the start signal once it has come (`true` to
/// start), and the commander's arrival once it is settled (`true` when the
/// commander's socket came). Inactivity is checked first; the start is
/// acted on only when both the signal and the commander are settled.
pub fn lobby_verdict(idle_ms: Option<u64>, start: Option<bool>, commander: Option<bool>) -> (r: LobbyVerdict)
    ensures
        r == (if idle_ms matches Some(ms) && ms > INACTIVE_LIMIT_MS {
            LobbyVerdict::Expire
        } else if start is None || commander is None {
            LobbyVerdict::Wait
        } else if start == Some(true) && commander == Some(true) {
            LobbyVerdict::Begin
        } else {
            LobbyVerdict::Abandon
        }),
{
    if let Some(ms) = idle_ms {
        if ms > INACTIVE_LIMIT_MS {
            return LobbyVerdict::Expire;
        }
    }
    match (start, commander) {
        (Some(s), Some(c)) => {
            if s && c {
                LobbyVerdict::Begin
            } else {
                LobbyVerdict::Abandon
            }
        },
        _ => LobbyVerdict::Wait,
    }
}

/// Whether a round stops waiting for answers: once its window has passed,
/// or once as many answers came as players are expected to answer. While
/// the clock cannot tell the time, the round keeps waiting.
pub fn collection_closes(elapsed_ms: Option<u64>, answered: usize, required: usize) -> (r: bool)
    ensures
        r == (elapsed_ms matches Some(ms) && (ms >= ANSWER_WINDOW_MS || answered >= required)),
{
    match elapsed_ms {
        Some(ms) => ms >= ANSWER_WINDOW_MS || answered >= required,
        None => false,
    }
}

/// Whether a rejoining player proved who they are: their reply is the
/// reconnection token handed to that name when it first joined.
pub fn reconnection_accepted(reply: Option<responses>, expected: &String) -> (r: bool)
    ensures
        r == (reply matches Some(responses::reconToken(t)) && t@ == expected@),
{
    match reply {
        Some(responses::reconToken(t)) => t == *expected,
        _ => false,
    }
}

/// `c` is a decimal digit.
pub open spec fn is_digit(c: char) -> bool {
    '0' <= c <= '9'
}

/// Every character of `s` is a decimal digit.
pub open spec fn all_digits(s: Seq<char>) -> bool {
    forall|i: int| 0 <= i < s.len() ==> is_digit(#[trigger] s[i])
}

/// The number that the decimal digits `s` write.
pub open spec fn decimal_value(s: Seq<char>) -> nat
    decreases s.len(),
{
    if s.len() == 0 {
        0
    } else {
        decimal_value(s.drop_last()) * 10 + (s.last() as nat - '0' as nat) as nat
    }
}

/// The digits of a choice: the text without one leading `+`.
pub open spec fn choice_digits(s: Seq<char>) -> Seq<char> {
    if s.len() > 0 && s[0] == '+' {
        s.drop_first()
    } else {
        s
    }
}

/// The choice a text reads as, the way std parses a `usize`: an optional
/// `+` and at least one decimal digit, with a value that fits.
pub open spec fn parsed_choice(s: Seq<char>) -> Option<usize> {
    let d = choice_digits(s);
    if d.len() > 0 && all_digits(d) && decimal_value(d) <= usize::MAX {
        Some(decimal_value(d) as usize)
    } else {
        None
    }
}

/// Extending digits never lowers their value.
proof fn lemma_decimal_prefix_le(s: Seq<char>, i: int)
    requires
        0 <= i <= s.len(),
        all_digits(s),
    ensures
        decimal_value(s.take(i)) <= decimal_value(s),
    decreases s.len() - i,
{
    if i < s.len() {
        lemma_decimal_prefix_le(s, i + 1);
        assert(s.take(i + 1).drop_last() =~= s.take(i));
        assert(is_digit(s[i]));
    } else {
        assert(s.take(i) =~= s);
    }
}

/// Reads a player's answer: the index of the chosen answer, or `None` when
/// the text is not a number that fits.
pub fn parse_choice(text: &str) -> (r: Option<usize>)
    ensures
        r == parsed_choice(text@),
{
    let n = text.unicode_len();
    let mut start: usize = 0;
    if n > 0 && text.get_char(0) == '+' {
        start = 1;
    }
    let ghost d = choice_digits(text@);
    assert(d =~= text@.subrange(start as int, n as int));
    if start >= n {
        return None;
    }
    let mut acc: usize = 0;
    let mut i: usize = start;
    while i < n
        invariant
            start <= i <= n,
            n == text@.len(),
            d == choice_digits(text@),
            d =~= text@.subrange(start as int, n as int),
            all_digits(d.take(i - start)),
            acc == decimal_value(d.take(i - start)),
        decreases n - i,
    {
        let c = text.get_char(i);
        let ghost k: int = i - start;
        proof {
            assert(d[k] == c);
            assert(d.take(k + 1).drop_last() =~= d.take(k));
            assert(d.take(k + 1).last() == c);
        }
        if !('0' <= c && c <= '9') {
            proof {
                assert(!all_digits(d));
            }
            return None;
        }
        let digit: usize = (c as u32 - '0' as u32) as usize;
        proof {
            assert(digit == c as nat - '0' as nat);
        }
        match acc.checked_mul(10) {
            Some(m) => match m.checked_add(digit) {
                Some(v) => {
                    acc = v;
                },
                None => {
                    proof {
                        if all_digits(d) {
                            lemma_decimal_prefix_le(d, k + 1);
                        }
                    }
                    return None;
                },
            },
            None => {
                proof {
                    if all_digits(d) {
                        lemma_decimal_prefix_le(d, k + 1);
                    }
                }
                return None;
            },
        }
        i = i + 1;
        proof {
            assert forall|j: int| 0 <= j < d.take(i - start).len() implies is_digit(#[trigger] d.take(i - start)[j]) by {
                if j < k {
                    assert(d.take(i - start)[j] == d.take(k)[j]);
                }
            }
        }
    }
    proof {
        assert(d.take(n - start) =~= d);
    }
    Some(acc)
}

/// The names of the players, in order.
pub open spec fn names_of(players: Seq<(String, i32)>) -> Seq<Seq<char>> {
    players.map_values(|p: (String, i32)| p.0@)
}

/// The scores of the players, in order.
pub open spec fn scores_of(players: Seq<(String, i32)>) -> Seq<i32> {
    players.map_values(|p: (String, i32)| p.1)
}

/// The names for which a reconnection token was handed out, in order.
pub open spec fn claimed_names(taken: Seq<(String, String)>) -> Seq<Seq<char>> {
    taken.map_values(|t: (String, String)| t.0@)
}

/// `i` is the first entry of `taken` for `name`.
pub open spec fn is_first_claim(taken: Seq<(String, String)>, name: Seq<char>, i: int) -> bool {
    &&& 0 <= i < taken.len()
    &&& taken[i].0@ == name
    &&& forall|j: int| 0 <= j < i ==> (#[trigger] taken[j]).0@ != name
}

/// `i` is the first player called `name`.
pub open spec fn is_first_player(players: Seq<(String, i32)>, name: Seq<char>, i: int) -> bool {
    &&& 0 <= i < players.len()
    &&& players[i].0@ == name
    &&& forall|j: int| 0 <= j < i ==> (#[trigger] players[j]).0@ != name
}

/// The entries of `taken` that are not for `name`, in order.
pub open spec fn release_claims(taken: Seq<(String, String)>, name: Seq<char>) -> Seq<(String, String)>
    decreases taken.len(),
{
    if taken.len() == 0 {
        taken
    } else {
        let rest = release_claims(taken.drop_last(), name);
        if taken.last().0@ == name {
            rest
        } else {
            rest.push(taken.last())
        }
    }
}

/// The entries of `s` other than `x`, in order.
pub open spec fn without(s: Seq<usize>, x: usize) -> Seq<usize>
    decreases s.len(),
{
    if s.len() == 0 {
        s
    } else {
        let rest = without(s.drop_last(), x);
        if s.last() == x {
            rest
        } else {
            rest.push(s.last())
        }
    }
}

/// How a name asking to join a lobby is received.
pub enum Admission {
    /// A new player: they get this reconnection token.
    Joined(String),
    /// The name is taken: whoever asks must prove they hold this token.
    Reconnect(String),
}

/// What the commander's `next` leads to.
pub enum Round {
    /// Ask this question, without the flags of its correct choices.
    Ask(censoredQuestion),
    /// No question is left: the final standings as (name, score).
    Over(Vec<(String, i32)>),
}

/// A game: its questions, the names in its lobby with their reconnection
/// tokens, the players with their scores, and the round bookkeeping.
pub struct QuizGame {
    questions: questionList,
    taken_usernames: Vec<(String, String)>,
    players: Vec<(String, i32)>,
    current: usize,
    started: bool,
    ignore_list: Vec<usize>,
    required_completes: usize,
}

impl QuizGame {
    /// The questions of the game.
    pub closed spec fn question_seq(&self) -> Seq<Question> {
        self.questions.questions@
    }

    /// The names that hold a reconnection token, with the token.
    pub closed spec fn claims(&self) -> Seq<(String, String)> {
        self.taken_usernames@
    }

    /// The players with their scores, in the order they joined.
    pub closed spec fn roster(&self) -> Seq<(String, i32)> {
        self.players@
    }

    /// How many questions have been asked.
    pub closed spec fn asked(&self) -> nat {
        self.current as nat
    }

    /// The game has left its lobby.
    pub closed spec fn in_play(&self) -> bool {
        self.started
    }

    /// The players whose last question did not reach them.
    pub closed spec fn unreachable(&self) -> Seq<usize> {
        self.ignore_list@
    }

    /// How many answers a round waits for.
    pub closed spec fn required(&self) -> nat {
        self.required_completes as nat
    }

    /// The game is consistent: every name holding a token is a player; no
    /// more questions were asked than there are; in the lobby nobody is
    /// unreachable; in play the unreachable players are distinct players,
    /// and a round waits for an answer from each of the others.
    pub closed spec fn wf(&self) -> bool {
        &&& forall|i: int| 0 <= i < self.taken_usernames@.len()
            ==> names_of(self.players@).contains((#[trigger] self.taken_usernames@[i]).0@)
        &&& self.current <= self.questions.questions@.len()
        &&& !self.started ==> self.ignore_list@.len() == 0 && self.current == 0
        &&& self.started ==> self.required_completes + self.ignore_list@.len() == self.players@.len()
        &&& self.ignore_list@.no_duplicates()
        &&& forall|i: int| 0 <= i < self.ignore_list@.len() ==> #[trigger] self.ignore_list@[i] < self.players@.len()
    }

    /// A game in its lobby with these questions and nobody in it.
    pub fn new(questions: questionList) -> (r: Self)
        ensures
            r.wf(),
            r.question_seq() == questions.questions@,
            r.claims().len() == 0,
            r.roster().len() == 0,
            r.asked() == 0,
            !r.in_play(),
    {
        QuizGame {
            questions,
            taken_usernames: Vec::new(),
            players: Vec::new(),
            current: 0,
            started: false,
            ignore_list: Vec::new(),
            required_completes: 0,
        }
    }

    /// Receives a name that asks to join the lobby. A new name joins as a
    /// player with no points and gets a fresh ten-character reconnection
    /// token; a name that holds a token must prove it holds it, and nothing
    /// changes until it does.
    pub fn join_lobby(&mut self, username: String) -> (r: Admission)
        requires
            old(self).wf(),
            !old(self).in_play(),
        ensures
            final(self).wf(),
            final(self).question_seq() == old(self).question_seq(),
            final(self).asked() == old(self).asked(),
            !final(self).in_play(),
            claimed_names(old(self).claims()).contains(username@) ==> {
                &&& r matches Admission::Reconnect(t)
                &&& exists|i: int| is_first_claim(old(self).claims(), username@, i) && t@ == old(self).claims()[i].1@
                &&& final(self).claims() == old(self).claims()
                &&& final(self).roster() == old(self).roster()
            },
            !claimed_names(old(self).claims()).contains(username@) ==> {
                &&& r matches Admission::Joined(t)
                &&& t@.len() == 10
                &&& drawn_from(t@, url_safe_symbols())
                &&& final(self).claims() == old(self).claims().push((username, t))
                &&& final(self).roster() == old(self).roster().push((username, 0i32))
            },
    {
        match find_claim(&self.taken_usernames, &username) {
            Some(i) => {
                let t = self.taken_usernames[i].1.clone();
                Admission::Reconnect(t)
            },
            None => {
                let token = random_token(10);
                let ghost before = self.players@;
                self.taken_usernames.push((username.clone(), token.clone()));
                self.players.push((username, 0));
                proof {
                    assert(names_of(self.players@) =~= names_of(before).push(username@));
                    assert forall|i: int| 0 <= i < self.taken_usernames@.len()
                        implies names_of(self.players@).contains((#[trigger] self.taken_usernames@[i]).0@) by {
                        if i < self.taken_usernames@.len() - 1 {
                            let k = choose|k: int| 0 <= k < names_of(before).len() && names_of(before)[k] == self.taken_usernames@[i].0@;
                            assert(names_of(self.players@)[k] == names_of(before)[k]);
                        } else {
                            assert(names_of(self.players@)[before.len() as int] == username@);
                        }
                    }
                }
                Admission::Joined(token)
            },
        }
    }

    /// Tells whether a player has this name.
    pub fn has_player(&self, name: &String) -> (r: bool)
        ensures
            r == names_of(self.roster()).contains(name@),
    {
        find_player(&self.players, name).is_some()
    }

    /// A player proved their name again: the index of the first player with
    /// that name, whose socket is to be replaced; the name no longer holds a
    /// token.
    pub fn reconnected(&mut self, username: &String) -> (r: usize)
        requires
            old(self).wf(),
            names_of(old(self).roster()).contains(username@),
        ensures
            final(self).wf(),
            is_first_player(old(self).roster(), username@, r as int),
            final(self).claims() == release_claims(old(self).claims(), username@),
            final(self).roster() == old(self).roster(),
            final(self).question_seq() == old(self).question_seq(),
            final(self).asked() == old(self).asked(),
            final(self).in_play() == old(self).in_play(),
            final(self).unreachable() == old(self).unreachable(),
            final(self).required() == old(self).required(),
    {
        let index = match find_player(&self.players, username) {
            Some(i) => i,
            None => {
                proof {
                    let k = choose|k: int| 0 <= k < names_of(self.players@).len() && names_of(self.players@)[k] == username@;
                    assert(self.players@[k].0@ == username@);
                }
                0
            },
        };
        let ghost before = self.taken_usernames@;
        let kept = keep_other_claims(&self.taken_usernames, username);
        self.taken_usernames = kept;
        proof {
            assert forall|i: int| 0 <= i < self.taken_usernames@.len()
                implies names_of(self.players@).contains((#[trigger] self.taken_usernames@[i]).0@) by {
                lemma_release_claims_from(before, username@, i);
                let j = choose|j: int| 0 <= j < before.len() && before[j] == self.taken_usernames@[i];
                assert(names_of(self.players@).contains(before[j].0@));
            }
        }
        index
    }

    /// Leaves the lobby: every player is expected to answer, and gets told
    /// how many questions there are.
    pub fn begin(&mut self) -> (r: gameData)
        requires
            old(self).wf(),
            !old(self).in_play(),
        ensures
            final(self).wf(),
            final(self).in_play(),
            r.totalQuestions == old(self).question_seq().len(),
            final(self).required() == old(self).roster().len(),
            final(self).unreachable().len() == 0,
            final(self).claims() == old(self).claims(),
            final(self).roster() == old(self).roster(),
            final(self).question_seq() == old(self).question_seq(),
            final(self).asked() == 0,
    {
        self.started = true;
        self.required_completes = self.players.len();
        gameData { totalQuestions: self.questions.questions.len() }
    }

    /// The commander asked for the next question: it is asked, without the
    /// flags of its correct choices, when one is left; otherwise the game
    /// is over and the standings are final.
    pub fn next_round(&mut self) -> (r: Round)
        requires
            old(self).wf(),
            old(self).in_play(),
        ensures
            final(self).wf(),
            final(self).in_play(),
            final(self).claims() == old(self).claims(),
            final(self).roster() == old(self).roster(),
            final(self).question_seq() == old(self).question_seq(),
            final(self).unreachable() == old(self).unreachable(),
            final(self).required() == old(self).required(),
            old(self).asked() < old(self).question_seq().len() ==> {
                let q = old(self).question_seq()[old(self).asked() as int];
                &&& r matches Round::Ask(c)
                &&& c.question == q.question
                &&& string_views(c.answers@) == choice_texts(q.answers@)
                &&& final(self).asked() == old(self).asked() + 1
            },
            old(self).asked() >= old(self).question_seq().len() ==> {
                &&& r matches Round::Over(standings)
                &&& standings@ == old(self).roster()
                &&& final(self).asked() == old(self).asked()
            },
    {
        if self.current < self.questions.questions.len() {
            let c = censor(&self.questions.questions[self.current]);
            self.current = self.current + 1;
            Round::Ask(c)
        } else {
            Round::Over(self.standings())
        }
    }

    /// The players and their scores, in the order they joined.
    pub fn standings(&self) -> (r: Vec<(String, i32)>)
        ensures
            r@ == self.roster(),
    {
        let mut out: Vec<(String, i32)> = Vec::new();
        let mut i: usize = 0;
        while i < self.players.len()
            invariant
                i <= self.players@.len(),
                out@ == self.players@.take(i as int),
            decreases self.players@.len() - i,
        {
            let entry = (self.players[i].0.clone(), self.players[i].1);
            out.push(entry);
            i = i + 1;
            proof {
                assert(out@ =~= self.players@.take(i as int));
            }
        }
        proof {
            assert(self.players@.take(i as int) =~= self.players@);
        }
        out
    }

    /// How many answers a round waits for.
    pub fn required_answers(&self) -> (r: usize)
        ensures
            r == self.required(),
    {
        self.required_completes
    }

    /// Notes whether the question reached a player. A player it fails to
    /// reach is no longer waited for; one it reaches again is waited for
    /// again.
    pub fn broadcast_result(&mut self, index: usize, delivered: bool)
        requires
            old(self).wf(),
            old(self).in_play(),
            index < old(self).roster().len(),
        ensures
            final(self).wf(),
            final(self).in_play(),
            final(self).claims() == old(self).claims(),
            final(self).roster() == old(self).roster(),
            final(self).question_seq() == old(self).question_seq(),
            final(self).asked() == old(self).asked(),
            !delivered && !old(self).unreachable().contains(index) ==> {
                &&& final(self).unreachable() == old(self).unreachable().push(index)
                &&& final(self).required() == old(self).required() - 1
            },
            delivered && old(self).unreachable().contains(index) ==> {
                &&& final(self).unreachable() == without(old(self).unreachable(), index)
                &&& final(self).required() == old(self).required() + 1
            },
            delivered != old(self).unreachable().contains(index) ==> {
                &&& final(self).unreachable() == old(self).unreachable()
                &&& final(self).required() == old(self).required()
            },
    {
        let listed = list_contains(&self.ignore_list, index);
        if !delivered && !listed {
            proof {
                let s = self.ignore_list@.push(index);
                assert forall|i: int, j: int| 0 <= i < s.len() && 0 <= j < s.len() && i != j implies s[i] != s[j] by {
                    if i < s.len() - 1 && j < s.len() - 1 {
                        assert(self.ignore_list@[i] != self.ignore_list@[j]);
                    }
                }
                lemma_distinct_below(s, self.players.len());
            }
            self.required_completes = self.required_completes - 1;
            self.ignore_list.push(index);
        } else if delivered && listed {
            let ghost before = self.ignore_list@;
            let n = self.players.len();
            let kept = keep_others(&self.ignore_list, index);
            proof {
                lemma_without_distinct(before, index);
                assert(before.len() >= 1);
                assert(self.required_completes < n);
            }
            self.ignore_list = kept;
            self.required_completes = self.required_completes + 1;
        }
    }
}

/// The index of the first entry for `name`, if any.
fn find_claim(taken: &Vec<(String, String)>, name: &String) -> (r: Option<usize>)
    ensures
        r matches Some(i) ==> is_first_claim(taken@, name@, i as int),
        r is None <==> !claimed_names(taken@).contains(name@),
{
    let mut i: usize = 0;
    while i < taken.len()
        invariant
            i <= taken@.len(),
            forall|j: int| 0 <= j < i ==> (#[trigger] taken@[j]).0@ != name@,
        decreases taken@.len() - i,
    {
        if taken[i].0 == *name {
            proof {
                assert(claimed_names(taken@)[i as int] == name@);
            }
            return Some(i);
        }
        i = i + 1;
    }
    proof {
        if claimed_names(taken@).contains(name@) {
            let k = choose|k: int| 0 <= k < claimed_names(taken@).len() && claimed_names(taken@)[k] == name@;
            assert(taken@[k].0@ == name@);
        }
    }
    None
}

/// The index of the first player called `name`, if any.
fn find_player(players: &Vec<(String, i32)>, name: &String) -> (r: Option<usize>)
    ensures
        r matches Some(i) ==> is_first_player(players@, name@, i as int),
        r is None <==> !names_of(players@).contains(name@),
{
    let mut i: usize = 0;
    while i < players.len()
        invariant
            i <= players@.len(),
            forall|j: int| 0 <= j < i ==> (#[trigger] players@[j]).0@ != name@,
        decreases players@.len() - i,
    {
        if players[i].0 == *name {
            proof {
                assert(names_of(players@)[i as int] == name@);
            }
            return Some(i);
        }
        i = i + 1;
    }
    proof {
        if names_of(players@).contains(name@) {
            let k = choose|k: int| 0 <= k < names_of(players@).len() && names_of(players@)[k] == name@;
            assert(players@[k].0@ == name@);
        }
    }
    None
}

/// The entries of `taken` that are not for `name`.
fn keep_other_claims(taken: &Vec<(String, String)>, name: &String) -> (r: Vec<(String, String)>)
    ensures
        r@ == release_claims(taken@, name@),
{
    let mut out: Vec<(String, String)> = Vec::new();
    let mut i: usize = 0;
    while i < taken.len()
        invariant
            i <= taken@.len(),
            out@ == release_claims(taken@.take(i as int), name@),
        decreases taken@.len() - i,
    {
        proof {
            assert(taken@.take(i + 1).drop_last() =~= taken@.take(i as int));
        }
        if taken[i].0 != *name {
            let entry = (taken[i].0.clone(), taken[i].1.clone());
            out.push(entry);
        }
        i = i + 1;
    }
    proof {
        assert(taken@.take(i as int) =~= taken@);
    }
    out
}

/// The entries of `s` other than `x`.
fn keep_others(s: &Vec<usize>, x: usize) -> (r: Vec<usize>)
    ensures
        r@ == without(s@, x),
{
    let mut out: Vec<usize> = Vec::new();
    let mut i: usize = 0;
    while i < s.len()
        invariant
            i <= s@.len(),
            out@ == without(s@.take(i as int), x),
        decreases s@.len() - i,
    {
        proof {
            assert(s@.take(i + 1).drop_last() =~= s@.take(i as int));
        }
        if s[i] != x {
            out.push(s[i]);
        }
        i = i + 1;
    }
    proof {
        assert(s@.take(i as int) =~= s@);
    }
    out
}

/// Tells whether `x` is in `s`.
fn list_contains(s: &Vec<usize>, x: usize) -> (r: bool)
    ensures
        r == s@.contains(x),
{
    let mut i: usize = 0;
    while i < s.len()
        invariant
            i <= s@.len(),
            forall|j: int| 0 <= j < i ==> s@[j] != x,
        decreases s@.len() - i,
    {
        if s[i] == x {
            return true;
        }
        i = i + 1;
    }
    false
}

/// Every entry kept by `release_claims` is an entry of `taken`.
proof fn lemma_release_claims_from(taken: Seq<(String, String)>, name: Seq<char>, i: int)
    requires
        0 <= i < release_claims(taken, name).len(),
    ensures
        exists|j: int| 0 <= j < taken.len() && taken[j] == release_claims(taken, name)[i],
    decreases taken.len(),
{
    if taken.len() > 0 {
        let rest = release_claims(taken.drop_last(), name);
        if i < rest.len() {
            lemma_release_claims_from(taken.drop_last(), name, i);
            let j = choose|j: int| 0 <= j < taken.drop_last().len() && taken.drop_last()[j] == rest[i];
            assert(taken[j] == rest[i]);
        } else {
            assert(taken[taken.len() - 1] == release_claims(taken, name)[i]);
        }
    }
}

/// Removing a present entry from a list without duplicates shortens it by
/// one, keeps it free of duplicates, and keeps only entries of the list.
proof fn lemma_without_distinct(s: Seq<usize>, x: usize)
    requires
        s.no_duplicates(),
    ensures
        without(s, x).no_duplicates(),
        s.contains(x) ==> without(s, x).len() + 1 == s.len(),
        !s.contains(x) ==> without(s, x) == s,
        forall|i: int| 0 <= i < without(s, x).len() ==> s.contains(#[trigger] without(s, x)[i]),
        !without(s, x).contains(x),
    decreases s.len(),
{
    if s.len() > 0 {
        let d = s.drop_last();
        assert(d.no_duplicates());
        lemma_without_distinct(d, x);
        let rest = without(d, x);
        if s.last() == x {
            assert(!d.contains(x));
        } else {
            assert(!rest.contains(s.last()));
            assert forall|i: int| 0 <= i < without(s, x).len() implies s.contains(#[trigger] without(s, x)[i]) by {
                if i < rest.len() {
                    let j = choose|j: int| 0 <= j < d.len() && d[j] == rest[i];
                    assert(s[j] == rest[i]);
                } else {
                    assert(s[s.len() - 1] == without(s, x)[i]);
                }
            }
            if s.contains(x) {
                let k = choose|k: int| 0 <= k < s.len() && s[k] == x;
                assert(d[k] == x);
            } else {
                assert(rest =~= d);
                assert(without(s, x) =~= s);
            }
        }
    } else {
        assert(without(s, x) =~= s);
    }
}

/// The points of the `k`-th award of a round: the `k`-th entry of the
/// schedule, and none past its end.
pub open spec fn award_points(schedule: Seq<i32>, k: int) -> i32 {
    if 0 <= k < schedule.len() {
        schedule[k]
    } else {
        0
    }
}

/// A score plus points, held within the range of an `i32`.
pub open spec fn add_points(score: i32, points: i32) -> i32 {
    let t = score + points;
    if t > i32::MAX {
        i32::MAX
    } else if t < i32::MIN {
        i32::MIN
    } else {
        t as i32
    }
}

/// The answers as (name, choice).
pub open spec fn answer_views(answers: Seq<(String, usize)>) -> Seq<(Seq<char>, usize)> {
    answers.map_values(|a: (String, usize)| (a.0@, a.1))
}

/// Which choices of a question are correct.
pub open spec fn choice_flags(answers: Seq<(bool, String)>) -> Seq<bool> {
    answers.map_values(|a: (bool, String)| a.0)
}

/// `choice` names a correct choice.
pub open spec fn is_correct(flags: Seq<bool>, choice: usize) -> bool {
    choice < flags.len() && flags[choice as int]
}

/// Scores and awards (the player index of each award, in order) after the
/// first `c` players are credited for a correct answer of `name`, from
/// `scores` and `awards`: every player with that name gets the points of
/// the next award.
pub open spec fn credit_prefix(
    names: Seq<Seq<char>>,
    scores: Seq<i32>,
    awards: Seq<usize>,
    name: Seq<char>,
    schedule: Seq<i32>,
    c: int,
) -> (Seq<i32>, Seq<usize>)
    decreases c,
{
    if c <= 0 {
        (scores, awards)
    } else {
        let prev = credit_prefix(names, scores, awards, name, schedule, c - 1);
        if names[c - 1] == name {
            (
                prev.0.update(c - 1, add_points(prev.0[c - 1], award_points(schedule, prev.1.len() as int))),
                prev.1.push((c - 1) as usize),
            )
        } else {
            prev
        }
    }
}

/// Scores and awards after the first `j` answers of a round are graded: a
/// correct answer credits every player with its name, in order; a wrong one
/// changes nothing.
pub open spec fn graded(
    names: Seq<Seq<char>>,
    scores: Seq<i32>,
    answers: Seq<(Seq<char>, usize)>,
    flags: Seq<bool>,
    schedule: Seq<i32>,
    j: int,
) -> (Seq<i32>, Seq<usize>)
    decreases j,
{
    if j <= 0 {
        (scores, Seq::empty())
    } else {
        let prev = graded(names, scores, answers, flags, schedule, j - 1);
        if is_correct(flags, answers[j - 1].1) {
            credit_prefix(names, prev.0, prev.1, answers[j - 1].0, schedule, names.len() as int)
        } else {
            prev
        }
    }
}

/// A score plus points, held within the range of an `i32`.
fn add_score(score: i32, points: i32) -> (r: i32)
    ensures
        r == add_points(score, points),
{
    match score.checked_add(points) {
        Some(v) => v,
        None => {
            if points > 0 {
                i32::MAX
            } else {
                i32::MIN
            }
        },
    }
}

/// Credits every player called `name` with the next award of the schedule.
fn credit_name(players: &mut Vec<(String, i32)>, awards: &mut Vec<usize>, name: &String, schedule: &Vec<i32>)
    ensures
        names_of(final(players)@) == names_of(old(players)@),
        ({
            let c = credit_prefix(names_of(old(players)@), scores_of(old(players)@), old(awards)@, name@, schedule@, old(players)@.len() as int);
            scores_of(final(players)@) == c.0 && final(awards)@ == c.1
        }),
{
    let ghost names = names_of(players@);
    let ghost scores0 = scores_of(players@);
    let ghost awards0 = awards@;
    let mut c: usize = 0;
    while c < players.len()
        invariant
            c <= players@.len(),
            names_of(players@) == names,
            names.len() == players@.len(),
            ({
                let cp = credit_prefix(names, scores0, awards0, name@, schedule@, c as int);
                scores_of(players@) == cp.0 && awards@ == cp.1
            }),
        decreases players@.len() - c,
    {
        if players[c].0 == *name {
            let k = awards.len();
            let points: i32 = if k < schedule.len() { schedule[k] } else { 0 };
            let score = add_score(players[c].1, points);
            let entry = (players[c].0.clone(), score);
            let ghost before = players@;
            players.set(c, entry);
            awards.push(c);
            proof {
                assert(names_of(players@) =~= names_of(before));
                assert(scores_of(players@) =~= scores_of(before).update(c as int, score));
            }
        }
        c = c + 1;
    }
}

/// Grades the answers of a round in the order they came.
fn grade_answers(players: &mut Vec<(String, i32)>, answers: &Vec<(String, usize)>, flags: &Vec<bool>, schedule: &Vec<i32>) -> (awards: Vec<usize>)
    ensures
        names_of(final(players)@) == names_of(old(players)@),
        ({
            let g = graded(names_of(old(players)@), scores_of(old(players)@), answer_views(answers@), flags@, schedule@, answers@.len() as int);
            scores_of(final(players)@) == g.0 && awards@ == g.1
        }),
{
    let ghost names = names_of(players@);
    let ghost scores0 = scores_of(players@);
    let mut awards: Vec<usize> = Vec::new();
    let mut j: usize = 0;
    while j < answers.len()
        invariant
            j <= answers@.len(),
            names_of(players@) == names,
            names.len() == players@.len(),
            ({
                let g = graded(names, scores0, answer_views(answers@), flags@, schedule@, j as int);
                scores_of(players@) == g.0 && awards@ == g.1
            }),
        decreases answers@.len() - j,
    {
        let choice = answers[j].1;
        if choice < flags.len() && flags[choice] {
            credit_name(players, &mut awards, &answers[j].0, schedule);
        }
        j = j + 1;
    }
    awards
}

impl QuizGame {
    /// Grades the answers to the question just asked, as (name, choice) in
    /// the order they came. Each correct answer credits every player with
    /// that name, in order, with the next award of the schedule; the awards
    /// come back as the player index of each, in order.
    pub fn grade(&mut self, answers: &Vec<(String, usize)>, schedule: &Vec<i32>) -> (awards: Vec<usize>)
        requires
            old(self).wf(),
            old(self).in_play(),
            old(self).asked() > 0,
        ensures
            final(self).wf(),
            final(self).in_play(),
            final(self).claims() == old(self).claims(),
            final(self).question_seq() == old(self).question_seq(),
            final(self).asked() == old(self).asked(),
            final(self).unreachable() == old(self).unreachable(),
            final(self).required() == old(self).required(),
            names_of(final(self).roster()) == names_of(old(self).roster()),
            ({
                let q = old(self).question_seq()[old(self).asked() - 1];
                let g = graded(
                    names_of(old(self).roster()),
                    scores_of(old(self).roster()),
                    answer_views(answers@),
                    choice_flags(q.answers@),
                    schedule@,
                    answers@.len() as int,
                );
                scores_of(final(self).roster()) == g.0 && awards@ == g.1
            }),
    {
        let q = self.current - 1;
        let flags = correct_flags(&self.questions.questions[q]);
        let ghost before = self.players@;
        let awards = grade_answers(&mut self.players, answers, &flags, schedule);
        proof {
            assert(names_of(self.players@).len() == names_of(before).len());
            assert forall|i: int| 0 <= i < self.taken_usernames@.len()
                implies names_of(self.players@).contains((#[trigger] self.taken_usernames@[i]).0@) by {
                assert(names_of(before).contains(self.taken_usernames@[i].0@));
            }
        }
        awards
    }
}

/// Which choices of the question are correct.
fn correct_flags(q: &Question) -> (r: Vec<bool>)
    ensures
        r@ == choice_flags(q.answers@),
{
    let mut out: Vec<bool> = Vec::new();
    let mut i: usize = 0;
    while i < q.answers.len()
        invariant
            i <= q.answers@.len(),
            out@ =~= choice_flags(q.answers@).take(i as int),
        decreases q.answers@.len() - i,
    {
        out.push(q.answers[i].0);
        i = i + 1;
    }
    proof {
        assert(choice_flags(q.answers@).take(i as int) =~= choice_flags(q.answers@));
    }
    out
}

/// Law: a name that joined a lobby and comes again is asked for the very
/// token it was given when it joined.
pub proof fn lemma_rejoin_asks_for_given_token(taken: Seq<(String, String)>, name: String, token: String)
    requires
        !claimed_names(taken).contains(name@),
    ensures
        claimed_names(taken.push((name, token))).contains(name@),
        forall|i: int| is_first_claim(taken.push((name, token)), name@, i)
            ==> taken.push((name, token))[i].1@ == token@,
{
    let t = taken.push((name, token));
    assert(claimed_names(t)[taken.len() as int] == name@);
    assert forall|i: int| is_first_claim(t, name@, i) implies t[i].1@ == token@ by {
        if i < taken.len() {
            assert(claimed_names(taken)[i] == name@);
        }
    }
}

/// Law: once a name proved itself again, it holds no token any more; the
/// other names keep theirs.
pub proof fn lemma_reconnection_releases_name(taken: Seq<(String, String)>, name: Seq<char>)
    ensures
        !claimed_names(release_claims(taken, name)).contains(name),
        forall|i: int| 0 <= i < taken.len() && taken[i].0@ != name
            ==> release_claims(taken, name).contains(#[trigger] taken[i]),
    decreases taken.len(),
{
    if taken.len() > 0 {
        let d = taken.drop_last();
        lemma_reconnection_releases_name(d, name);
        let rest = release_claims(d, name);
        let r = release_claims(taken, name);
        if claimed_names(r).contains(name) {
            let k = choose|k: int| 0 <= k < claimed_names(r).len() && claimed_names(r)[k] == name;
            if k < rest.len() {
                assert(claimed_names(rest)[k] == name);
            }
        }
        assert forall|i: int| 0 <= i < taken.len() && taken[i].0@ != name implies r.contains(#[trigger] taken[i]) by {
            if i < d.len() {
                assert(d[i] == taken[i]);
                let k = choose|k: int| 0 <= k < rest.len() && rest[k] == d[i];
                if taken.last().0@ != name {
                    assert(r[k] == rest[k]);
                }
            } else {
                assert(r[r.len() - 1] == taken[i]);
            }
        }
    } else {
        assert(claimed_names(release_claims(taken, name)) =~= Seq::<Seq<char>>::empty());
    }
}

/// Law: during the game every player is either waited for in a round or
/// listed as unreachable, never both: the unreachable players are distinct
/// players, and a round waits for exactly as many answers as there are
/// other players.
pub proof fn lemma_every_player_waited_for_or_unreachable(g: QuizGame)
    requires
        g.wf(),
        g.in_play(),
    ensures
        g.required() + g.unreachable().len() == g.roster().len(),
        g.unreachable().no_duplicates(),
        forall|i: int| 0 <= i < g.unreachable().len() ==> #[trigger] g.unreachable()[i] < g.roster().len(),
{
}

/// Crediting keeps the number of scores and, with awards worth no less
/// than nothing, lowers no score; every award goes to a player with the
/// credited name.
proof fn lemma_credit_prefix(names: Seq<Seq<char>>, scores: Seq<i32>, awards: Seq<usize>, name: Seq<char>, schedule: Seq<i32>, c: int)
    requires
        0 <= c <= names.len(),
        names.len() == scores.len(),
        names.len() <= usize::MAX,
    ensures
        ({
            let r = credit_prefix(names, scores, awards, name, schedule, c);
            &&& r.0.len() == scores.len()
            &&& r.1.len() >= awards.len()
            &&& forall|k: int| 0 <= k < awards.len() ==> r.1[k] == awards[k]
            &&& forall|k: int| awards.len() <= k < r.1.len() ==> (#[trigger] r.1[k]) < names.len() && names[r.1[k] as int] == name
            &&& (forall|k: int| 0 <= k < schedule.len() ==> schedule[k] >= 0)
                ==> forall|i: int| 0 <= i < scores.len() ==> #[trigger] r.0[i] >= scores[i]
        }),
    decreases c,
{
    if c > 0 {
        lemma_credit_prefix(names, scores, awards, name, schedule, c - 1);
        let prev = credit_prefix(names, scores, awards, name, schedule, c - 1);
        let r = credit_prefix(names, scores, awards, name, schedule, c);
        if names[c - 1] == name {
            assert forall|k: int| awards.len() <= k < r.1.len() implies (#[trigger] r.1[k]) < names.len() && names[r.1[k] as int] == name by {
                if k < prev.1.len() {
                    assert(r.1[k] == prev.1[k]);
                } else {
                    assert(r.1[k] == (c - 1) as usize);
                    assert(((c - 1) as usize) as int == c - 1);
                }
            }
            if forall|k: int| 0 <= k < schedule.len() ==> schedule[k] >= 0 {
                assert forall|i: int| 0 <= i < scores.len() implies #[trigger] r.0[i] >= scores[i] by {
                    assert(prev.0[i] >= scores[i]);
                }
            }
        }
    }
}

/// Law: grading keeps one score per player; when no award is worth less
/// than nothing it lowers no score; and every award goes to a player whose
/// name came with a correct answer.
pub proof fn lemma_grading_rewards_only_right_answers(
    names: Seq<Seq<char>>,
    scores: Seq<i32>,
    answers: Seq<(Seq<char>, usize)>,
    flags: Seq<bool>,
    schedule: Seq<i32>,
    j: int,
)
    requires
        0 <= j <= answers.len(),
        names.len() == scores.len(),
        names.len() <= usize::MAX,
    ensures
        ({
            let g = graded(names, scores, answers, flags, schedule, j);
            &&& g.0.len() == scores.len()
            &&& forall|k: int| 0 <= k < g.1.len() ==> (#[trigger] g.1[k]) < names.len() && exists|a: int|
                0 <= a < j && is_correct(flags, answers[a].1) && answers[a].0 == names[g.1[k] as int]
            &&& (forall|k: int| 0 <= k < schedule.len() ==> schedule[k] >= 0)
                ==> forall|i: int| 0 <= i < scores.len() ==> #[trigger] g.0[i] >= scores[i]
        }),
    decreases j,
{
    if j > 0 {
        lemma_grading_rewards_only_right_answers(names, scores, answers, flags, schedule, j - 1);
        let prev = graded(names, scores, answers, flags, schedule, j - 1);
        let g = graded(names, scores, answers, flags, schedule, j);
        if is_correct(flags, answers[j - 1].1) {
            lemma_credit_prefix(names, prev.0, prev.1, answers[j - 1].0, schedule, names.len() as int);
            assert forall|k: int| 0 <= k < g.1.len() implies (#[trigger] g.1[k]) < names.len() && exists|a: int|
                0 <= a < j && is_correct(flags, answers[a].1) && answers[a].0 == names[g.1[k] as int] by {
                if k < prev.1.len() {
                    assert(g.1[k] == prev.1[k]);
                    let a = choose|a: int| 0 <= a < j - 1 && is_correct(flags, answers[a].1) && answers[a].0 == names[prev.1[k] as int];
                    assert(0 <= a < j);
                } else {
                    assert(names[g.1[k] as int] == answers[j - 1].0);
                }
            }
            if forall|k: int| 0 <= k < schedule.len() ==> schedule[k] >= 0 {
                assert forall|i: int| 0 <= i < scores.len() implies #[trigger] g.0[i] >= scores[i] by {
                    assert(prev.0[i] >= scores[i]);
                }
            }
        } else {
            assert forall|k: int| 0 <= k < g.1.len() implies (#[trigger] g.1[k]) < names.len() && exists|a: int|
                0 <= a < j && is_correct(flags, answers[a].1) && answers[a].0 == names[g.1[k] as int] by {
                let a = choose|a: int| 0 <= a < j - 1 && is_correct(flags, answers[a].1) && answers[a].0 == names[prev.1[k] as int];
                assert(0 <= a < j);
            }
        }
    }
}

/// No two players share a name.
pub open spec fn distinct_names(names: Seq<Seq<char>>) -> bool {
    forall|i: int, j: int| 0 <= i < j < names.len() ==> names[i] != names[j]
}

/// How many of the first `a` answers are correct.
pub open spec fn correct_before(answers: Seq<(Seq<char>, usize)>, flags: Seq<bool>, a: int) -> nat
    decreases a,
{
    if a <= 0 {
        0
    } else {
        correct_before(answers, flags, a - 1) + if is_correct(flags, answers[a - 1].1) { 1nat } else { 0nat }
    }
}

/// Crediting a name among players with distinct names raises only the one
/// player with that name, by the next award, and records one award.
proof fn lemma_credit_unique(names: Seq<Seq<char>>, scores: Seq<i32>, awards: Seq<usize>, name: Seq<char>, schedule: Seq<i32>, c: int)
    requires
        0 <= c <= names.len(),
        names.len() == scores.len(),
        distinct_names(names),
    ensures
        ({
            let r = credit_prefix(names, scores, awards, name, schedule, c);
            &&& r.0.len() == scores.len()
            &&& r.1.len() == awards.len() + (if exists|i: int| 0 <= i < c && names[i] == name { 1int } else { 0int })
            &&& forall|i: int| 0 <= i < scores.len() ==> #[trigger] r.0[i] == (if i < c && names[i] == name {
                add_points(scores[i], award_points(schedule, awards.len() as int))
            } else {
                scores[i]
            })
        }),
    decreases c,
{
    if c > 0 {
        lemma_credit_unique(names, scores, awards, name, schedule, c - 1);
        let prev = credit_prefix(names, scores, awards, name, schedule, c - 1);
        let r = credit_prefix(names, scores, awards, name, schedule, c);
        if names[c - 1] == name {
            assert(!exists|i: int| 0 <= i < c - 1 && names[i] == name);
            assert(exists|i: int| 0 <= i < c && names[i] == name) by {
                assert(names[c - 1] == name);
            }
            assert(prev.0[c - 1] == scores[c - 1]);
        } else {
            if exists|i: int| 0 <= i < c && names[i] == name {
                let i = choose|i: int| 0 <= i < c && names[i] == name;
                assert(0 <= i < c - 1 && names[i] == name);
            }
            if exists|i: int| 0 <= i < c - 1 && names[i] == name {
                let i = choose|i: int| 0 <= i < c - 1 && names[i] == name;
                assert(0 <= i < c && names[i] == name);
            }
        }
    }
}

/// The grading of the first `j` answers of a round, player by player.
proof fn lemma_round_prefix(
    names: Seq<Seq<char>>,
    scores: Seq<i32>,
    answers: Seq<(Seq<char>, usize)>,
    flags: Seq<bool>,
    schedule: Seq<i32>,
    j: int,
)
    requires
        0 <= j <= answers.len(),
        names.len() == scores.len(),
        distinct_names(names),
        forall|a: int, b: int| 0 <= a < b < answers.len() ==> answers[a].0 != answers[b].0,
        forall|a: int| 0 <= a < answers.len() ==> names.contains(#[trigger] answers[a].0),
    ensures
        ({
            let g = graded(names, scores, answers, flags, schedule, j);
            &&& g.0.len() == scores.len()
            &&& g.1.len() == correct_before(answers, flags, j)
            &&& forall|p: int, a: int| 0 <= p < names.len() && 0 <= a < j && answers[a].0 == names[p] && is_correct(flags, answers[a].1)
                ==> #[trigger] g.0[p] == add_points(scores[p], award_points(schedule, #[trigger] correct_before(answers, flags, a) as int))
            &&& forall|p: int| 0 <= p < names.len() && (forall|a: int| 0 <= a < j && answers[a].0 == names[p] ==> !is_correct(flags, answers[a].1))
                ==> #[trigger] g.0[p] == scores[p]
        }),
    decreases j,
{
    if j > 0 {
        lemma_round_prefix(names, scores, answers, flags, schedule, j - 1);
        let prev = graded(names, scores, answers, flags, schedule, j - 1);
        let g = graded(names, scores, answers, flags, schedule, j);
        let nm = answers[j - 1].0;
        if is_correct(flags, answers[j - 1].1) {
            lemma_credit_unique(names, prev.0, prev.1, nm, schedule, names.len() as int);
            assert(names.contains(nm));
            let p0 = choose|p: int| 0 <= p < names.len() && names[p] == nm;
            assert(exists|i: int| 0 <= i < names.len() && names[i] == nm) by {
                assert(names[p0] == nm);
            }
            assert(forall|a: int| 0 <= a < j - 1 ==> answers[a].0 != names[p0]);
            assert(prev.0[p0] == scores[p0]);
            assert forall|p: int, a: int| 0 <= p < names.len() && 0 <= a < j && answers[a].0 == names[p] && is_correct(flags, answers[a].1)
                implies #[trigger] g.0[p] == add_points(scores[p], award_points(schedule, #[trigger] correct_before(answers, flags, a) as int)) by {
                if a == j - 1 {
                    assert(p == p0);
                } else {
                    assert(names[p] != nm);
                }
            }
            assert forall|p: int| 0 <= p < names.len() && (forall|a: int| 0 <= a < j && answers[a].0 == names[p] ==> !is_correct(flags, answers[a].1))
                implies #[trigger] g.0[p] == scores[p] by {
                assert(names[p] != nm);
                assert(prev.0[p] == scores[p]);
            }
        } else {
            assert forall|p: int| 0 <= p < names.len() && (forall|a: int| 0 <= a < j && answers[a].0 == names[p] ==> !is_correct(flags, answers[a].1))
                implies #[trigger] g.0[p] == scores[p] by {
                assert(prev.0[p] == scores[p]);
            }
        }
    }
}

/// Law: the grading of a round. When the players have distinct names and
/// each answer comes from a different player of the game, a player whose
/// answer is correct, as the k-th correct answer (from 0), gains the k-th
/// award of the schedule (none past its end), every other player keeps
/// their score, and one award is recorded per correct answer.
pub proof fn lemma_round_grading(
    names: Seq<Seq<char>>,
    scores: Seq<i32>,
    answers: Seq<(Seq<char>, usize)>,
    flags: Seq<bool>,
    schedule: Seq<i32>,
)
    requires
        names.len() == scores.len(),
        distinct_names(names),
        forall|a: int, b: int| 0 <= a < b < answers.len() ==> answers[a].0 != answers[b].0,
        forall|a: int| 0 <= a < answers.len() ==> names.contains(#[trigger] answers[a].0),
    ensures
        ({
            let g = graded(names, scores, answers, flags, schedule, answers.len() as int);
            &&& g.0.len() == scores.len()
            &&& g.1.len() == correct_before(answers, flags, answers.len() as int)
            &&& forall|p: int, a: int| 0 <= p < names.len() && 0 <= a < answers.len() && answers[a].0 == names[p] && is_correct(flags, answers[a].1)
                ==> #[trigger] g.0[p] == add_points(scores[p], award_points(schedule, #[trigger] correct_before(answers, flags, a) as int))
            &&& forall|p: int| 0 <= p < names.len() && (forall|a: int| 0 <= a < answers.len() && answers[a].0 == names[p] ==> !is_correct(flags, answers[a].1))
                ==> #[trigger] g.0[p] == scores[p]
        }),
{
    lemma_round_prefix(names, scores, answers, flags, schedule, answers.len() as int);
}

/// How many ids are drawn for a new game before the draw gives up.
pub const GAME_ID_ATTEMPTS: usize = 1000;

/// The id of a new game: six digits that no open game uses. Ids are drawn
/// at random while they collide, up to `GAME_ID_ATTEMPTS` times; then the
/// six-digit ids are scanned in order for a free one. `None` exactly when
/// every six-digit id is open.
pub fn fresh_game_id(open_ids: &Vec<String>) -> (r: Option<String>)
    ensures
        r matches Some(id) ==> {
            &&& id@.len() == 6
            &&& drawn_from(id@, digit_symbols())
            &&& !string_views(open_ids@).contains(id@)
        },
        r is None <==> all_completions_taken(string_views(open_ids@), Seq::empty(), digit_symbols(), 6),
{
    let mut attempts: usize = 0;
    while attempts < GAME_ID_ATTEMPTS
        decreases GAME_ID_ATTEMPTS - attempts,
    {
        let id = random_digits(6);
        if !text_listed(open_ids, &id) {
            proof {
                assert(completes(id@, Seq::empty(), digit_symbols(), 6));
            }
            return Some(id);
        }
        attempts = attempts + 1;
    }
    let digits: Vec<char> = vec!['1', '2', '3', '4', '5', '6', '7', '8', '9', '0'];
    free_text(open_ids, &digits, 6)
}

} // verus!
