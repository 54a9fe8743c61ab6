//! The game protocol: the requests that clients send, the responses the server
//! sends back, and the question and update records that travel between them.
use std::time::Duration;
use vstd::prelude::*;

use crate::text::owned;

verus! {

/// A request from a game client: what is asked for and the data that goes with it.
pub struct pogootRequest {
    pub request: requestType,
    pub data: Data,
}

impl pogootRequest {
    /// A request is an answer when both its kind and its data say so.
    pub open spec fn spec_is_answer(&self) -> bool {
        self.request is Answer && self.data is AnswerData
    }

    /// Tells whether the request is an answer carrying answer data.
    pub fn is_answer(&self) -> (r: bool)
        ensures
            r == self.spec_is_answer(),
    {
        match self.request {
            requestType::Answer => match self.data {
                Data::AnswerData(_, _) => true,
                _ => false,
            },
            _ => false,
        }
    }
}

/// A response sent by the server to a client.
pub struct pogootResponse {
    pub response: responseType,
    pub data: Data,
}

/// `r` is the standard error response carrying the text `msg`.
pub open spec fn is_error_response(r: pogootResponse, msg: Seq<char>) -> bool {
    &&& r.response is errorResponse
    &&& r.data matches Data::StandardErrorData(m) && m@ == msg
}

impl pogootResponse {
    /// Builds the standard error response that carries `message`.
    pub fn standard_error_message(message: &str) -> (r: Self)
        ensures
            is_error_response(r, message@),
    {
        pogootResponse { response: responseType::errorResponse, data: Data::StandardErrorData(owned(message)) }
    }
}

/// The data that accompanies a request or a response.
pub enum Data {
    /// Data for create game, requires a valid list of questions.
    CreateGameData(questionList),
    /// Start game data.
    StartGameData,
    /// Subscribe data: the game id.
    SubscribeToGameData(String),
    /// Answer data: question id, answer id.
    AnswerData(usize, usize),
    /// Username, token, question id, answer id.
    InternalAnswerData(String, String, usize, usize),
    /// Re-subscription data: a token and a game id.
    ReSubscribeData(String, String),
    /// Login data: username, password.
    LoginData(String, String),
    /// Register data: username, password.
    RegisterData(String, String),
    /// An error message.
    StandardErrorData(String),
    /// Game id and game password.
    GameCreationSuccessData(String, String),
    /// An error message.
    GameCreationErrorData(String),
    /// An error message.
    GameNotFoundErrorData(String),
    /// Data for temporary logins: the username.
    TempData(String),
    AnonData(String),
    /// A token posted for verification.
    VerifyToken(String),
    /// The socket passed its login phase.
    SocketVerified,
    /// New point count, the player in front, and how many points that player
    /// is ahead.
    gameUpdateData(usize, String, usize),
    QuestionData(censoredQuestion),
    LeaderBoardUpdate(Vec<(String, String, usize)>),
    GamePlayerTimeUpdate(usize, Duration),
    NextGameData,
    /// The name of a player who joined the game.
    PlayerJoinUpdateData(String),
}

/// What a request asks for.
pub enum requestType {
    CreateGame,
    StartGame,
    SubscribeToGame,
    Answer,
    InternalAnswer,
    ReSubscribeToGame,
    Login,
    Register,
    Temp,
    Anon,
    VerifyToken,
    NextQuestion,
    PlayerJoinUpdate,
}

/// What a response reports.
pub enum responseType {
    errorResponse,
    successResponse,
    gameCreatedSuccessResponse,
    gameCreationErrorResponse,
    gameNotFoundErrorResponse,
    loginResponse,
    registerResponse,
    gameUpdateResponse,
    questionResponse,
    GameTimeUpdateResponse,
    PlayerJoinUpdateResponse,
}

/// The questions of a game, in the order in which they are asked.
pub struct questionList {
    pub questions: Vec<Question>,
}

/// A question with its answer choices; the flag marks the correct choices.
pub struct Question {
    pub question: String,
    pub answers: Vec<(bool, String)>,
}

/// The texts of the answer choices of `answers`, in order, without their flags.
pub open spec fn choice_texts(answers: Seq<(bool, String)>) -> Seq<Seq<char>> {
    answers.map_values(|a: (bool, String)| a.1@)
}

/// The views of a sequence of strings.
pub open spec fn string_views(s: Seq<String>) -> Seq<Seq<char>> {
    s.map_values(|x: String| x@)
}

/// Tells whether the text is in the list.
pub(crate) fn text_listed(list: &Vec<String>, s: &String) -> (r: bool)
    ensures
        r == string_views(list@).contains(s@),
{
    let mut i: usize = 0;
    while i < list.len()
        invariant
            i <= list@.len(),
            forall|k: int| 0 <= k < i ==> (#[trigger] list@[k])@ != s@,
        decreases list@.len() - i,
    {
        if list[i] == *s {
            assert(string_views(list@)[i as int] == s@);
            return true;
        }
        i = i + 1;
    }
    proof {
        if string_views(list@).contains(s@) {
            let k = choose|k: int| 0 <= k < list@.len() && #[trigger] string_views(list@)[k] == s@;
            assert(list@[k]@ == s@);
        }
    }
    false
}

/// A question has a correct answer when at least one choice is flagged correct.
pub open spec fn has_correct_choice(answers: Seq<(bool, String)>) -> bool {
    exists|i: int| 0 <= i < answers.len() && #[trigger] answers[i].0
}

impl Question {
    /// The question as players see it: the same text and choices, without
    /// the flags that tell which choices are correct.
    pub fn censored(self) -> (r: censoredQuestion)
        ensures
            r.question == self.question,
            string_views(r.answers@) == choice_texts(self.answers@),
    {
        censor(&self)
    }

    /// Builds a question from its text and its choices.
    pub fn new(question: String, answers: Vec<(bool, String)>) -> (r: Self)
        ensures
            r.question == question,
            r.answers == answers,
    {
        Question { question, answers }
    }

    /// A question is valid when at least one of its choices is correct.
    pub fn isValid(&self) -> (r: bool)
        ensures
            r == has_correct_choice(self.answers@),
    {
        let mut i: usize = 0;
        while i < self.answers.len()
            invariant
                i <= self.answers.len(),
                forall|j: int| 0 <= j < i ==> !(#[trigger] self.answers@[j]).0,
            decreases self.answers.len() - i,
        {
            if self.answers[i].0 {
                return true;
            }
            i = i + 1;
        }
        false
    }
}

/// A censored copy of a question.
pub(crate) fn censor(q: &Question) -> (r: censoredQuestion)
    ensures
        r.question == q.question,
        string_views(r.answers@) == choice_texts(q.answers@),
{
    let mut answers: Vec<String> = Vec::new();
    let mut i: usize = 0;
    while i < q.answers.len()
        invariant
            i <= q.answers.len(),
            answers@.len() == i,
            forall|j: int| 0 <= j < i ==> #[trigger] answers@[j]@ == q.answers@[j].1@,
        decreases q.answers.len() - i,
    {
        answers.push(q.answers[i].1.clone());
        i = i + 1;
    }
    assert(string_views(answers@) =~= choice_texts(q.answers@));
    censoredQuestion { question: q.question.clone(), answers }
}

/// A question without the flags that tell which choices are correct.
pub struct censoredQuestion {
    pub question: String,
    pub answers: Vec<String>,
}

/// An update that the game broadcasts; `update_version` orders the updates.
pub struct GameUpdate {
    pub update_version: usize,
    pub data: gameUpdateHelper,
}

/// The contents of a game update.
pub enum gameUpdateHelper {
    /// A new question and its index in the game.
    newQuestion(censoredQuestion, usize),
    /// Token, username and score of each player.
    playerListUpdate(Vec<(String, String, usize)>),
}

impl GameUpdate {
    /// An update is new for a client whose last seen version is `last_req_ver`
    /// when its own version is greater.
    pub fn is_new(&self, last_req_ver: usize) -> (r: bool)
        ensures
            r == (last_req_ver < self.update_version),
    {
        if last_req_ver >= self.update_version {
            return false;
        }
        true
    }

    /// Tells whether the update carries a player list.
    pub fn is_player_list(&self) -> (r: bool)
        ensures
            r == (self.data is playerListUpdate),
    {
        match self.data {
            gameUpdateHelper::playerListUpdate(_) => true,
            _ => false,
        }
    }

    /// The player list that the update carries, or an error response when it
    /// carries a question.
    pub fn get_player_list(self) -> (r: Result<Vec<(String, String, usize)>, pogootResponse>)
        ensures
            match self.data {
                gameUpdateHelper::playerListUpdate(list) => r == Ok::<Vec<(String, String, usize)>, pogootResponse>(list),
                gameUpdateHelper::newQuestion(_, _) => r matches Err(e) && is_error_response(e, "Not a player list update"@),
            },
    {
        match self.data {
            gameUpdateHelper::playerListUpdate(list) => Ok(list),
            _ => Err(pogootResponse::standard_error_message("Not a player list update")),
        }
    }

    /// The question that the update carries, or an error response when it
    /// carries a player list.
    pub fn get_question(self) -> (r: Result<censoredQuestion, pogootResponse>)
        ensures
            match self.data {
                gameUpdateHelper::newQuestion(q, _) => r == Ok::<censoredQuestion, pogootResponse>(q),
                gameUpdateHelper::playerListUpdate(_) => r matches Err(e) && is_error_response(e, "Is not question"@),
            },
    {
        match self.data {
            gameUpdateHelper::newQuestion(question, _) => Ok(question),
            _ => Err(pogootResponse::standard_error_message("Is not question")),
        }
    }
}

/// The secrets for database connections (none are needed yet).
pub struct secrets {}

} // verus!
