//! A quiz game: the commander creates it from a question list and starts it;
//! each question is broadcast, answers are graded and scored, and the
//! leaderboard is broadcast after each question.
//!
//! The decisions are functions from the game state and an event to the next
//! state and what to send; the sockets and timers that deliver the events
//! live outside the library.
use vstd::prelude::*;

use crate::ids::{digit_symbols, drawn_from, random_digits, random_token, url_safe_symbols};
use crate::protocol::{
    censor, censoredQuestion, choice_texts, gameUpdateHelper, is_error_response, pogootRequest, pogootResponse,
    questionList, requestType, responseType, string_views, GameUpdate, Question, Data,
};
use crate::util::{first_player_index, is_player, sort_by_score, util, Incoming, PlayerEntry};
use std::time::Duration;

verus! {

/// A game: its questions, its id and its players (token, username, score).
pub struct pogootGame {
    pub questions: questionList,
    pub game_id: String,
    pub player_list: Vec<PlayerEntry>,
}

impl pogootGame {
    /// A new game with the given questions, a random 20-character id and no
    /// players.
    pub fn build_game(questions: questionList) -> (r: Self)
        ensures
            r.questions == questions,
            r.player_list@.len() == 0,
            r.game_id@.len() == 20,
            drawn_from(r.game_id@, url_safe_symbols()),
    {
        pogootGame { questions, game_id: random_token(20), player_list: Vec::new() }
    }
}

/// A command from the game's commander.
pub enum GameCommand {
    /// Skip the timer and move on to the next question.
    Next,
    /// Ban a player.
    RemovePlayer(String, String),
    /// Start the game and send the first question.
    Start,
}

/// Where a game stands.
pub enum GamePhase {
    /// Waiting for the commander to start the game.
    Lobby,
    /// About to broadcast the current question, or over when none is left.
    Ready,
    /// The current question is out; answers are being collected.
    Asking,
    /// The leaderboard of the current question is out.
    Reviewing,
}

/// What the game made of one message received while a question is open.
pub struct AnswerReceipt {
    /// The message was an answer and was counted.
    pub counted: bool,
    /// How many answers the current question has received.
    pub answers_so_far: usize,
    /// Enough answers came in to close the question.
    pub closes_window: bool,
    /// The points awarded for this answer (zero unless it was correct).
    pub awarded: usize,
}

/// How many entries of the player list are the given player.
pub open spec fn count_player(s: Seq<PlayerEntry>, username: Seq<char>, token: Seq<char>) -> nat
    decreases s.len(),
{
    if s.len() == 0 {
        0
    } else {
        count_player(s.drop_last(), username, token) + if is_player(s.last(), username, token) { 1nat } else { 0nat }
    }
}

/// No player appears twice in the list.
pub open spec fn unique_players(s: Seq<PlayerEntry>) -> bool {
    forall|i: int, j: int| 0 <= i < j < s.len() ==> !(s[i].0@ == s[j].0@ && s[i].1@ == s[j].1@)
}

/// Later lists keep every earlier player in place, with a score at least as high.
pub open spec fn scores_kept(before: Seq<PlayerEntry>, after: Seq<PlayerEntry>) -> bool {
    &&& before.len() <= after.len()
    &&& forall|i: int| 0 <= i < before.len() ==> {
        &&& (#[trigger] after[i]).0 == before[i].0
        &&& after[i].1 == before[i].1
        &&& after[i].2 >= before[i].2
    }
}

/// The score after adding `points`, capped at the largest `usize`.
pub open spec fn capped_add(score: usize, points: usize) -> usize {
    if score + points > usize::MAX { usize::MAX } else { (score + points) as usize }
}

/// The list in which the (only) entry of the given player got `points` more.
pub open spec fn credit_player(s: Seq<PlayerEntry>, username: Seq<char>, token: Seq<char>, points: usize) -> Seq<PlayerEntry> {
    let i = first_player_index(s, username, token);
    s.update(i, (s[i].0, s[i].1, capped_add(s[i].2, points)))
}

/// The answer names the current question and one of its choices.
pub open spec fn answer_in_range(questions: Seq<Question>, current: int, qid: usize, answer: usize) -> bool {
    qid == current && answer < questions[current].answers@.len()
}

impl GameSession {
    /// The game's state is consistent: counters fit their bounds and the
    /// question index fits the phase.
    pub open spec fn wf(&self) -> bool {
        let n = self.game.questions.questions@.len();
        &&& n < usize::MAX / 4
        &&& self.current <= n
        &&& self.update_version >= 1
        &&& self.correct_answers <= self.total_answers
        &&& match self.phase {
            GamePhase::Lobby => self.current == 0 && self.update_version == 1,
            GamePhase::Ready => self.update_version <= 2 * self.current + 1,
            GamePhase::Asking => self.current < n && self.update_version <= 2 * self.current + 1 && self.subscribers >= 1,
            GamePhase::Reviewing => self.current < n && self.update_version <= 2 * self.current + 2,
        }
    }

    /// The questions of the game.
    pub open spec fn question_seq(&self) -> Seq<Question> {
        self.game.questions.questions@
    }

    /// A session over a new game: in the lobby, before the first question,
    /// with the first update version.
    pub fn new(game: pogootGame) -> (r: Self)
        requires
            game.questions.questions@.len() < usize::MAX / 4,
        ensures
            r.wf(),
            r.game == game,
            r.phase is Lobby,
            r.current == 0,
            r.update_version == 1,
            r.subscribers == 0,
            r.correct_answers == 0,
            r.total_answers == 0,
    {
        GameSession {
            game,
            phase: GamePhase::Lobby,
            current: 0,
            update_version: 1,
            subscribers: 0,
            correct_answers: 0,
            total_answers: 0,
        }
    }

    /// The update announcing a player who joined: version 0, a list holding
    /// only that player with no token and no points. Other requests announce
    /// nothing.
    pub fn join_announcement(request: pogootRequest) -> (r: Option<GameUpdate>)
        ensures
            match (request.request, request.data) {
                (requestType::PlayerJoinUpdate, Data::PlayerJoinUpdateData(name)) => {
                    &&& r matches Some(u)
                    &&& r->0.update_version == 0
                    &&& r->0.data matches gameUpdateHelper::playerListUpdate(list)
                    &&& list@.len() == 1 && list@[0].0 == name && list@[0].1@.len() == 0 && list@[0].2 == 0
                },
                _ => r is None,
            },
    {
        match request.request {
            requestType::PlayerJoinUpdate => match request.data {
                Data::PlayerJoinUpdateData(name) => {
                    let mut list: Vec<PlayerEntry> = Vec::new();
                    list.push((name, String::new(), 0));
                    Some(GameUpdate { update_version: 0, data: gameUpdateHelper::playerListUpdate(list) })
                },
                _ => None,
            },
            _ => None,
        }
    }

    /// In the lobby, a start or next command starts the game; other commands
    /// leave it waiting.
    pub fn start(&mut self, command: GameCommand) -> (started: bool)
        requires
            old(self).wf(),
            old(self).phase is Lobby,
        ensures
            final(self).wf(),
            started == (command is Start || command is Next),
            started ==> final(self).phase is Ready,
            !started ==> final(self).phase is Lobby,
            final(self).game == old(self).game,
            final(self).current == old(self).current,
            final(self).update_version == old(self).update_version,
            final(self).subscribers == old(self).subscribers,
            final(self).correct_answers == old(self).correct_answers,
            final(self).total_answers == old(self).total_answers,
    {
        match command {
            GameCommand::Start | GameCommand::Next => {
                self.phase = GamePhase::Ready;
                true
            },
            _ => false,
        }
    }

    /// The game is over: it has started and no question is left.
    pub fn is_finished(&self) -> (r: bool)
        ensures
            r == (self.phase is Ready && self.current >= self.question_seq().len()),
    {
        match self.phase {
            GamePhase::Ready => self.current >= self.game.questions.questions.len(),
            _ => false,
        }
    }

    /// The update that broadcasts the current question, censored, with the
    /// current version and the question's index.
    pub fn question_update(&self) -> (r: GameUpdate)
        requires
            self.wf(),
            self.phase is Ready,
            self.current < self.question_seq().len(),
        ensures
            r.update_version == self.update_version,
            r.data matches gameUpdateHelper::newQuestion(q, idx) && idx == self.current
                && q.question == self.question_seq()[self.current as int].question
                && string_views(q.answers@) == choice_texts(self.question_seq()[self.current as int].answers@),
    {
        let q = censor(&self.game.questions.questions[self.current]);
        GameUpdate { update_version: self.update_version, data: gameUpdateHelper::newQuestion(q, self.current) }
    }

    /// Records how the broadcast of the current question went. When nobody
    /// received it the question is skipped; otherwise it opens for answers
    /// from `receivers` receivers, with no answer yet.
    pub fn question_sent(&mut self, receivers: Option<usize>)
        requires
            old(self).wf(),
            old(self).phase is Ready,
            old(self).current < old(self).question_seq().len(),
            receivers matches Some(k) ==> k >= 1,
        ensures
            final(self).wf(),
            final(self).game == old(self).game,
            match receivers {
                None => {
                    &&& final(self).phase is Ready
                    &&& final(self).current == old(self).current + 1
                    &&& final(self).update_version == old(self).update_version + 1
                    &&& final(self).correct_answers == old(self).correct_answers
                    &&& final(self).total_answers == old(self).total_answers
                    &&& final(self).subscribers == old(self).subscribers
                },
                Some(k) => {
                    &&& final(self).phase is Asking
                    &&& final(self).current == old(self).current
                    &&& final(self).update_version == old(self).update_version
                    &&& final(self).subscribers == k
                    &&& final(self).correct_answers == 0
                    &&& final(self).total_answers == 0
                },
            },
    {
        match receivers {
            None => {
                self.current = self.current + 1;
                self.update_version = self.update_version + 1;
            },
            Some(k) => {
                self.phase = GamePhase::Asking;
                self.subscribers = k;
                self.correct_answers = 0;
                self.total_answers = 0;
            },
        }
    }

    /// Grades one message received while the current question is open.
    ///
    /// Only internal answers count. An answer to the current question that
    /// picks a correct choice raises the count of correct answers and earns
    /// the points that `award` gives for (receivers, correct answers so far):
    /// they go to the player's entry, or to a new entry when the player has
    /// none. A wrong choice adds the player with no points when absent. The
    /// question closes once the answers reach the receivers less one (the
    /// commander also receives the broadcast).
    pub fn record_answer<F: Fn(usize, usize) -> usize>(&mut self, request: pogootRequest, award: &F) -> (r: AnswerReceipt)
        requires
            old(self).wf(),
            old(self).phase is Asking,
            forall|a: usize, b: usize| award.requires((a, b)),
        ensures
            final(self).wf(),
            final(self).game.questions == old(self).game.questions,
            final(self).game.game_id == old(self).game.game_id,
            final(self).phase is Asking,
            final(self).current == old(self).current,
            final(self).update_version == old(self).update_version,
            final(self).subscribers == old(self).subscribers,
            scores_kept(old(self).game.player_list@, final(self).game.player_list@),
            unique_players(old(self).game.player_list@) ==> unique_players(final(self).game.player_list@),
            match (request.request, request.data) {
                (requestType::InternalAnswer, Data::InternalAnswerData(username, token, qid, answer)) => {
                    let before = old(self).game.player_list@;
                    let after = final(self).game.player_list@;
                    let in_range = answer_in_range(old(self).question_seq(), old(self).current as int, qid, answer);
                    let right = in_range && old(self).question_seq()[old(self).current as int].answers@[answer as int].0;
                    let count = count_player(before, username@, token@);
                    &&& r.counted
                    &&& final(self).total_answers == capped_add(old(self).total_answers, 1)
                    &&& r.answers_so_far == final(self).total_answers
                    &&& r.closes_window == (final(self).total_answers >= old(self).subscribers - 1)
                    &&& right ==> {
                        &&& final(self).correct_answers == capped_add(old(self).correct_answers, 1)
                        &&& award.ensures((old(self).subscribers, final(self).correct_answers), r.awarded)
                        &&& count == 1 ==> after == credit_player(before, username@, token@, r.awarded)
                        &&& count == 0 ==> after == before.push((token, username, r.awarded))
                        &&& count > 1 ==> after == before
                    }
                    &&& !right ==> {
                        &&& final(self).correct_answers == old(self).correct_answers
                        &&& r.awarded == 0
                        &&& (in_range && count == 0) ==> after == before.push((token, username, 0usize))
                        &&& !(in_range && count == 0) ==> after == before
                    }
                },
                _ => {
                    &&& !r.counted
                    &&& !r.closes_window
                    &&& r.awarded == 0
                    &&& final(self).game.player_list@ == old(self).game.player_list@
                    &&& final(self).correct_answers == old(self).correct_answers
                    &&& final(self).total_answers == old(self).total_answers
                    &&& r.answers_so_far == old(self).total_answers
                },
            },
    {
        let ghost before = self.game.player_list@;
        match request.request {
            requestType::InternalAnswer => match request.data {
                Data::InternalAnswerData(username, token, qid, answer) => {
                    self.total_answers = self.total_answers.saturating_add(1);
                    let current = self.current;
                    let n_choices = self.game.questions.questions[current].answers.len();
                    let in_range = qid == current && answer < n_choices;
                    let right = in_range && self.game.questions.questions[current].answers[answer].0;
                    let (count, index) = find_player(&self.game.player_list, username.as_str(), token.as_str());
                    let mut awarded: usize = 0;
                    if right {
                        self.correct_answers = self.correct_answers.saturating_add(1);
                        awarded = award(self.subscribers, self.correct_answers);
                        if count == 1 {
                            let old_score = self.game.player_list[index].2;
                            let entry = self.game.player_list.remove(index);
                            let updated = (entry.0, entry.1, old_score.saturating_add(awarded));
                            self.game.player_list.insert(index, updated);
                            proof {
                                assert(self.game.player_list@ =~= credit_player(before, username@, token@, awarded));
                                lemma_credit_keeps_unique(before, username@, token@, awarded);
                            }
                        } else if count == 0 {
                            self.game.player_list.push((token, username, awarded));
                            proof {
                                lemma_push_absent_keeps_unique(before, (token, username, awarded));
                            }
                        }
                    } else if in_range && count == 0 {
                        self.game.player_list.push((token, username, 0));
                        proof {
                            lemma_push_absent_keeps_unique(before, (token, username, 0usize));
                        }
                    }
                    let closes = self.total_answers >= self.subscribers - 1;
                    AnswerReceipt {
                        counted: true,
                        answers_so_far: self.total_answers,
                        closes_window: closes,
                        awarded,
                    }
                },
                _ => AnswerReceipt { counted: false, answers_so_far: self.total_answers, closes_window: false, awarded: 0 },
            },
            _ => AnswerReceipt { counted: false, answers_so_far: self.total_answers, closes_window: false, awarded: 0 },
        }
    }

    /// Closes the current question: the update with the leaderboard (the
    /// player list as it stands) carries the question's version, and the
    /// version moves on.
    pub fn close_question(&mut self) -> (u: GameUpdate)
        requires
            old(self).wf(),
            old(self).phase is Asking,
        ensures
            final(self).wf(),
            final(self).phase is Reviewing,
            u.update_version == old(self).update_version,
            u.data matches gameUpdateHelper::playerListUpdate(list) && list@ == old(self).game.player_list@,
            final(self).update_version == old(self).update_version + 1,
            final(self).game == old(self).game,
            final(self).current == old(self).current,
            final(self).subscribers == old(self).subscribers,
            final(self).correct_answers == old(self).correct_answers,
            final(self).total_answers == old(self).total_answers,
    {
        let list = copy_player_list(&self.game.player_list);
        let u = GameUpdate { update_version: self.update_version, data: gameUpdateHelper::playerListUpdate(list) };
        self.update_version = self.update_version + 1;
        self.phase = GamePhase::Reviewing;
        u
    }

    /// After the leaderboard, the game waits for the commander's next command
    /// unless the question was the last one.
    pub fn awaits_next(&self) -> (r: bool)
        requires
            self.wf(),
        ensures
            r == (self.current + 1 < self.question_seq().len()),
    {
        self.current + 1 < self.game.questions.questions.len()
    }

    /// Moves on to the next question with a new version.
    pub fn advance(&mut self)
        requires
            old(self).wf(),
            old(self).phase is Reviewing,
        ensures
            final(self).wf(),
            final(self).phase is Ready,
            final(self).current == old(self).current + 1,
            final(self).update_version == old(self).update_version + 1,
            final(self).game == old(self).game,
            final(self).subscribers == old(self).subscribers,
            final(self).correct_answers == old(self).correct_answers,
            final(self).total_answers == old(self).total_answers,
    {
        self.update_version = self.update_version + 1;
        self.current = self.current + 1;
        self.phase = GamePhase::Ready;
    }
}

/// A game in progress: the game, its phase, the index of the current question,
/// the version of the next update, and the counts of the open question.
pub struct GameSession {
    pub game: pogootGame,
    pub phase: GamePhase,
    pub current: usize,
    pub update_version: usize,
    pub subscribers: usize,
    pub correct_answers: usize,
    pub total_answers: usize,
}

/// A copy of a player list.
fn copy_player_list(list: &Vec<PlayerEntry>) -> (r: Vec<PlayerEntry>)
    ensures
        r@ == list@,
{
    let mut out: Vec<PlayerEntry> = Vec::new();
    let mut i: usize = 0;
    while i < list.len()
        invariant
            i <= list.len(),
            out@ == list@.take(i as int),
        decreases list.len() - i,
    {
        let e = &list[i];
        out.push((e.0.clone(), e.1.clone(), e.2));
        proof {
            assert(list@.take(i + 1) =~= list@.take(i as int).push(list@[i as int]));
        }
        i = i + 1;
    }
    assert(list@.take(list@.len() as int) =~= list@);
    out
}

/// How many entries are the given player, and the index of the first one.
fn find_player(list: &Vec<PlayerEntry>, username: &str, token: &str) -> (r: (usize, usize))
    ensures
        r.0 == count_player(list@, username@, token@),
        r.0 >= 1 ==> r.1 == first_player_index(list@, username@, token@) && 0 <= r.1 < list@.len(),
{
    let mut count: usize = 0;
    let mut index: usize = 0;
    let mut i: usize = 0;
    while i < list.len()
        invariant
            i <= list.len(),
            count == count_player(list@.take(i as int), username@, token@),
            count <= i,
            count >= 1 ==> index == first_player_index(list@.take(i as int), username@, token@) && index < i,
            count == 0 ==> first_player_index(list@.take(i as int), username@, token@) == -1,
        decreases list.len() - i,
    {
        proof {
            assert(list@.take(i + 1).drop_last() =~= list@.take(i as int));
            lemma_first_index_nonneg(list@.take(i as int), username@, token@);
        }
        if crate::text::str_eq(list[i].1.as_str(), username) && crate::text::str_eq(list[i].0.as_str(), token) {
            if count == 0 {
                index = i;
            }
            count = count + 1;
        }
        i = i + 1;
    }
    proof {
        assert(list@.take(list@.len() as int) =~= list@);
        if count >= 1 {
            lemma_first_index_bounded(list@, username@, token@);
        }
    }
    (count, index)
}

/// The first index is -1 or a valid index.
proof fn lemma_first_index_nonneg(s: Seq<PlayerEntry>, username: Seq<char>, token: Seq<char>)
    ensures
        -1 <= first_player_index(s, username, token) < s.len(),
    decreases s.len(),
{
    if s.len() > 0 {
        lemma_first_index_nonneg(s.drop_last(), username, token);
    }
}

/// The first index of a player is a matching entry, and one exists whenever
/// the player is counted.
proof fn lemma_first_index_bounded(s: Seq<PlayerEntry>, username: Seq<char>, token: Seq<char>)
    ensures
        (count_player(s, username, token) >= 1) == (first_player_index(s, username, token) >= 0),
        count_player(s, username, token) >= 1 ==> 0 <= first_player_index(s, username, token) < s.len()
            && is_player(s[first_player_index(s, username, token)], username, token),
        count_player(s, username, token) == 0 ==> forall|k: int| 0 <= k < s.len() ==> !is_player(#[trigger] s[k], username, token),
    decreases s.len(),
{
    if s.len() > 0 {
        let init = s.drop_last();
        lemma_first_index_bounded(init, username, token);
        lemma_first_index_nonneg(init, username, token);
        if count_player(init, username, token) >= 1 {
            assert(s[first_player_index(init, username, token)] == init[first_player_index(init, username, token)]);
        }
        assert forall|k: int| 0 <= k < s.len() && count_player(s, username, token) == 0 implies !is_player(#[trigger] s[k], username, token) by {
            if k < init.len() {
                assert(s[k] == init[k]);
            }
        }
    }
}

/// The count of a player is at least the number of matching entries among any
/// two positions.
proof fn lemma_count_two(s: Seq<PlayerEntry>, username: Seq<char>, token: Seq<char>, i: int, j: int)
    requires
        0 <= i < j < s.len(),
        is_player(s[i], username, token),
        is_player(s[j], username, token),
    ensures
        count_player(s, username, token) >= 2,
    decreases s.len(),
{
    let init = s.drop_last();
    if j < s.len() - 1 {
        assert(init[i] == s[i] && init[j] == s[j]);
        lemma_count_two(init, username, token, i, j);
    } else {
        assert(init[i] == s[i]);
        lemma_count_one(init, username, token, i);
    }
}

/// A matching entry makes the count at least one.
proof fn lemma_count_one(s: Seq<PlayerEntry>, username: Seq<char>, token: Seq<char>, i: int)
    requires
        0 <= i < s.len(),
        is_player(s[i], username, token),
    ensures
        count_player(s, username, token) >= 1,
    decreases s.len(),
{
    let init = s.drop_last();
    if i < s.len() - 1 {
        assert(init[i] == s[i]);
        lemma_count_one(init, username, token, i);
    }
}

/// Crediting a player changes only the score, so it keeps players distinct.
proof fn lemma_credit_keeps_unique(s: Seq<PlayerEntry>, username: Seq<char>, token: Seq<char>, points: usize)
    requires
        count_player(s, username, token) == 1,
    ensures
        unique_players(s) ==> unique_players(credit_player(s, username, token, points)),
        scores_kept(s, credit_player(s, username, token, points)),
{
    lemma_first_index_bounded(s, username, token);
}

/// Appending a player who is not in the list keeps players distinct.
proof fn lemma_push_absent_keeps_unique(s: Seq<PlayerEntry>, e: PlayerEntry)
    requires
        count_player(s, e.1@, e.0@) == 0,
    ensures
        unique_players(s) ==> unique_players(s.push(e)),
        scores_kept(s, s.push(e)),
{
    lemma_first_index_bounded(s, e.1@, e.0@);
    assert forall|i: int, j: int| 0 <= i < j < s.push(e).len() && unique_players(s) implies
        !(s.push(e)[i].0@ == s.push(e)[j].0@ && s.push(e)[i].1@ == s.push(e)[j].1@) by {
        if j == s.len() {
            assert(!is_player(s[i], e.1@, e.0@));
        }
    }
}

/// Law: once a list has no player twice, every player's count is at most one.
pub proof fn lemma_unique_count_at_most_one(s: Seq<PlayerEntry>, username: Seq<char>, token: Seq<char>)
    requires
        unique_players(s),
    ensures
        count_player(s, username, token) <= 1,
    decreases s.len(),
{
    if s.len() > 0 {
        let init = s.drop_last();
        assert forall|i: int, j: int| 0 <= i < j < init.len() implies !(init[i].0@ == init[j].0@ && init[i].1@ == init[j].1@) by {
            assert(init[i] == s[i] && init[j] == s[j]);
        }
        lemma_unique_count_at_most_one(init, username, token);
        if is_player(s.last(), username, token) {
            lemma_first_index_bounded(init, username, token);
            if count_player(init, username, token) >= 1 {
                let i = first_player_index(init, username, token);
                assert(init[i] == s[i]);
                assert(!(s[i].0@ == s[s.len() - 1].0@ && s[i].1@ == s[s.len() - 1].1@));
            }
        }
    }
}

/// The response the commander receives for a game update: the leaderboard for
/// a player list, the question for a question.
pub fn commander_update_response(update: GameUpdate) -> (r: pogootResponse)
    ensures
        match update.data {
            gameUpdateHelper::playerListUpdate(list) => r.response is gameUpdateResponse
                && r.data == Data::LeaderBoardUpdate(list),
            gameUpdateHelper::newQuestion(q, _) => r.response is questionResponse && r.data == Data::QuestionData(q),
        },
{
    match update.data {
        gameUpdateHelper::playerListUpdate(list) => pogootResponse {
            response: responseType::gameUpdateResponse,
            data: Data::LeaderBoardUpdate(list),
        },
        gameUpdateHelper::newQuestion(q, _) => pogootResponse { response: responseType::questionResponse, data: Data::QuestionData(q) },
    }
}

/// The response a player receives for a game update: nothing for the join
/// announcements (version 0), their standing for a player list, the question
/// for a question.
pub fn player_update_response(update: GameUpdate, username: &str, token: &str) -> (r: Option<pogootResponse>)
    ensures
        match update.data {
            gameUpdateHelper::playerListUpdate(list) => if update.update_version == 0 {
                r is None
            } else {
                r matches Some(resp) && ({
                    let s = sort_by_score(list@);
                    let i = first_player_index(s, username@, token@);
                    &&& i < 0 ==> is_error_response(resp, "Player Not Found In Player List"@)
                    &&& i >= 0 ==> {
                        &&& resp.response is gameUpdateResponse
                        &&& resp.data matches Data::gameUpdateData(points, ahead, gap)
                        &&& points == s[i].2
                        &&& ahead@ == (if i > 0 { s[i - 1].1@ } else { Seq::<char>::empty() })
                        &&& gap == (if i > 0 { s[i - 1].2 - s[i].2 } else { 0 })
                    }
                })
            },
            gameUpdateHelper::newQuestion(q, _) => r == Some(pogootResponse { response: responseType::questionResponse, data: Data::QuestionData(q) }),
        },
{
    let version = update.update_version;
    match update.data {
        gameUpdateHelper::playerListUpdate(list) => {
            if version == 0 {
                None
            } else {
                let mut list = list;
                Some(util::get_relevant_data(&mut list, username, token))
            }
        },
        gameUpdateHelper::newQuestion(q, _) => Some(pogootResponse { response: responseType::questionResponse, data: Data::QuestionData(q) }),
    }
}

/// What a player's message becomes on its way to the game: an answer is
/// tagged with the player's username and token; other requests pass
/// unchanged.
pub fn relay_player_message(msg: pogootRequest, username: &str, token: &str) -> (r: Option<pogootRequest>)
    ensures
        msg.spec_is_answer() ==> {
            &&& r matches Some(req)
            &&& r->0.request is InternalAnswer
            &&& r->0.data matches Data::InternalAnswerData(u, t, qid, a)
            &&& u@ == username@ && t@ == token@
            &&& msg.data == Data::AnswerData(qid, a)
        },
        !msg.spec_is_answer() ==> r == Some(msg),
{
    if msg.is_answer() {
        let ghost data = msg.data;
        match util::map_answer_to_internal(msg, username, token) {
            Ok(req) => Some(req),
            Err(_) => None,
        }
    } else {
        Some(msg)
    }
}

/// The game a player asks to join: the id in a subscribe request; an error
/// response for other data or other requests.
pub fn subscription_target(request: pogootRequest) -> (r: Result<String, pogootResponse>)
    ensures
        match (request.request, request.data) {
            (requestType::SubscribeToGame, Data::SubscribeToGameData(target)) => r == Ok::<String, pogootResponse>(target),
            (requestType::SubscribeToGame, _) => r matches Err(e) && is_error_response(e, "Wrong data Type"@),
            _ => r matches Err(e) && is_error_response(e, "Wrong request Type"@),
        },
{
    match request.request {
        requestType::SubscribeToGame => match request.data {
            Data::SubscribeToGameData(target) => Ok(target),
            _ => Err(pogootResponse::standard_error_message("Wrong data Type")),
        },
        _ => Err(pogootResponse::standard_error_message("Wrong request Type")),
    }
}

/// What the game makes of the commander's first message.
pub enum CreationDecision {
    /// Create a game with these questions.
    Create(questionList),
    /// A create request without questions: wait for the next message.
    Ignore,
    /// Not a create request: answer with this response.
    Reply(pogootResponse),
}

/// Decides on the commander's first message: a create request with questions
/// creates the game, one without questions is passed over, anything else is
/// answered with a creation error.
pub fn creation_decision(msg: pogootRequest) -> (r: CreationDecision)
    ensures
        match (msg.request, msg.data) {
            (requestType::CreateGame, Data::CreateGameData(q)) => r == CreationDecision::Create(q),
            (requestType::CreateGame, _) => r is Ignore,
            _ => {
                &&& r matches CreationDecision::Reply(resp)
                &&& r->Reply_0.response is gameCreationErrorResponse
                &&& r->Reply_0.data matches Data::GameCreationErrorData(m)
                &&& m@ == "Not a Create Game Request"@
            },
        },
{
    match msg.request {
        requestType::CreateGame => match msg.data {
            Data::CreateGameData(questions) => CreationDecision::Create(questions),
            _ => CreationDecision::Ignore,
        },
        _ => CreationDecision::Reply(pogootResponse {
            response: responseType::gameCreationErrorResponse,
            data: Data::GameCreationErrorData(crate::text::owned("Not a Create Game Request")),
        }),
    }
}

/// The id and password of a new game: six random digits and twenty random
/// URL-safe characters.
pub fn new_game_credentials() -> (r: (String, String))
    ensures
        r.0@.len() == 6,
        drawn_from(r.0@, digit_symbols()),
        r.1@.len() == 20,
        drawn_from(r.1@, url_safe_symbols()),
{
    let password = random_token(20);
    let game_id = random_digits(6);
    (game_id, password)
}

/// The response that tells the commander the game was created.
pub fn game_created_response(game_id: String, password: String) -> (r: pogootResponse)
    ensures
        r.response is gameCreatedSuccessResponse,
        r.data == Data::GameCreationSuccessData(game_id, password),
{
    pogootResponse { response: responseType::gameCreatedSuccessResponse, data: Data::GameCreationSuccessData(game_id, password) }
}

/// The notice the commander receives in the lobby when a player joins: the
/// name in the announcement; nothing for other updates.
pub fn lobby_join_notice(update: GameUpdate) -> (r: Option<pogootResponse>)
    requires
        update.data matches gameUpdateHelper::playerListUpdate(list) ==> list@.len() > 0,
    ensures
        match update.data {
            gameUpdateHelper::playerListUpdate(list) => {
                &&& r matches Some(resp)
                &&& r->0.response is PlayerJoinUpdateResponse
                &&& r->0.data matches Data::PlayerJoinUpdateData(name)
                &&& name@ == list@[0].0@
            },
            _ => r is None,
        },
{
    match update.data {
        gameUpdateHelper::playerListUpdate(list) => Some(pogootResponse {
            response: responseType::PlayerJoinUpdateResponse,
            data: Data::PlayerJoinUpdateData(list[0].0.clone()),
        }),
        _ => None,
    }
}

/// The commander's request asks to start the game.
pub fn is_start_request(msg: &pogootRequest) -> (r: bool)
    ensures
        r == (msg.request is StartGame),
{
    match msg.request {
        requestType::StartGame => true,
        _ => false,
    }
}

/// The commander's request asks for the next question.
pub fn is_next_request(msg: &pogootRequest) -> (r: bool)
    ensures
        r == (msg.request is NextQuestion),
{
    match msg.request {
        requestType::NextQuestion => true,
        _ => false,
    }
}

/// What reaches the loop that serves a game's commander.
pub enum CommanderEvent {
    /// The commander's socket closed.
    Closed,
    /// Reading the commander's socket failed.
    ReadFailed,
    /// A message of the commander.
    Message(Incoming),
    /// A game update from the broadcast; `None` when the broadcast failed.
    Update(Option<GameUpdate>),
    /// The players' count and the time left; `None` when that channel closed.
    PlayerCount(Option<(usize, Duration)>),
    /// The game refused the command handed to it.
    CommandRefused(GameCommand),
}

/// What the commander loop does next.
pub enum CommanderAction {
    /// Hand the command to the game.
    Send(GameCommand),
    /// Send the response to the commander and go on.
    Reply(pogootResponse),
    /// Send the response to the commander, then stop serving.
    ReplyAndStop(pogootResponse),
    /// Stop serving the commander.
    Stop,
    /// Nothing to do.
    Wait,
}

/// The standard error response carrying `msg`.
pub open spec fn error_reply(a: CommanderAction, msg: Seq<char>) -> bool {
    a matches CommanderAction::Reply(r) && is_error_response(r, msg)
}

/// The standard error response carrying `msg`, then a stop.
pub open spec fn error_reply_and_stop(a: CommanderAction, msg: Seq<char>) -> bool {
    a matches CommanderAction::ReplyAndStop(r) && is_error_response(r, msg)
}

/// The error the commander is told when the game refused a command: the
/// start failed, or (for any other command) the game is gone.
fn refusal_reply(c: GameCommand) -> (r: pogootResponse)
    ensures
        c is Start ==> is_error_response(r, "Commander Failed to Start Game"@),
        !(c is Start) ==> is_error_response(r, "Commander is err"@),
{
    match c {
        GameCommand::Start => pogootResponse::standard_error_message("Commander Failed to Start Game"),
        _ => pogootResponse::standard_error_message("Commander is err"),
    }
}

/// A player list that the broadcast brings names at least one player.
pub open spec fn lists_someone(event: CommanderEvent) -> bool {
    match event {
        CommanderEvent::Update(Some(u)) => match u.data {
            gameUpdateHelper::playerListUpdate(l) => l@.len() > 0,
            _ => true,
        },
        _ => true,
    }
}

/// The commander is told the name of the first player of the list.
pub open spec fn announces_first(a: CommanderAction, l: Seq<(String, String, usize)>) -> bool {
    a matches CommanderAction::Reply(r) && (r.response is PlayerJoinUpdateResponse && (r.data matches Data::PlayerJoinUpdateData(name) && name@ == l[0].0@))
}

/// The event is a request of the commander to start the game.
pub open spec fn is_start_event(e: CommanderEvent) -> bool {
    e matches CommanderEvent::Message(Incoming::Request(req)) && req.request is StartGame
}

/// The event is a request of the commander for the next question.
pub open spec fn is_next_event(e: CommanderEvent) -> bool {
    e matches CommanderEvent::Message(Incoming::Request(req)) && req.request is NextQuestion
}

/// The event is a readable request of the commander.
pub open spec fn is_request_event(e: CommanderEvent) -> bool {
    e matches CommanderEvent::Message(Incoming::Request(_))
}

/// Whether the loop has left the lobby after the event: a start request or
/// a closed socket leaves it, and it is never re-entered.
pub open spec fn started_after(started: bool, e: CommanderEvent) -> bool {
    started || is_start_event(e) || e is Closed
}

/// The command the loop hands the game on the event: `Start` for a start
/// request in the lobby, `Next` for a next-question request after it.
pub open spec fn command_on(started: bool, e: CommanderEvent) -> Option<GameCommand> {
    if !started && is_start_event(e) {
        Some(GameCommand::Start)
    } else if started && is_next_event(e) {
        Some(GameCommand::Next)
    } else {
        None
    }
}

/// One step of the loop that serves a game's commander. Before the start
/// (`started` false) only a start request starts the game: it hands the
/// game `Start` and the loop moves on to the game; any other request is
/// answered "Not start game request", an unreadable message or a read
/// failure ends the service, a closed socket leaves the lobby, and each
/// player list from the broadcast is announced by the name of its first
/// player. After the start each next-question request hands the game
/// `Next`, other requests are ignored, unreadable ones answered "Not a
/// request"; updates are relayed (the leaderboard or the question), the
/// players' count and time are relayed, and a broadcast failure is answered
/// "Broadcast Error" and ends the service. A refused command is reported
/// ("Commander Failed to Start Game" for the start, "Commander is err" for
/// any other) and ends the service.
pub fn commander_step(started: &mut bool, event: CommanderEvent) -> (a: CommanderAction)
    requires
        !*old(started) ==> lists_someone(event),
    ensures
        *final(started) == started_after(*old(started), event),
        command_on(*old(started), event) matches Some(c) ==> a == CommanderAction::Send(c),
        a matches CommanderAction::Send(c) ==> command_on(*old(started), event) == Some(c),
        !*old(started) ==> match event {
            CommanderEvent::Closed => *final(started) && a is Wait,
            CommanderEvent::ReadFailed => !*final(started) && a is Stop,
            CommanderEvent::Message(Incoming::Request(req)) => if req.request is StartGame {
                *final(started) && a == CommanderAction::Send(GameCommand::Start)
            } else {
                !*final(started) && error_reply(a, "Not start game request"@)
            },
            CommanderEvent::Message(_) => !*final(started) && a is Stop,
            CommanderEvent::Update(Some(u)) => !*final(started) && match u.data {
                gameUpdateHelper::playerListUpdate(l) => announces_first(a, l@),
                _ => a is Wait,
            },
            CommanderEvent::Update(None) => !*final(started) && a is Wait,
            CommanderEvent::PlayerCount(_) => !*final(started) && a is Wait,
            CommanderEvent::CommandRefused(c) => *final(started) == *old(started) && if c is Start {
                error_reply_and_stop(a, "Commander Failed to Start Game"@)
            } else {
                error_reply_and_stop(a, "Commander is err"@)
            },
        },
        *old(started) ==> *final(started) && match event {
            CommanderEvent::Closed => a is Stop,
            CommanderEvent::ReadFailed => a is Wait,
            CommanderEvent::Message(Incoming::Request(req)) => if req.request is NextQuestion {
                a == CommanderAction::Send(GameCommand::Next)
            } else {
                a is Wait
            },
            CommanderEvent::Message(_) => error_reply(a, "Not a request"@),
            CommanderEvent::Update(Some(u)) => a matches CommanderAction::Reply(r) && match u.data {
                gameUpdateHelper::playerListUpdate(l) => r.response is gameUpdateResponse && r.data == Data::LeaderBoardUpdate(l),
                gameUpdateHelper::newQuestion(q, _) => r.response is questionResponse && r.data == Data::QuestionData(q),
            },
            CommanderEvent::Update(None) => error_reply_and_stop(a, "Broadcast Error"@),
            CommanderEvent::PlayerCount(Some((n, d))) => a matches CommanderAction::Reply(r)
                && r.response is GameTimeUpdateResponse && r.data == Data::GamePlayerTimeUpdate(n, d),
            CommanderEvent::PlayerCount(None) => a is Wait,
            CommanderEvent::CommandRefused(c) => if c is Start {
                error_reply_and_stop(a, "Commander Failed to Start Game"@)
            } else {
                error_reply_and_stop(a, "Commander is err"@)
            },
        },
{
    if !*started {
        match event {
            CommanderEvent::Closed => {
                *started = true;
                CommanderAction::Wait
            },
            CommanderEvent::ReadFailed => CommanderAction::Stop,
            CommanderEvent::Message(Incoming::Request(req)) => {
                if is_start_request(&req) {
                    *started = true;
                    CommanderAction::Send(GameCommand::Start)
                } else {
                    CommanderAction::Reply(pogootResponse::standard_error_message("Not start game request"))
                }
            },
            CommanderEvent::Message(_) => CommanderAction::Stop,
            CommanderEvent::Update(Some(u)) => match lobby_join_notice(u) {
                Some(r) => CommanderAction::Reply(r),
                None => CommanderAction::Wait,
            },
            CommanderEvent::Update(None) => CommanderAction::Wait,
            CommanderEvent::PlayerCount(_) => CommanderAction::Wait,
            CommanderEvent::CommandRefused(c) => CommanderAction::ReplyAndStop(refusal_reply(c)),
        }
    } else {
        match event {
            CommanderEvent::Closed => CommanderAction::Stop,
            CommanderEvent::ReadFailed => CommanderAction::Wait,
            CommanderEvent::Message(Incoming::Request(req)) => {
                if is_next_request(&req) {
                    CommanderAction::Send(GameCommand::Next)
                } else {
                    CommanderAction::Wait
                }
            },
            CommanderEvent::Message(_) => CommanderAction::Reply(pogootResponse::standard_error_message("Not a request")),
            CommanderEvent::Update(Some(u)) => CommanderAction::Reply(commander_update_response(u)),
            CommanderEvent::Update(None) => CommanderAction::ReplyAndStop(pogootResponse::standard_error_message("Broadcast Error")),
            CommanderEvent::PlayerCount(Some((n, d))) => CommanderAction::Reply(pogootResponse {
                response: responseType::GameTimeUpdateResponse,
                data: Data::GamePlayerTimeUpdate(n, d),
            }),
            CommanderEvent::PlayerCount(None) => CommanderAction::Wait,
            CommanderEvent::CommandRefused(c) => CommanderAction::ReplyAndStop(refusal_reply(c)),
        }
    }
}

/// Whether the loop has left the lobby after the events, one step at a
/// time from `started`.
pub open spec fn started_after_all(started: bool, es: Seq<CommanderEvent>) -> bool
    decreases es.len(),
{
    if es.len() == 0 {
        started
    } else {
        started_after(started_after_all(started, es.drop_last()), es.last())
    }
}

/// Over requests only, the loop has left the lobby exactly when one of them
/// asked to start.
proof fn lemma_started_iff_start_requested(es: Seq<CommanderEvent>, i: int)
    requires
        0 <= i <= es.len(),
        forall|k: int| 0 <= k < es.len() ==> is_request_event(#[trigger] es[k]),
    ensures
        started_after_all(false, es.take(i)) <==> exists|j: int| 0 <= j < i && is_start_event(#[trigger] es[j]),
    decreases i,
{
    if i > 0 {
        lemma_started_iff_start_requested(es, i - 1);
        assert(es.take(i).drop_last() =~= es.take(i - 1));
        assert(es.take(i).last() == es[i - 1]);
        assert(is_request_event(es[i - 1]));
        if started_after_all(false, es.take(i - 1)) {
            let j = choose|j: int| 0 <= j < i - 1 && is_start_event(#[trigger] es[j]);
            assert(0 <= j < i && is_start_event(es[j]));
        }
        if exists|j: int| 0 <= j < i && is_start_event(#[trigger] es[j]) {
            let j = choose|j: int| 0 <= j < i && is_start_event(#[trigger] es[j]);
            if j < i - 1 {
                assert(exists|j2: int| 0 <= j2 < i - 1 && is_start_event(#[trigger] es[j2]));
            }
        }
    }
}

/// Law: over the commander's requests, read in order from the lobby, the
/// game is handed `Start` on a request exactly when it is a start request
/// and no earlier one was (so at most once), and `Next` exactly when it is
/// a next-question request after a start request (so never before the
/// start); a request in the lobby that is not a start request is answered
/// "Not start game request". `commander_step` takes these steps, with
/// `started_after_all` as its `started`.
pub proof fn lemma_commander_sequence(es: Seq<CommanderEvent>)
    requires
        forall|k: int| 0 <= k < es.len() ==> is_request_event(#[trigger] es[k]),
    ensures
        forall|i: int| 0 <= i < es.len() ==> (command_on(started_after_all(false, es.take(i)), #[trigger] es[i]) == Some(GameCommand::Start)
            <==> (is_start_event(es[i]) && forall|j: int| 0 <= j < i ==> !is_start_event(#[trigger] es[j]))),
        forall|i: int| 0 <= i < es.len() ==> (command_on(started_after_all(false, es.take(i)), #[trigger] es[i]) == Some(GameCommand::Next)
            <==> (is_next_event(es[i]) && exists|j: int| 0 <= j < i && is_start_event(#[trigger] es[j]))),
        forall|i: int| 0 <= i < es.len() ==> ((forall|j: int| 0 <= j < i ==> !is_start_event(#[trigger] es[j])) <==> !started_after_all(false, #[trigger] es.take(i))),
{
    assert forall|i: int| 0 <= i < es.len() implies (command_on(started_after_all(false, es.take(i)), #[trigger] es[i]) == Some(GameCommand::Start)
        <==> (is_start_event(es[i]) && forall|j: int| 0 <= j < i ==> !is_start_event(#[trigger] es[j]))) by {
        lemma_started_iff_start_requested(es, i);
    }
    assert forall|i: int| 0 <= i < es.len() implies (command_on(started_after_all(false, es.take(i)), #[trigger] es[i]) == Some(GameCommand::Next)
        <==> (is_next_event(es[i]) && exists|j: int| 0 <= j < i && is_start_event(#[trigger] es[j]))) by {
        lemma_started_iff_start_requested(es, i);
    }
    assert forall|i: int| 0 <= i < es.len() implies ((forall|j: int| 0 <= j < i ==> !is_start_event(#[trigger] es[j])) <==> !started_after_all(false, #[trigger] es.take(i))) by {
        lemma_started_iff_start_requested(es, i);
    }
}

} // verus!
