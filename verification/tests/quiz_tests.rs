use pogoot::quiz::{
    collection_closes, created_reply, fresh_game_id, game_not_found_reply, invalid_upload_reply, launch_report,
    lobby_verdict, parse_choice, reconnection_accepted, Admission, Data, LobbyVerdict, QuizGame, Reply, Round,
    SocketAction, SocketEvent, SocketSession, pogootRequest, questionList, request, responses, Question,
};

fn sample_questions() -> questionList {
    questionList {
        questions: vec![
            Question { question: "2+2".to_string(), answers: vec![(false, "3".to_string()), (true, "4".to_string())] },
            Question { question: "Capital of France".to_string(), answers: vec![(true, "Paris".to_string()), (false, "Rome".to_string())] },
        ],
    }
}

#[test]
fn test_pogoot_request_serialization() {
    let test_username = "Hi".to_string();
    let test_request = pogootRequest { requestType: request::CreateGame, data: Data::Username(test_username) };
    let test_request2 = pogootRequest { requestType: request::SubscribeToGame("69".to_string()), data: Data::Username("test_username".to_owned()) };
    let mut session = SocketSession::new();
    // A create request without questions opens a game all the same and is refused.
    assert!(matches!(session.step(SocketEvent::Request(test_request)), SocketAction::OpenGame(None)));
    assert!(session.pending_game);
    match session.step(SocketEvent::Request(test_request2)) {
        SocketAction::Join(id, name) => {
            assert_eq!(id, "69");
            assert_eq!(name, "test_username");
        },
        _ => panic!("expected a join"),
    }
}

#[test]
fn joinGameTest() {
    let gameJoin = pogootRequest { requestType: request::SubscribeToGame("721174".to_string()), data: Data::Username("Poggooooo".to_string()) };
    let mut session = SocketSession::new();
    match session.step(SocketEvent::Request(gameJoin)) {
        SocketAction::Join(id, name) => {
            assert_eq!(id, "721174");
            assert_eq!(name, "Poggooooo");
        },
        _ => panic!("expected a join"),
    }
    assert!(!session.pending_game);
}

#[test]
fn socket_start_without_game_ends() {
    let mut session = SocketSession::new();
    let start = pogootRequest { requestType: request::StartGame("1".to_string()), data: Data::Empty };
    assert!(matches!(session.step(SocketEvent::Request(start)), SocketAction::NoGame));
}

#[test]
fn socket_create_then_start_launches() {
    let mut session = SocketSession::new();
    let create = pogootRequest { requestType: request::CreateGame, data: Data::QuestionUpload(sample_questions()) };
    match session.step(SocketEvent::Request(create)) {
        SocketAction::OpenGame(Some(q)) => assert_eq!(q.questions.len(), 2),
        _ => panic!("expected a game to open"),
    }
    let start = pogootRequest { requestType: request::StartGame("1".to_string()), data: Data::Empty };
    assert!(matches!(session.step(SocketEvent::Request(start)), SocketAction::Launch));
    assert!(!session.pending_game);
}

#[test]
fn socket_refusals_and_echoes() {
    let mut session = SocketSession::new();
    let answer = pogootRequest { requestType: request::Answer(1), data: Data::Empty };
    match session.step(SocketEvent::Request(answer)) {
        SocketAction::Send(Reply::Json(responses::errorResponse(t), f)) => {
            assert_eq!(t, "Not Taking Answers");
            assert_eq!(f, "Not Taking Answers");
        },
        _ => panic!("answers are refused before the game"),
    }
    let bad_join = pogootRequest { requestType: request::SubscribeToGame("1".to_string()), data: Data::Empty };
    match session.step(SocketEvent::Request(bad_join)) {
        SocketAction::Send(Reply::Json(responses::errorResponse(t), _)) => assert_eq!(t, "Could Not Join Game"),
        _ => panic!("a join needs a username"),
    }
    let resub = pogootRequest { requestType: request::ReSubscribeToGame("1".to_string()), data: Data::Empty };
    match session.step(SocketEvent::Request(resub)) {
        SocketAction::Send(Reply::Text(t)) => assert_eq!(t, ""),
        _ => panic!("a rejoin gets an empty reply"),
    }
    match session.step(SocketEvent::Unreadable("hi\"".to_string())) {
        SocketAction::Send(Reply::Text(t)) => assert_eq!(t, format!("invalid string: {:?}", "hi\"")),
        _ => panic!("unreadable text is echoed"),
    }
    match session.step(SocketEvent::Unknown("Binary([1])".to_string())) {
        SocketAction::Send(Reply::Text(t)) => assert_eq!(t, "unknown: Binary([1])"),
        _ => panic!("unknown messages are echoed"),
    }
}

#[test]
fn socket_close_cancels_pending_game() {
    let mut session = SocketSession::new();
    assert!(matches!(session.step(SocketEvent::Closed), SocketAction::Leave(false)));
    let create = pogootRequest { requestType: request::CreateGame, data: Data::Empty };
    let _ = session.step(SocketEvent::Request(create));
    assert!(matches!(session.step(SocketEvent::Closed), SocketAction::Leave(true)));
}

#[test]
fn launch_reports() {
    match launch_report(true, true) {
        Reply::Json(responses::successResponse(t), f) => {
            assert_eq!(t, "Succesfully started Game");
            assert_eq!(f, "Failed To Parse Success of Start Game");
        },
        _ => panic!(),
    }
    match launch_report(false, false) {
        Reply::Json(responses::errorResponse(t), f) => {
            assert_eq!(t, "Failed to delete Game");
            assert_eq!(f, "Failed To Parse Failure of Deletion Game");
        },
        _ => panic!(),
    }
    match launch_report(false, true) {
        Reply::Json(responses::successResponse(t), _) => assert_eq!(t, "Succesfully deleted Game"),
        _ => panic!(),
    }
    match launch_report(true, false) {
        Reply::Json(responses::errorResponse(t), _) => assert_eq!(t, "Failed to started Game"),
        _ => panic!(),
    }
    match created_reply("123456".to_string()) {
        Reply::Json(responses::gameCreatedResponse(id), f) => {
            assert_eq!(id, "123456");
            assert_eq!(f, "123456");
        },
        _ => panic!(),
    }
    assert!(matches!(invalid_upload_reply(), Reply::Json(responses::gameCreationErrorResponse(t), _) if t == "Invalid Question Upload"));
    assert!(matches!(game_not_found_reply(), Reply::Json(responses::gameNotFoundError, _)));
}

#[test]
fn lobby_verdicts() {
    assert!(matches!(lobby_verdict(Some(120001), Some(true), Some(true)), LobbyVerdict::Expire));
    assert!(matches!(lobby_verdict(Some(120000), None, None), LobbyVerdict::Wait));
    assert!(matches!(lobby_verdict(None, Some(true), None), LobbyVerdict::Wait));
    assert!(matches!(lobby_verdict(Some(5), Some(true), Some(true)), LobbyVerdict::Begin));
    assert!(matches!(lobby_verdict(Some(5), Some(false), Some(true)), LobbyVerdict::Abandon));
    assert!(matches!(lobby_verdict(Some(5), Some(true), Some(false)), LobbyVerdict::Abandon));
}

#[test]
fn answer_window() {
    assert!(collection_closes(Some(30000), 0, 5));
    assert!(!collection_closes(Some(29999), 4, 5));
    assert!(collection_closes(Some(1), 5, 5));
    assert!(!collection_closes(None, 9, 5));
}

#[test]
fn reconnection_needs_the_token() {
    let token = "abc".to_string();
    assert!(reconnection_accepted(Some(responses::reconToken("abc".to_string())), &token));
    assert!(!reconnection_accepted(Some(responses::reconToken("abd".to_string())), &token));
    assert!(!reconnection_accepted(Some(responses::reconnectorToken("abc".to_string())), &token));
    assert!(!reconnection_accepted(None, &token));
}

#[test]
fn choices_parse_like_usize() {
    assert_eq!(parse_choice("3"), Some(3));
    assert_eq!(parse_choice("+12"), Some(12));
    assert_eq!(parse_choice("007"), Some(7));
    assert_eq!(parse_choice(""), None);
    assert_eq!(parse_choice("+"), None);
    assert_eq!(parse_choice("-1"), None);
    assert_eq!(parse_choice(" 1"), None);
    assert_eq!(parse_choice("1a"), None);
    assert_eq!(parse_choice("99999999999999999999999999"), None);
    for text in ["0", "42", "+5", "18446744073709551615", "x", "4 "] {
        assert_eq!(parse_choice(text), text.parse::<usize>().ok());
    }
}

#[test]
fn lobby_join_and_rejoin() {
    let mut game = QuizGame::new(sample_questions());
    let token = match game.join_lobby("ann".to_string()) {
        Admission::Joined(t) => t,
        _ => panic!("a new name joins"),
    };
    assert_eq!(token.len(), 10);
    match game.join_lobby("ann".to_string()) {
        Admission::Reconnect(t) => assert_eq!(t, token),
        _ => panic!("a taken name must prove itself"),
    }
    assert!(game.has_player(&"ann".to_string()));
    assert!(!game.has_player(&"bob".to_string()));
    assert_eq!(game.reconnected(&"ann".to_string()), 0);
    // The name holds no token any more: it joins afresh.
    assert!(matches!(game.join_lobby("ann".to_string()), Admission::Joined(_)));
    assert_eq!(game.standings().len(), 2);
}

#[test]
fn rounds_and_grading() {
    let mut game = QuizGame::new(sample_questions());
    let _ = game.join_lobby("ann".to_string());
    let _ = game.join_lobby("bob".to_string());
    let data = game.begin();
    assert_eq!(data.totalQuestions, 2);
    assert_eq!(game.required_answers(), 2);
    match game.next_round() {
        Round::Ask(q) => {
            assert_eq!(q.question, "2+2");
            assert_eq!(q.answers, vec!["3".to_string(), "4".to_string()]);
        },
        _ => panic!("a question is left"),
    }
    // Bob missed the question, then got the next one again.
    game.broadcast_result(1, false);
    assert_eq!(game.required_answers(), 1);
    game.broadcast_result(1, false);
    assert_eq!(game.required_answers(), 1);
    game.broadcast_result(1, true);
    assert_eq!(game.required_answers(), 2);
    let answers = vec![("bob".to_string(), 1usize), ("ann".to_string(), 0usize), ("ann".to_string(), 1usize)];
    let schedule = vec![1000, 900, 810];
    let awards = game.grade(&answers, &schedule);
    assert_eq!(awards, vec![1, 0]);
    let standings = game.standings();
    assert_eq!(standings, vec![("ann".to_string(), 900), ("bob".to_string(), 1000)]);
    let _ = game.next_round();
    match game.next_round() {
        Round::Over(s) => assert_eq!(s, standings),
        _ => panic!("no question is left"),
    }
}

#[test]
fn awards_past_the_schedule_are_worth_nothing() {
    let mut game = QuizGame::new(sample_questions());
    let _ = game.join_lobby("ann".to_string());
    let _ = game.begin();
    let _ = game.next_round();
    let awards = game.grade(&vec![("ann".to_string(), 1), ("ann".to_string(), 1)], &vec![5]);
    assert_eq!(awards, vec![0, 0]);
    assert_eq!(game.standings(), vec![("ann".to_string(), 5)]);
}

#[test]
fn game_ids_are_fresh() {
    let open = vec!["123456".to_string()];
    let id = fresh_game_id(&open).expect("an id is found");
    assert_eq!(id.len(), 6);
    assert!(id.chars().all(|c| c.is_ascii_digit()));
    assert!(!open.contains(&id));
}

#[test]
fn game_id_found_when_no_open_id_has_six_digits() {
    let open = vec!["12345".to_string(), "abcdef".to_string(), "1234567".to_string()];
    for _ in 0..50 {
        let id = fresh_game_id(&open).expect("no open id can collide");
        assert_eq!(id.len(), 6);
        assert!(!open.contains(&id));
    }
}
