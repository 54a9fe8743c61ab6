use pogoot::game::{creation_decision, is_next_request, is_start_request, pogootGame, CreationDecision, GameCommand, GamePhase, GameSession};
use pogoot::protocol::gameUpdateHelper;
use pogoot::protocol::{pogootRequest, questionList, requestType, Data, Question};
use pogoot::sessions::{FromClientRequest, LoginRequest};
use pogoot::util::{util, Incoming};

#[test]
fn pogoot_request_json() {
    let mut questions = vec![];
    for i in 0..10 {
        let temp_question = Question {
            question: format!("What is this question: {}", i),
            answers: vec![(false, "Pog".to_string()), (false, "JFK".to_string()), (false, "Plog".to_string()), (true, i.to_string())],
        };
        questions.push(temp_question);
    }
    assert!(questions.iter().all(|q| q.isValid()));
    let create_request = pogootRequest { request: requestType::CreateGame, data: Data::CreateGameData(questionList { questions }) };
    match creation_decision(create_request) {
        CreationDecision::Create(list) => {
            assert_eq!(list.questions.len(), 10);
            let censored = Question::new(list.questions[3].question.clone(), list.questions[3].answers.clone()).censored();
            assert_eq!(censored.question, "What is this question: 3");
            assert_eq!(censored.answers, vec!["Pog".to_string(), "JFK".to_string(), "Plog".to_string(), "3".to_string()]);
        },
        _ => panic!("a create request with questions creates the game"),
    }
    let start_request = pogootRequest { request: requestType::StartGame, data: Data::StartGameData };
    assert!(is_start_request(&start_request));
    let next_request = pogootRequest { request: requestType::NextQuestion, data: Data::NextGameData };
    assert!(is_next_request(&next_request));
    assert!(!is_start_request(&next_request));
    let verify_request = pogootRequest { request: requestType::VerifyToken, data: Data::VerifyToken("token".to_string()) };
    assert_eq!(util::unpack_token_verify(verify_request).ok(), Some("token".to_string()));
    let login_request = pogootRequest { request: requestType::Temp, data: Data::TempData("Poggers".to_string()) };
    assert!(util::verify_data_is_temp(&login_request.data));
    match util::unpack_login_data(login_request.data) {
        Ok((u, p)) => {
            assert_eq!(u, "Poggers");
            assert_eq!(p, "");
        },
        Err(_) => panic!("temporary data unpacks"),
    }
}

#[test]
fn test_sort_player_list() {
    let mut playerlist = vec![
        ("tokener".to_string(), "poggers".to_string(), 800),
        ("tokener2".to_string(), "poggers2".to_string(), 900),
        ("tokener3".to_string(), "poggers3".to_string(), 700),
    ];
    util::sort_player_list(&mut playerlist);
    assert_eq!(
        playerlist,
        vec![
            ("tokener2".to_string(), "poggers2".to_string(), 900),
            ("tokener".to_string(), "poggers".to_string(), 800),
            ("tokener3".to_string(), "poggers3".to_string(), 700),
        ]
    );
}

#[test]
fn sort_is_stable() {
    let mut list = vec![
        ("a".to_string(), "a".to_string(), 5),
        ("b".to_string(), "b".to_string(), 7),
        ("c".to_string(), "c".to_string(), 5),
    ];
    util::sort_player_list(&mut list);
    let names: Vec<&str> = list.iter().map(|e| e.1.as_str()).collect();
    assert_eq!(names, vec!["b", "a", "c"]);
}

#[test]
fn jsonify() {
    let login_json = FromClientRequest::Login("GGs".to_string(), "Poggins".to_string(), "".to_string());
    match login_json.to_regular_request("10.0.0.1".to_string()) {
        LoginRequest::Login(u, p, ip) => {
            assert_eq!(u, "GGs");
            assert_eq!(p, "Poggins");
            assert_eq!(ip, "10.0.0.1");
        },
        _ => panic!("a login stays a login"),
    }
}

#[test]
fn short_ips_keep_the_request_ip() {
    let verify = FromClientRequest::VerifySessionToken("user".to_string(), "tok".to_string(), "1.2.3.4".to_string());
    match verify.to_regular_request("x".to_string()) {
        LoginRequest::VerifySessionToken(t, u, ip) => {
            assert_eq!(t, "tok");
            assert_eq!(u, "user");
            assert_eq!(ip, "1.2.3.4");
        },
        _ => panic!(),
    }
    match FromClientRequest::Register("u".to_string(), "p".to_string(), "old".to_string()).with_ip("new".to_string()) {
        FromClientRequest::Register(u, p, ip) => {
            assert_eq!((u.as_str(), p.as_str(), ip.as_str()), ("u", "p", "new"));
        },
        _ => panic!(),
    }
}

#[test]
fn standard_error_is_json() {
    assert_eq!(util::standard_error("oops \"x\""), "{\"response\":\"errorResponse\",\"data\":{\"StandardErrorData\":\"oops \\\"x\\\"\"}}");
}

#[test]
fn messages_become_requests() {
    let req = pogootRequest { request: requestType::StartGame, data: Data::StartGameData };
    assert!(util::parse_msg_to_pogoot(Incoming::Request(req)).is_ok());
    match util::parse_msg_to_pogoot(Incoming::NotText) {
        Err(e) => assert!(matches!(e.data, Data::StandardErrorData(ref m) if m == "Message not text")),
        Ok(_) => panic!(),
    }
    match util::parse_msg_to_pogoot(Incoming::Unreadable) {
        Err(e) => assert!(matches!(e.data, Data::StandardErrorData(ref m) if m == "Parse to request failed")),
        Ok(_) => panic!(),
    }
}

#[test]
fn relevant_data_reports_the_gap() {
    let mut list = vec![
        ("t1".to_string(), "ann".to_string(), 300),
        ("t2".to_string(), "bob".to_string(), 500),
    ];
    let r = util::get_relevant_data(&mut list, "ann", "t1");
    match r.data {
        Data::gameUpdateData(points, ahead, gap) => {
            assert_eq!(points, 300);
            assert_eq!(ahead, "bob");
            assert_eq!(gap, 200);
        },
        _ => panic!(),
    }
    let r = util::get_relevant_data(&mut list, "zed", "t9");
    assert!(matches!(r.data, Data::StandardErrorData(ref m) if m == "Player Not Found In Player List"));
}

#[test]
fn game_session_round() {
    let questions = questionList {
        questions: vec![Question { question: "q".to_string(), answers: vec![(false, "a".to_string()), (true, "b".to_string())] }],
    };
    let game = pogootGame::build_game(questions);
    assert_eq!(game.game_id.len(), 20);
    let mut session = GameSession::new(game);
    assert!(!session.start(GameCommand::RemovePlayer("x".to_string(), "y".to_string())));
    assert!(session.start(GameCommand::Start));
    let update = session.question_update();
    assert!(matches!(update.data, gameUpdateHelper::newQuestion(ref q, 0) if q.answers == vec!["a".to_string(), "b".to_string()]));
    session.question_sent(Some(3));
    assert!(matches!(session.phase, GamePhase::Asking));
    let award = |receivers: usize, correct: usize| receivers * 100 - correct;
    let right = pogootRequest { request: requestType::InternalAnswer, data: Data::InternalAnswerData("ann".to_string(), "t1".to_string(), 0, 1) };
    let receipt = session.record_answer(right, &award);
    assert!(receipt.counted);
    assert_eq!(receipt.awarded, 299);
    let wrong = pogootRequest { request: requestType::InternalAnswer, data: Data::InternalAnswerData("bob".to_string(), "t2".to_string(), 0, 0) };
    let receipt = session.record_answer(wrong, &award);
    assert_eq!(receipt.awarded, 0);
    assert!(receipt.closes_window);
    let board = session.close_question();
    match board.data {
        gameUpdateHelper::playerListUpdate(list) => {
            assert_eq!(list, vec![("t1".to_string(), "ann".to_string(), 299), ("t2".to_string(), "bob".to_string(), 0)]);
        },
        _ => panic!(),
    }
    assert!(!session.awaits_next());
    session.advance();
    assert!(session.is_finished());
}

#[test]
fn https_redirect_host() {
    use_https_host();
}

fn use_https_host() {
    let ports = pogoot::sessions::Ports { http: 80, https: 443 };
    assert_eq!(pogoot::sessions::https_host("example.com:80", ports), "example.com:443");
    for host in ["example.com", "a80b80", "8080:80", "", "808"] {
        assert_eq!(pogoot::sessions::https_host(host, ports), host.replace("80", "443"), "host {:?}", host);
    }
    let same = pogoot::sessions::Ports { http: 8, https: 8 };
    assert_eq!(pogoot::sessions::https_host("x8y88", same), "x8y88");
    let wide = pogoot::sessions::Ports { http: 65535, https: 0 };
    assert_eq!(pogoot::sessions::https_host("h:65535", wide), "h:0");
}
