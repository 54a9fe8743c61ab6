use pogoot::accounts::{registration_after_store, UserManager};
use pogoot::game::{commander_step, CommanderAction, CommanderEvent, GameCommand};
use pogoot::ids::free_text;
use pogoot::notecards::{store_plan, Notecard, NotecardData};
use pogoot::protocol::{censoredQuestion, gameUpdateHelper, pogootRequest, requestType, responseType, Data, GameUpdate};
use pogoot::records::{hash_new_password, fetch_note_card, note_card_row, notecard_permissions_text, user_info_row, DbValue, User};
use pogoot::sessions::LoginSystem;
use pogoot::storage::{OptimalDataStorage, SessionTokenStorage};
use pogoot::token_storage::TokenStorage;
use pogoot::util::Incoming;
use std::time::Duration;

fn url_safe(c: char) -> bool {
    c.is_ascii_alphanumeric() || c == '_' || c == '-'
}

fn error_text(a: &CommanderAction) -> Option<String> {
    match a {
        CommanderAction::Reply(r) | CommanderAction::ReplyAndStop(r) => match (&r.response, &r.data) {
            (responseType::errorResponse, Data::StandardErrorData(m)) => Some(m.clone()),
            _ => None,
        },
        _ => None,
    }
}

#[test]
fn stored_note_card_comes_back_as_raw_json() {
    let row = note_card_row(
        "ann".to_string(),
        "id-1".to_string(),
        "Spanish".to_string(),
        "{\"owner\":\"ann\"}".to_string(),
        "[{\"front\":\"hola\"}]".to_string(),
    );
    assert_eq!(row.len(), 6);
    assert!(matches!(row[5], DbValue::Integer(1)));
    let rows = vec![row];
    assert_eq!(fetch_note_card(&rows).ok(), Some("[{\"front\":\"hola\"}]".to_string()));
    assert_eq!(notecard_permissions_text(&rows).ok(), Some("{\"owner\":\"ann\"}".to_string()));
    assert!(fetch_note_card(&Vec::new()).is_err());
}

#[test]
fn registration_stores_only_a_hash() {
    let row = user_info_row("ann@b.co", "hunter22").ok().expect("hashing succeeds");
    assert_eq!(row.len(), 4);
    assert!(matches!(&row[0], DbValue::Text(t) if t == "ann@b.co"));
    assert!(matches!(&row[1], DbValue::Text(t) if t == "ann@b.co"));
    assert!(matches!(&row[2], DbValue::Text(h) if h != "hunter22" && h.starts_with("$argon2id$v=19$")));
    assert!(matches!(&row[3], DbValue::Text(t) if t.is_empty()));
}

#[test]
fn failed_store_is_reported() {
    assert!(registration_after_store(&Ok(())).is_none());
    let reply = registration_after_store(&Err(())).expect("a failure");
    assert!(!reply.success);
    assert_eq!(reply.mystery, "Database Store Failed");
}

#[test]
fn scan_finds_the_first_free_text() {
    let alphabet = vec!['a', 'b'];
    let taken = vec!["aa".to_string(), "ab".to_string()];
    assert_eq!(free_text(&taken, &alphabet, 2), Some("ba".to_string()));
    let all = vec!["aa".to_string(), "ab".to_string(), "ba".to_string(), "bb".to_string()];
    assert_eq!(free_text(&all, &alphabet, 2), None);
    assert_eq!(free_text(&Vec::new(), &alphabet, 3), Some("aaa".to_string()));
}

#[test]
fn handed_out_tokens_have_twenty_url_safe_characters() {
    let mut store = TokenStorage::new();
    let mut seen: Vec<String> = Vec::new();
    for _ in 0..250 {
        let t = store.add_and_get_new_token();
        assert_eq!(t.chars().count(), 20);
        assert!(t.chars().all(url_safe));
        assert!(!seen.contains(&t));
        seen.push(t);
    }
}

#[test]
fn session_tokens_start_with_the_location_code() {
    let mut store = SessionTokenStorage::new("eu1".to_string());
    let t = store.get_new_session_token(12);
    assert_eq!(t.chars().count(), 15);
    assert!(t.starts_with("eu1"));
    assert!(t[3..].chars().all(url_safe));
    let u = store.get_new_session_token(12);
    assert_ne!(t, u);
}

#[test]
fn login_system_tokens_have_thirty_url_safe_characters() {
    let mut system = LoginSystem::new();
    let user = User::new("ann".to_string(), "hash".to_string(), "1.1.1.1".to_string());
    let t = system.generate_new_token(user, 0);
    assert_eq!(t.chars().count(), 30);
    assert!(t.chars().all(url_safe));
}

#[test]
fn account_tokens_are_version_four_uuids() {
    let mut manager = UserManager::new();
    let reply = manager.complete_registration("ann@b.co".to_string(), "ann".to_string(), 0);
    assert!(reply.success);
    let chars: Vec<char> = reply.mystery.chars().collect();
    assert_eq!(chars.len(), 36);
    assert_eq!(chars[14], '4');
    assert!(matches!(chars[19], '8' | '9' | 'a' | 'b'));
}

#[test]
fn text_keyed_store_finds_and_removes() {
    let mut s: OptimalDataStorage<String, u32> = OptimalDataStorage::new(2, 10);
    s.push(7, "a".to_string());
    s.push(9, "b".to_string());
    assert_eq!(s.remove("a".to_string()), Some(7));
    assert_eq!(s.get("a".to_string()), None);
    assert_eq!(s.get("b".to_string()), Some(&9));
    assert_eq!(s.remove("a".to_string()), None);
    let mut t: OptimalDataStorage<String, u32> = OptimalDataStorage::new(0, 0);
    t.push(1, "x".to_string());
    t.push(2, "y".to_string());
    assert_eq!(t.get("y".to_string()), Some(&2));
    assert_eq!(t.get("x".to_string()), Some(&1));
    assert_eq!(t.get("z".to_string()), None);
}

#[test]
fn commander_starts_then_asks_for_next_questions() {
    let mut started = false;
    let other = pogootRequest { request: requestType::NextQuestion, data: Data::StartGameData };
    let a = commander_step(&mut started, CommanderEvent::Message(Incoming::Request(other)));
    assert_eq!(error_text(&a), Some("Not start game request".to_string()));
    assert!(!started);
    let join = GameUpdate {
        update_version: 0,
        data: gameUpdateHelper::playerListUpdate(vec![("tok".to_string(), "ann".to_string(), 0)]),
    };
    match commander_step(&mut started, CommanderEvent::Update(Some(join))) {
        CommanderAction::Reply(r) => assert!(matches!(r.data, Data::PlayerJoinUpdateData(ref n) if n == "tok")),
        _ => panic!("a join is announced"),
    }
    let start = pogootRequest { request: requestType::StartGame, data: Data::StartGameData };
    assert!(matches!(
        commander_step(&mut started, CommanderEvent::Message(Incoming::Request(start))),
        CommanderAction::Send(GameCommand::Start)
    ));
    assert!(started);
    let next = pogootRequest { request: requestType::NextQuestion, data: Data::StartGameData };
    assert!(matches!(
        commander_step(&mut started, CommanderEvent::Message(Incoming::Request(next))),
        CommanderAction::Send(GameCommand::Next)
    ));
    assert_eq!(
        error_text(&commander_step(&mut started, CommanderEvent::Message(Incoming::Unreadable))),
        Some("Not a request".to_string())
    );
    let question = GameUpdate {
        update_version: 1,
        data: gameUpdateHelper::newQuestion(censoredQuestion { question: "q".to_string(), answers: vec!["x".to_string()] }, 0),
    };
    match commander_step(&mut started, CommanderEvent::Update(Some(question))) {
        CommanderAction::Reply(r) => assert!(matches!(r.data, Data::QuestionData(ref q) if q.question == "q")),
        _ => panic!("the question is relayed"),
    }
    match commander_step(&mut started, CommanderEvent::PlayerCount(Some((3, Duration::from_secs(5))))) {
        CommanderAction::Reply(r) => assert!(matches!(r.data, Data::GamePlayerTimeUpdate(3, d) if d == Duration::from_secs(5))),
        _ => panic!("the count is relayed"),
    }
    let fail = commander_step(&mut started, CommanderEvent::Update(None));
    assert!(matches!(fail, CommanderAction::ReplyAndStop(_)));
    assert_eq!(error_text(&fail), Some("Broadcast Error".to_string()));
    assert!(matches!(commander_step(&mut started, CommanderEvent::Closed), CommanderAction::Stop));
}

#[test]
fn commander_refused_start_ends_service() {
    let mut started = false;
    let a = commander_step(&mut started, CommanderEvent::CommandRefused(GameCommand::Start));
    assert!(matches!(a, CommanderAction::ReplyAndStop(_)));
    assert_eq!(error_text(&a), Some("Commander Failed to Start Game".to_string()));
    let mut later = true;
    let b = commander_step(&mut later, CommanderEvent::CommandRefused(GameCommand::Next));
    assert_eq!(error_text(&b), Some("Commander is err".to_string()));
    let mut lobby = false;
    assert!(matches!(commander_step(&mut lobby, CommanderEvent::Message(Incoming::NotText)), CommanderAction::Stop));
}

fn set_data() -> NotecardData {
    NotecardData {
        auth: "tok".to_string(),
        title: "Spanish".to_string(),
        school: "S".to_string(),
        tags: "lang".to_string(),
        desc: "words".to_string(),
        username: "ann".to_string(),
    }
}

#[test]
fn store_requests_need_cards() {
    let cards = vec![Notecard { front: vec!["hola".to_string()], back: vec!["hello".to_string()] }];
    match store_plan(set_data(), Some(cards)) {
        Ok((stored, data)) => {
            assert_eq!(stored.len(), 1);
            assert_eq!(stored[0].front, vec!["hola".to_string()]);
            assert_eq!(stored[0].back, vec!["hello".to_string()]);
            assert_eq!(data.title, "Spanish");
        },
        Err(_) => panic!("cards are stored"),
    }
    match store_plan(set_data(), None) {
        Err(reply) => {
            assert!(!reply.success);
            assert_eq!(reply.id, "Upload Failed, No Notecards Provided");
        },
        Ok(_) => panic!("no cards, no upload"),
    }
}

#[test]
fn login_finds_the_user_by_token_username_and_email() {
    let mut manager = UserManager::new();
    let hash = hash_new_password("hunter22").expect("hashing succeeds");
    let lookup = Ok(Some((hash.clone(), "ann".to_string(), "ann@b.co".to_string())));
    let reply = manager.login(&"ann@b.co".to_string(), lookup, "hunter22", 0);
    assert!(reply.success);
    let chars: Vec<char> = reply.mystery.chars().collect();
    assert_eq!(chars.len(), 36);
    assert_eq!(chars[14], '4');
    let by_token = manager.map.get_with_token(&reply.mystery);
    assert!(by_token.is_some());
    assert_eq!(manager.map.get_with_username(&"ann".to_string()), by_token);
    assert_eq!(manager.map.get_with_email(&"ann@b.co".to_string()), by_token);
    let user = &manager.users[by_token.unwrap()];
    assert_eq!(user.username, "ann");
    assert_eq!(user.auth_tokens.last().map(|t| t.body.clone()), Some(reply.mystery.clone()));
    let wrong = manager.login(&"ann".to_string(), Ok(Some((hash, "ann".to_string(), "ann@b.co".to_string()))), "nope", 0);
    assert!(!wrong.success);
    assert_eq!(wrong.mystery, "Wrong Password");
    let unknown = manager.login(&"bob".to_string(), Ok(None), "x", 0);
    assert_eq!(unknown.mystery, "User Not Found");
    let failed = manager.login(&"bob".to_string(), Err(()), "x", 0);
    assert_eq!(failed.mystery, "Database Query Failed");
}
