use pogoot::compression::{random_notecards, SIDE_LEN};
use pogoot::dashboard::{get_card_recommendations, get_recent_cards};
use pogoot::ids::{random_digits, random_token};
use pogoot::notecards::{
    credentials_outcome, library_reply, missing_cards_reply, modify_reply, remap_all, unconnected_modify_reply, upload_reply,
    Notecard, NotecardData, ReMapNotecard,
};
use pogoot::payload::login::{LoginRequest, LoginRequestPayload};
use pogoot::payload::{PayloadData, Request};
use pogoot::records::{compress_notecards, note_card_access, BasicPermissionManager, NoteCardAccess, User};
use pogoot::storage::{OptimalDataStorage, SessionTokenStorage};
use pogoot::token_storage::TokenStorage;
use pogoot::viewport::{frame_recovery, resized, window_step, FrameError, SurfaceSize, WindowAction, WindowInput};

#[test]
fn data_storage_reads_back() {
    let mut store: OptimalDataStorage<String, u32> = OptimalDataStorage::new(5, 3);
    store.push(1, "a".to_string());
    store.push(2, "b".to_string());
    store.push(3, "a".to_string());
    assert_eq!(store.get("a".to_string()), Some(&1));
    assert_eq!(store.get("b".to_string()), Some(&2));
    assert_eq!(store.get("c".to_string()), None);
    assert_eq!(store.remove("a".to_string()), Some(3));
    assert_eq!(store.get("a".to_string()), None);
    assert_eq!(store.remove("a".to_string()), None);
    for i in 0..30 {
        store.push(i, format!("k{}", i));
    }
    assert_eq!(store.get("k29".to_string()), Some(&29));
}

#[test]
fn session_tokens_expire_after_six_hours() {
    let mut tokens = SessionTokenStorage::new("US01".to_string());
    let t = tokens.get_new_session_token(25);
    assert!(t.starts_with("US01"));
    assert_eq!(t.len(), 29);
    let u = tokens.get_new_session_token(25);
    assert_ne!(t, u);
    assert!(tokens.renew_token_at(&t, 0));
    assert!(tokens.renew_token_at(&u, 10));
    tokens.expire_tokens_at(21600000);
    assert!(tokens.renew_token_at(&t, 0));
    tokens.expire_tokens_at(21600001);
    assert!(!tokens.renew_token_at(&t, 0));
    assert!(tokens.renew_token_at(&u, 10));
    assert!(!tokens.renew_token("unknown"));
}

#[test]
fn login_tokens_are_never_handed_out_twice() {
    let mut store = TokenStorage::new();
    let mut seen = std::collections::HashSet::new();
    for _ in 0..450 {
        let t = store.add_and_get_new_token();
        assert!(seen.insert(t.clone()));
        assert!(store.exists_token(t));
    }
    assert!(!store.exists_token("not a token".to_string()));
}

#[test]
fn permissions_follow_the_lists() {
    let mut open = BasicPermissionManager::new();
    assert!(open.has_permission(&"anyone".to_string()));
    let mut owned = BasicPermissionManager::new_with_owner("ann");
    assert!(owned.has_permission(&"ann".to_string()));
    assert!(owned.has_permission(&"bob".to_string()));
    let mut closed = BasicPermissionManager::from_parts(
        vec!["ann".to_string()],
        Some(vec!["ed".to_string()]),
        Some(vec!["vi".to_string()]),
        vec!["bob".to_string()],
    );
    assert!(closed.has_permission(&"ann".to_string()));
    assert!(closed.has_permission(&"ed".to_string()));
    assert!(closed.has_permission(&"vi".to_string()));
    assert!(!closed.has_permission(&"bob".to_string()));
    assert!(!closed.has_permission(&"eve".to_string()));
    let mut blocked = BasicPermissionManager::from_parts(vec![], Some(vec![]), None, vec!["bob".to_string()]);
    assert!(!blocked.has_permission(&"bob".to_string()));
    assert!(blocked.has_permission(&"eve".to_string()));
    assert!(matches!(note_card_access(None, &"ann".to_string()), NoteCardAccess::ServerError));
    assert!(matches!(note_card_access(Some(blocked), &"bob".to_string()), NoteCardAccess::Forbidden));
    assert!(matches!(note_card_access(Some(closed), &"vi".to_string()), NoteCardAccess::Allowed));
}

#[test]
fn deleted_users_keep_their_data() {
    let user = User::new("ann".to_string(), "hash".to_string(), "1.1.1.1".to_string());
    assert_eq!(user.ips, vec!["1.1.1.1".to_string()]);
    assert!(!user.unique_id.is_empty());
    let gone = user.mark_deleted();
    assert!(gone.deleted);
    assert_eq!(gone.username, "ann");
}

#[test]
fn notecards_compress_and_decompress() {
    let json = "[{\"front\":[\"a\"],\"back\":[\"b\"]}]";
    let packed = compress_notecards(json).expect("compression works");
    let unpacked = zstd::stream::decode_all(packed.as_slice()).unwrap();
    assert_eq!(unpacked, json.as_bytes());
}

#[test]
fn notecard_replies() {
    let r = upload_reply(Ok("id1".to_string()));
    assert!(r.success);
    assert_eq!(r.id, "id1");
    let r = upload_reply(Err(()));
    assert!(!r.success);
    assert_eq!(r.id, "Upload failed");
    assert_eq!(missing_cards_reply().id, "Upload Failed, No Notecards Provided");
    assert_eq!(modify_reply(Ok(()), "cf".to_string()).id, "cf");
    assert_eq!(modify_reply(Err(()), "cf".to_string()).id, "Modify failed");
    assert_eq!(unconnected_modify_reply().id, "");
    assert_eq!(library_reply::<u8>(Ok(vec![1, 2])).library, vec![1, 2]);
    assert!(!library_reply::<u8>(Err(())).success);
    assert_eq!(credentials_outcome(Some(true)), Ok(true));
    assert_eq!(credentials_outcome(Some(false)), Err(()));
    assert_eq!(credentials_outcome(None), Err(()));
    let data = NotecardData {
        auth: "secret".to_string(),
        title: "t".to_string(),
        school: "s".to_string(),
        tags: "g".to_string(),
        desc: "d".to_string(),
        username: "ann".to_string(),
    }
    .sanitize();
    assert_eq!((data.auth.as_str(), data.username.as_str(), data.title.as_str()), ("", "", "t"));
    let cards = remap_all(vec![Notecard { front: vec!["f".to_string()], back: vec!["b".to_string()] }]);
    assert_eq!(cards.len(), 1);
    assert_eq!(cards[0].front, vec!["f".to_string()]);
    let one = ReMapNotecard::remap(Notecard { front: vec![], back: vec!["x".to_string()] });
    assert_eq!(one.back, vec!["x".to_string()]);
}

#[test]
fn payloads_are_taken_once() {
    let mut req = LoginRequest {
        payload: LoginRequestPayload { payload: PayloadData::LoginRequest("u".to_string(), "p".to_string(), "ip".to_string()) },
    };
    let first = req.get_payload();
    assert_eq!(first.grab_login_request_data(), Ok(("u".to_string(), "p".to_string(), "ip".to_string())));
    assert!(req.get_payload().grab_login_request_data().is_err());
}

#[test]
fn identifiers() {
    let t = random_token(21);
    assert_eq!(t.len(), 21);
    assert!(t.chars().all(|c| c.is_ascii_alphanumeric() || c == '_' || c == '-'));
    let d = random_digits(6);
    assert!(d.len() == 6 && d.chars().all(|c| c.is_ascii_digit()));
    let id = pogoot::records::generate_random_id();
    assert_eq!(id.len(), 38);
    assert!(id.starts_with('"') && id.ends_with('"'));
    assert_eq!(id.as_bytes()[15], b'7');
}

#[test]
fn sample_cards() {
    let cards = random_notecards(50);
    assert_eq!(cards.len(), 50);
    assert!(cards.iter().all(|c| c.front.len() == SIDE_LEN && c.back.len() == SIDE_LEN));
}

#[test]
fn dashboard_placeholders() {
    let cards = get_card_recommendations("userId".to_string(), 20);
    assert_eq!(cards.len(), 20);
    assert!(cards.iter().all(|c| c.title == "Title" && c.description == "Description" && c.creator == "Creator" && c.url == "url"));
    assert_eq!(get_recent_cards("userId".to_string(), 0).len(), 0);
}

#[test]
fn window_decisions() {
    let size = SurfaceSize { width: 800, height: 600 };
    let r = resized(size, SurfaceSize { width: 0, height: 10 });
    assert_eq!((r.width, r.height), (800, 600));
    let r = resized(size, SurfaceSize { width: 1024, height: 768 });
    assert_eq!((r.width, r.height), (1024, 768));
    assert!(matches!(window_step(false, size, WindowInput::CloseRequested), WindowAction::Ignore));
    assert!(matches!(window_step(true, size, WindowInput::EscapePressed), WindowAction::Exit));
    assert!(matches!(window_step(true, size, WindowInput::Resized(SurfaceSize { width: 5, height: 5 })), WindowAction::Configure(s) if s.width == 5));
    assert!(matches!(window_step(true, size, WindowInput::RedrawRequested), WindowAction::Draw));
    assert!(matches!(frame_recovery(size, FrameError::Lost), WindowAction::Configure(s) if s.width == 800));
    assert!(matches!(frame_recovery(size, FrameError::OutOfMemory), WindowAction::Exit));
    assert!(matches!(frame_recovery(size, FrameError::Timeout), WindowAction::Warn));
}

#[test]
fn database_credentials_come_from_the_secrets() {
    let s = |t: &str| t.to_string();
    let secrets = pogoot::records::AwsSecrets {
        turso_url: s("libsql://db"),
        auth_token: s("tok"),
        zone_id: s("z"),
        auth_key: s("k"),
        auth_email: s("e"),
        cloudflare_cert: s("c"),
        cloudflare_key: s("ck"),
        r2accountid: s("a"),
        r2accesskeyid: s("ai"),
        r2secretaccesskey: s("as"),
        turnstileSecret: s("t"),
    };
    let db = pogoot::records::DBSecrets::try_to_get_secrets(secrets);
    assert_eq!((db.turso_url.as_str(), db.auth_token.as_str()), ("libsql://db", "tok"));
}
