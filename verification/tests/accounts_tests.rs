use pogoot::accounts::{login_decision, registration_after_lookup, registration_precheck, TextMap, UserManageMap, UserManager};
use pogoot::login::{login_reply, login_route, IpList, LoginRoute, loginData, loginRequestTypes};
use pogoot::protocol::{pogootRequest, requestType, Data};
use pogoot::records::{hash_new_password, register_user, verify_password, CoreDatatypeError, DbValue};
use pogoot::sessions::{upload_verdict, LoginResponse, LoginSystem};
use pogoot::util::util;

#[test]
fn registration_checks_in_order() {
    assert_eq!(registration_precheck("bad", "password1", false).map(|r| r.mystery), Some("Invalid Email".to_string()));
    assert_eq!(registration_precheck("a@b.c", "longenough", false).map(|r| r.mystery), Some("Invalid Email".to_string()));
    assert_eq!(registration_precheck("ann@b.co", "short", false).map(|r| r.mystery), Some("Invalid Password".to_string()));
    assert_eq!(registration_precheck("ann@b.co", "longenough", true).map(|r| r.mystery), Some("User Logged In Already".to_string()));
    assert!(registration_precheck("ann@b.co", "longenough", false).is_none());
    assert!(registration_after_lookup(&Ok(None)).is_none());
    assert_eq!(registration_after_lookup(&Ok(Some("x".to_string()))).map(|r| r.mystery), Some("User Already Exists".to_string()));
    assert_eq!(registration_after_lookup(&Err(())).map(|r| r.mystery), Some("Database Query Failed".to_string()));
}

#[test]
fn text_map_reads_what_was_written() {
    let mut m = TextMap::new();
    m.insert("a".to_string(), 1);
    m.insert("b".to_string(), 2);
    m.insert("a".to_string(), 3);
    assert_eq!(m.get("a"), Some(3));
    assert_eq!(m.get("b"), Some(2));
    assert_eq!(m.remove("a"), Some(3));
    assert_eq!(m.get("a"), None);
    let fresh = m.fresh_key(8);
    assert_eq!(m.get(fresh.as_str()), None);
}

#[test]
fn user_map_finds_by_every_key() {
    let mut m = UserManageMap::new();
    m.insert("ann@b.co".to_string(), "tok".to_string(), "ann".to_string(), 0);
    assert_eq!(m.get_with_token(&"tok".to_string()), Some(0));
    assert_eq!(m.get_with_username(&"ann".to_string()), Some(0));
    assert_eq!(m.get_with_email(&"ann@b.co".to_string()), Some(0));
    assert_eq!(m.get_with_user_or_email(&"ann@b.co".to_string()), Some(0));
    assert_eq!(m.get_with_user_or_email(&"nobody".to_string()), None);
}

#[test]
fn registered_user_token_verifies() {
    let mut mgr = UserManager::new();
    let reply = mgr.complete_registration("ann@b.co".to_string(), "ann".to_string(), 0);
    assert!(reply.success);
    assert_eq!(reply.mystery.len(), 36);
    assert!(mgr.verify_token(&reply.mystery, &"ann".to_string()));
    assert!(mgr.verify_token(&reply.mystery, &"ann@b.co".to_string()));
    assert!(!mgr.verify_token(&reply.mystery, &"bob".to_string()));
    let again = mgr.complete_login(&"ann".to_string(), "ann".to_string(), "ann@b.co".to_string(), 5);
    assert!(mgr.verify_token(&again.mystery, &"ann".to_string()));
    assert_eq!(mgr.users.len(), 1);
}

#[test]
fn passwords_hash_and_verify() {
    let hash = hash_new_password("hunter22").expect("hashing works");
    let rows = vec![vec![DbValue::Text("ann".to_string()), DbValue::Text(hash.clone()), DbValue::Null, DbValue::Text("{\"u\":1}".to_string())]];
    match verify_password(&rows, "hunter22") {
        Ok((ok, record)) => {
            assert!(ok);
            assert_eq!(record, "{\"u\":1}");
        },
        Err(_) => panic!("the password is right"),
    }
    match verify_password(&rows, "wrong") {
        Ok((ok, _)) => assert!(!ok),
        Err(_) => panic!("a wrong password is no error"),
    }
    assert!(matches!(verify_password(&vec![], "x"), Err(CoreDatatypeError::UserDoesNotExist)));
    match login_decision(Ok(Some((hash.clone(), "ann".to_string(), "ann@b.co".to_string()))), "hunter22") {
        Ok((u, e)) => assert_eq!((u.as_str(), e.as_str()), ("ann", "ann@b.co")),
        Err(_) => panic!(),
    }
    assert!(matches!(login_decision(Ok(Some((hash, "ann".to_string(), "e".to_string()))), "nope"), Err(r) if r.mystery == "Wrong Password"));
    assert!(matches!(login_decision(Ok(Some(("garbage".to_string(), "a".to_string(), "e".to_string()))), "x"), Err(r) if r.mystery == "Internal Server Error"));
    assert!(matches!(login_decision(Ok(None), "x"), Err(r) if r.mystery == "User Not Found"));
}

#[test]
fn duplicate_usernames_are_refused() {
    assert!(matches!(register_user(1, "ann".to_string(), "pw", "ip".to_string()), Err(CoreDatatypeError::DuplicateUsername)));
}

#[test]
fn login_system_sessions() {
    let mut sys = LoginSystem::new();
    let user = match register_user(0, "ann".to_string(), "secret", "1.1.1.1".to_string()) {
        Ok(u) => u,
        Err(_) => panic!("registration works"),
    };
    let token = match sys.register_outcome(Ok(user), "2.2.2.2".to_string(), 1000) {
        LoginResponse::Success(t) => t,
        _ => panic!(),
    };
    assert_eq!(token.len(), 30);
    assert!(matches!(sys.verify_session_token(&token, &"ann".to_string(), &"2.2.2.2".to_string()), (Some(LoginResponse::Verified), false)));
    assert!(matches!(sys.verify_session_token(&token, &"ann".to_string(), &"9.9.9.9".to_string()), (None, false)));
    assert!(matches!(sys.verify_session_token(&token, &"bob".to_string(), &"9.9.9.9".to_string()), (Some(LoginResponse::Failed), false)));
    assert!(matches!(sys.verify_session_token(&"nope".to_string(), &"ann".to_string(), &"2.2.2.2".to_string()), (Some(LoginResponse::Failed), true)));
    sys.register_notecard_id("set1".to_string(), &token);
    assert_eq!(sys.get_user(&token).map(|u| u.uploaded_sets.clone()), Some(vec!["set1".to_string()]));
    // Not expired yet, then expired a day later.
    assert!(sys.cleanup_expired_tokens(1000).is_empty());
    assert_eq!(sys.cleanup_expired_tokens(1000 + 86400000 + 1), vec![0]);
    assert!(sys.get_user(&token).is_none());
}

#[test]
fn too_many_failures_lock_the_ip() {
    let mut sys = LoginSystem::new();
    let user = match register_user(0, "ann".to_string(), "secret", "1.1.1.1".to_string()) {
        Ok(u) => u,
        Err(_) => panic!(),
    };
    let token = match sys.register_outcome(Ok(user), "1.1.1.1".to_string(), 0) {
        LoginResponse::Success(t) => t,
        _ => panic!(),
    };
    for _ in 0..5 {
        let _ = sys.verify_session_token(&token, &"mallory".to_string(), &"6.6.6.6".to_string());
    }
    assert!(matches!(sys.verify_session_token(&token, &"ann".to_string(), &"6.6.6.6".to_string()), (Some(LoginResponse::Failed), true)));
}

#[test]
fn uploads_need_a_verified_token() {
    assert!(upload_verdict(LoginResponse::Verified).is_ok());
    assert!(matches!(upload_verdict(LoginResponse::Failed), Err(LoginResponse::Failed)));
}

#[test]
fn login_endpoint_routes() {
    let login = pogootRequest { request: requestType::Login, data: Data::LoginData("ann".to_string(), "pw".to_string()) };
    match login_route(login, "1.2.3.4".to_string()) {
        LoginRoute::Ask(req, failures) => {
            assert!(matches!(req.request_type, loginRequestTypes::Login));
            assert!(matches!(req.data, loginData::Login(ref u, ref p, ref ip) if u == "ann" && p == "pw" && ip == "1.2.3.4"));
            assert_eq!(failures.channel_lost, util::standard_error("Login channel died"));
            assert_eq!(login_reply(Some(Ok("tok".to_string())), failures), "tok");
        },
        _ => panic!(),
    }
    let register = pogootRequest { request: requestType::Register, data: Data::RegisterData("ann".to_string(), "pw".to_string()) };
    match login_route(register, "ip".to_string()) {
        LoginRoute::Ask(req, failures) => {
            assert!(matches!(req.request_type, loginRequestTypes::Register));
            assert!(matches!(req.data, loginData::Register(ref u, ref p, ref ip) if u == "ann" && p == "pw" && ip == "ip"));
            assert_eq!(failures.refused, util::standard_error("Callback receive failed"));
        },
        _ => panic!("register data is accepted"),
    }
    let register_with_login_data = pogootRequest { request: requestType::Register, data: Data::LoginData("ann".to_string(), "pw".to_string()) };
    match login_route(register_with_login_data, "ip".to_string()) {
        LoginRoute::Reply(t) => assert_eq!(t, util::standard_error("Data not correct for register")),
        _ => panic!("a registration needs register data"),
    }
    let temp = pogootRequest { request: requestType::Temp, data: Data::TempData("guest".to_string()) };
    match login_route(temp, "ip".to_string()) {
        LoginRoute::Ask(req, failures) => {
            assert!(matches!(req.data, loginData::Temp(ref u) if u == "guest"));
            assert_eq!(login_reply(None, failures), util::standard_error("Callback message not OK"));
        },
        _ => panic!(),
    }
    let other = pogootRequest { request: requestType::StartGame, data: Data::StartGameData };
    assert!(matches!(login_route(other, "ip".to_string()), LoginRoute::Reply(t) if t == util::standard_error("Not login request")));
}

#[test]
fn ip_list_adds_once() {
    let mut ips = IpList { ip_list: Vec::new() };
    assert!(!ips.exists_or_add("1.1.1.1".to_string()));
    assert!(ips.exists_or_add("1.1.1.1".to_string()));
    assert!(ips.ip_exists("1.1.1.1"));
    assert!(!ips.ip_exists("2.2.2.2"));
    assert_eq!(ips.ip_list.len(), 1);
}
