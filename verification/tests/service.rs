//! Tests of the session store and the request-level operations.

use session_service::codec::SessionId;
use session_service::errors::SessionError;
use session_service::service::authenticate_request;
use session_service::service::new_session_request;
use session_service::service::session_state_request;
use session_service::store::AppState;

/// A syntactically valid identifier that was never issued by `state`.
const NEVER_ISSUED: &str = "AAAAAAAAAAAAAAAAAAAAAA";

fn create(state: &mut AppState) -> String {
    state
        .new_session()
        .expect("the entropy source is available")
        .encode()
}

#[test]
fn create_then_read() {
    let mut state = AppState::new();
    let sid = create(&mut state);
    assert_eq!(sid.len(), 22);
    let sess = state
        .session_state(sid.as_str())
        .expect("a created session can be read at once");
    assert_eq!(sess.user, None);
    assert_eq!(sess.description.as_str(), "Some session...");
    assert!(!sess.authenticated);
}

#[test]
fn created_identifiers_differ() {
    let mut state = AppState::new();
    let first = create(&mut state);
    let second = create(&mut state);
    assert_ne!(first, second);
    // both remain readable
    assert!(state.session_state(first.as_str()).is_ok());
    assert!(state.session_state(second.as_str()).is_ok());
}

#[test]
fn authenticate_unknown_identifier() {
    let mut state = AppState::new();
    let _sid = create(&mut state);
    let r = state.authenticate(NEVER_ISSUED, String::from("alice"));
    assert_eq!(r, Err(SessionError::NotFound));
}

#[test]
fn authenticate_succeeds_exactly_once() {
    let mut state = AppState::new();
    let sid = create(&mut state);

    let first = state.authenticate(sid.as_str(), String::from("alice"));
    assert_eq!(first, Ok(()));
    let sess = state.session_state(sid.as_str()).unwrap();
    assert!(sess.authenticated);
    assert_eq!(sess.user.as_deref(), Some("alice"));

    let second = state.authenticate(sid.as_str(), String::from("mallory"));
    assert_eq!(second, Err(SessionError::AlreadyAuthenticated));
    let sess = state.session_state(sid.as_str()).unwrap();
    assert!(sess.authenticated);
    assert_eq!(sess.user.as_deref(), Some("alice"), "a rejected call must not change the user");
}

#[test]
fn reading_state_never_mutates() {
    let mut state = AppState::new();
    let sid = create(&mut state);
    for _ in 0..10 {
        let sess = state.session_state(sid.as_str()).unwrap();
        assert_eq!(sess.user, None);
        assert_eq!(sess.description.as_str(), "Some session...");
        assert!(!sess.authenticated);
    }
    state.authenticate(sid.as_str(), String::from("bob")).unwrap();
    for _ in 0..10 {
        let sess = state.session_state(sid.as_str()).unwrap();
        assert_eq!(sess.user.as_deref(), Some("bob"));
        assert!(sess.authenticated);
    }
}

#[test]
fn malformed_identifiers_rejected_alike() {
    let mut state = AppState::new();
    let good = create(&mut state);
    let malformed = [
        "",
        "not base64!!",
        "AAAA",
        "AAAAAAAAAAAAAAAAAAAAAAA",
        "AAAAAAAAAAAAAAAAAAAAA=",
    ];
    for s in malformed {
        let (status, body) = authenticate_request(&mut state, s, String::from("alice"), "pw");
        assert_eq!(status, 400);
        assert_eq!(body.as_str(), "{\"error\":\"malformed session id\"}");
        let err = session_state_request(&state, s).expect_err("a malformed id cannot be read");
        assert_eq!(err.0, 400);
        assert_eq!(err.1.as_str(), "{\"error\":\"malformed session id\"}");
    }
    // the store was never touched: the good session still reads as created
    let sess = state.session_state(good.as_str()).unwrap();
    assert!(!sess.authenticated);
    assert_eq!(sess.user, None);
}

#[test]
fn authenticate_request_bodies() {
    let mut state = AppState::new();
    let sid = create(&mut state);

    let (status, body) = authenticate_request(&mut state, NEVER_ISSUED, String::from("a"), "pw");
    assert_eq!(status, 400);
    assert_eq!(
        body.as_str(),
        "{\"error\":\"session AAAAAAAAAAAAAAAAAAAAAA doesn't exist\"}"
    );

    let (status, body) = authenticate_request(&mut state, sid.as_str(), String::from("a"), "pw");
    assert_eq!(status, 200);
    assert_eq!(
        body,
        format!("{{\"success\":\"session {} authenticated succesfully\"}}", sid)
    );

    let (status, body) = authenticate_request(&mut state, sid.as_str(), String::from("b"), "pw");
    assert_eq!(status, 400);
    assert_eq!(
        body,
        format!("{{\"error\":\"session {} already authenticated\"}}", sid)
    );
}

#[test]
fn new_session_request_announces_the_identifier() {
    let mut state = AppState::new();
    let (status, body) = new_session_request(&mut state);
    assert_eq!(status, 200);
    assert!(body.starts_with("{\"id_base64\":\""));
    assert!(body.ends_with("\"}"));
    let encoded = &body["{\"id_base64\":\"".len()..body.len() - 2];
    assert_eq!(encoded.len(), 22);
    let id = SessionId::decode(encoded).expect("the announced identifier is well formed");
    assert_eq!(id.encode().as_str(), encoded);
    // and the announced session exists, fresh
    let sess = state.session_state(encoded).unwrap();
    assert!(!sess.authenticated);
    assert_eq!(sess.user, None);
}

#[test]
fn session_state_request_errors() {
    let mut state = AppState::new();
    let _sid = create(&mut state);
    let err = session_state_request(&state, NEVER_ISSUED).expect_err("never issued");
    assert_eq!(err.0, 400);
    assert_eq!(
        err.1.as_str(),
        "{\"error\":\"session AAAAAAAAAAAAAAAAAAAAAA doesn't exist\"}"
    );
}
