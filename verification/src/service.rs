//! The three operations as the service's endpoints see them.
//!
//! Each request-level function takes the store and the request's plain
//! values, performs the operation, and returns the status code and the
//! exact JSON body the service answers with.  Only the successful
//! state-read answer, whose body must quote an arbitrary client-supplied
//! user string, is left to the caller to serialize; every other body is
//! built — and specified character for character — here.

use vstd::prelude::*;

verus! {

use crate::codec::SessionId;
use crate::codec::encode16;
use crate::codec::is_encoded_id;
use crate::errors::SessionError;
use crate::store::AppState;
use crate::store::Session;
use crate::store::SessionView;
use crate::store::auth_next;
use crate::store::auth_result;
use crate::store::state_result;

/// The body answering a session identifier that did not decode.
pub open spec fn malformed_id_message() -> Seq<char> {
    "{\"error\":\"malformed session id\"}"@
}

/// The body answering an identifier that was never issued.
pub open spec fn not_found_message(sid: Seq<char>) -> Seq<char> {
    "{\"error\":\"session "@ + sid + " doesn't exist\"}"@
}

/// The body answering a second authentication of the same session.
pub open spec fn already_authenticated_message(sid: Seq<char>) -> Seq<char> {
    "{\"error\":\"session "@ + sid + " already authenticated\"}"@
}

/// The body answering a successful authentication (the misspelling is part
/// of the service's wire format).
pub open spec fn authenticated_message(sid: Seq<char>) -> Seq<char> {
    "{\"success\":\"session "@ + sid + " authenticated succesfully\"}"@
}

/// The body answering a failure of the random source.
pub open spec fn internal_error_message() -> Seq<char> {
    "{\"error\":\"internal server error\"}"@
}

/// The body announcing a newly created session's identifier.
pub open spec fn id_json_message(encoded: Seq<char>) -> Seq<char> {
    "{\"id_base64\":\""@ + encoded + "\"}"@
}

/// Builds `malformed_id_message`.
pub fn malformed_id_body() -> (r: String)
    ensures
        r@ == malformed_id_message(),
{
    String::from_str("{\"error\":\"malformed session id\"}")
}

/// Builds `not_found_message` around the offending identifier.
pub fn not_found_body(session_id: &str) -> (r: String)
    ensures
        r@ == not_found_message(session_id@),
{
    let mut out = String::from_str("{\"error\":\"session ");
    out.append(session_id);
    out.append(" doesn't exist\"}");
    out
}

/// Builds `already_authenticated_message` around the identifier.
pub fn already_authenticated_body(session_id: &str) -> (r: String)
    ensures
        r@ == already_authenticated_message(session_id@),
{
    let mut out = String::from_str("{\"error\":\"session ");
    out.append(session_id);
    out.append(" already authenticated\"}");
    out
}

/// Builds `authenticated_message` around the identifier.
pub fn authenticated_body(session_id: &str) -> (r: String)
    ensures
        r@ == authenticated_message(session_id@),
{
    let mut out = String::from_str("{\"success\":\"session ");
    out.append(session_id);
    out.append(" authenticated succesfully\"}");
    out
}

/// Builds `internal_error_message`.
pub fn internal_error_body() -> (r: String)
    ensures
        r@ == internal_error_message(),
{
    String::from_str("{\"error\":\"internal server error\"}")
}

/// Builds `id_json_message` around an encoded identifier.
pub fn id_json_body(encoded: &str) -> (r: String)
    ensures
        r@ == id_json_message(encoded@),
{
    let mut out = String::from_str("{\"id_base64\":\"");
    out.append(encoded);
    out.append("\"}");
    out
}

/// The status code the authenticate endpoint answers with.
pub open spec fn auth_status(m: Map<Seq<u8>, SessionView>, sid: Seq<char>) -> u16 {
    if auth_result(m, sid) is Ok {
        200u16
    } else {
        400u16
    }
}

/// The body the authenticate endpoint answers with.
pub open spec fn auth_message(m: Map<Seq<u8>, SessionView>, sid: Seq<char>) -> Seq<char> {
    match auth_result(m, sid) {
        Ok(_) => authenticated_message(sid),
        Err(SessionError::MalformedId) => malformed_id_message(),
        Err(SessionError::NotFound) => not_found_message(sid),
        Err(SessionError::AlreadyAuthenticated) => already_authenticated_message(sid),
        Err(SessionError::RandomFailure) => internal_error_message(),
    }
}

/// Handles the authenticate endpoint: performs the one-shot transition on
/// the store and answers with the exact status and body of the service.
/// The password is accepted but never checked: the service stores no
/// credential to check it against.
pub fn authenticate_request(
    state: &mut AppState,
    session_id: &str,
    user: String,
    _password: &str,
) -> (r: (u16, String))
    requires
        old(state).wf(),
    ensures
        final(state).wf(),
        final(state)@ == auth_next(old(state)@, session_id@, user@),
        r.0 == auth_status(old(state)@, session_id@),
        r.1@ == auth_message(old(state)@, session_id@),
{
    match state.authenticate(session_id, user) {
        Ok(_) => (200, authenticated_body(session_id)),
        Err(SessionError::MalformedId) => (400, malformed_id_body()),
        Err(SessionError::NotFound) => (400, not_found_body(session_id)),
        Err(SessionError::AlreadyAuthenticated) => (400, already_authenticated_body(session_id)),
        Err(SessionError::RandomFailure) => (400, internal_error_body()),
    }
}

/// The error body the state-read endpoint answers with.
pub open spec fn state_error_message(sid: Seq<char>) -> Seq<char> {
    if !is_encoded_id(sid) {
        malformed_id_message()
    } else {
        not_found_message(sid)
    }
}

/// Handles the state-read endpoint.  On success the session's fields are
/// handed back for the caller to serialize; on failure the exact status and
/// body are returned.  The store is only read, never changed.
pub fn session_state_request(state: &AppState, session_id: &str) -> (r: Result<
    Session,
    (u16, String),
>)
    requires
        state.wf(),
    ensures
        r matches Ok(sess) ==> state_result(state@, session_id@) == Ok::<
            SessionView,
            SessionError,
        >(sess@),
        r matches Err(p) ==> state_result(state@, session_id@) is Err && p.0 == 400
            && p.1@ == state_error_message(session_id@),
{
    match state.session_state(session_id) {
        Ok(sess) => Ok(sess),
        Err(SessionError::NotFound) => Err((400, not_found_body(session_id))),
        Err(_) => Err((400, malformed_id_body())),
    }
}

/// Handles the session-creation endpoint: draws a fresh identifier, grows
/// the store by one unauthenticated record, and answers with the encoded
/// identifier; an entropy failure is answered as an internal error with the
/// store untouched.
pub fn new_session_request(state: &mut AppState) -> (r: (u16, String))
    requires
        old(state).wf(),
    ensures
        final(state).wf(),
        r.0 == 200 ==> exists|id: Seq<u8>|
            id.len() == 16 && final(state)@ == old(state)@.insert(id, SessionView::fresh())
                && r.1@ == id_json_message(encode16(id)),
        r.0 != 200 ==> r.0 == 500 && final(state)@ == old(state)@ && r.1@
            == internal_error_message(),
{
    match state.new_session() {
        Ok(id) => {
            let encoded = id.encode();
            (200, id_json_body(encoded.as_str()))
        },
        Err(_) => (500, internal_error_body()),
    }
}

} // verus!
