//! The editor's desktop session: which logins are accepted, what is kept between launches, how a
//! refresh rotates the stored token, and the messages shown when the server refuses.
use vstd::prelude::*;

use crate::manifest::opt_view;
use crate::text::{all_whitespace, chars_of, eq_str, is_blank, push_str, string_of, trim_bounds, trim_ws};

verus! {

/// The session handed to the window: who is logged in and the access token it sends as its
/// Bearer token. It is never written to disk.
#[derive(Debug, Clone)]
pub struct EditorSession {
    pub photographer_id: String,
    pub name: String,
    pub role: String,
    pub access_token: String,
}

/// What is kept on disk between launches: the long-lived refresh token and the identity it
/// belongs to, never the access token.
#[derive(Debug, Clone)]
pub struct StoredRefreshState {
    pub photographer_id: String,
    pub refresh_token: String,
}

/// The fields of a login response.
#[derive(Debug, Clone)]
pub struct LoginResponse {
    pub role: String,
    pub name: Option<String>,
    pub photographer_id: String,
    pub token: Option<String>,
    pub desktop_refresh_token: Option<String>,
}

/// How a refused refresh is handled: whether the stored session is dropped, and the message.
#[derive(Debug, Clone)]
pub struct RefreshFailure {
    pub clear_session: bool,
    pub message: String,
}

// ---------------------------------------------------------------------------------------------
// Login errors
// ---------------------------------------------------------------------------------------------

/// What `serde_json` reads from `body` as a JSON string: `Some(text)` when the whole body is one
/// JSON string literal, else `None`.
pub uninterp spec fn json_string_value(body: Seq<char>) -> Option<Seq<char>>;

/// Parses `body` with `serde_json::from_str::<String>`. The contract only ties the result to
/// `json_string_value(body)`; what serde_json accepts as a JSON string is not restated here.
#[verifier::external_body]
fn json_string(body: &str) -> (r: Option<String>)
    ensures
        opt_view(r) == json_string_value(body@),
{
    match serde_json::from_str::<String>(body) {
        Ok(text) => Some(text),
        Err(_) => None,
    }
}

pub open spec fn login_failed_text(status: Seq<char>) -> Seq<char> {
    "Login failed (HTTP "@ + status + "). Check your mobile number and password."@
}

/// The login error for `status` and `body`, given the JSON string parsed from the body: that
/// string when it is not blank, else the trimmed raw body when it is not empty and does not look
/// like a JSON object or array, else a fixed fallback.
pub open spec fn spec_login_error(status: Seq<char>, body: Seq<char>, parsed: Option<Seq<char>>) -> Seq<char> {
    let raw = trim_ws(body);
    if parsed is Some && !is_blank(parsed->0) {
        parsed->0
    } else if raw.len() > 0 && raw[0] != '{' && raw[0] != '[' {
        raw
    } else {
        login_failed_text(status)
    }
}

/// The login error for `status` and `body`, given what was parsed from the body as a JSON string.
pub fn login_error_from_parsed(status: &str, body: &str, parsed: Option<String>) -> (r: String)
    ensures
        r@ == spec_login_error(status@, body@, opt_view(parsed)),
{
    if let Some(message) = parsed {
        let m = chars_of(message.as_str());
        if !all_whitespace(&m) {
            return message;
        }
    }
    let v = chars_of(body);
    let (a, b) = trim_bounds(&v, 0, v.len());
    assert(v@.subrange(0, v@.len() as int) =~= body@);
    if a < b && v[a] != '{' && v[a] != '[' {
        return string_of(&v, a, b);
    }
    let mut s = String::new();
    push_str(&mut s, "Login failed (HTTP ");
    push_str(&mut s, status);
    push_str(&mut s, "). Check your mobile number and password.");
    s
}

/// The backend returns login failures as a plain string body, which arrives as a JSON string;
/// surface that message, else a raw body that is not a JSON object or array, else a fixed
/// fallback.
pub fn extract_login_error(status: &str, body: &str) -> (r: String)
    ensures
        r@ == spec_login_error(status@, body@, json_string_value(body@)),
{
    login_error_from_parsed(status, body, json_string(body))
}

// ---------------------------------------------------------------------------------------------
// Login
// ---------------------------------------------------------------------------------------------

/// The roles that may hold a desktop session.
pub open spec fn is_editor_role(role: Seq<char>) -> bool {
    role == "Editor"@ || role == "VideoEditor"@
}

pub open spec fn editors_only_text() -> Seq<char> {
    "This login is for editors only."@
}

pub open spec fn missing_token_text() -> Seq<char> {
    "Login succeeded but did not return a desktop session token."@
}

/// Whether a successful login response opens a desktop session. Only editor roles do; a
/// response without both tokens does not. On success, the session carries the access token and
/// the state to store carries only the identity and the refresh token.
pub fn login_outcome(body: LoginResponse) -> (r: Result<(EditorSession, StoredRefreshState), String>)
    ensures
        !is_editor_role(body.role@) ==> (r matches Err(e) && e@ == editors_only_text()),
        is_editor_role(body.role@) && (body.token is None || body.desktop_refresh_token is None)
            ==> (r matches Err(e) && e@ == missing_token_text()),
        is_editor_role(body.role@) && body.token is Some && body.desktop_refresh_token is Some
            ==> (r matches Ok((session, stored)) && {
            &&& session.photographer_id@ == body.photographer_id@
            &&& session.name@ == (match body.name {
                Some(n) => n@,
                None => Seq::<char>::empty(),
            })
            &&& session.role@ == body.role@
            &&& session.access_token@ == body.token->0@
            &&& stored.photographer_id@ == body.photographer_id@
            &&& stored.refresh_token@ == body.desktop_refresh_token->0@
        }),
{
    if !eq_str(body.role.as_str(), "Editor") && !eq_str(body.role.as_str(), "VideoEditor") {
        let mut m = String::new();
        push_str(&mut m, "This login is for editors only.");
        return Err(m);
    }
    let LoginResponse { role, name, photographer_id, token, desktop_refresh_token } = body;
    match (token, desktop_refresh_token) {
        (Some(access_token), Some(refresh_token)) => {
            let stored = StoredRefreshState {
                photographer_id: photographer_id.clone(),
                refresh_token,
            };
            let name = match name {
                Some(n) => n,
                None => String::new(),
            };
            Ok((EditorSession { photographer_id, name, role, access_token }, stored))
        },
        _ => {
            let mut m = String::new();
            push_str(&mut m, "Login succeeded but did not return a desktop session token.");
            Err(m)
        },
    }
}

// ---------------------------------------------------------------------------------------------
// Refresh
// ---------------------------------------------------------------------------------------------

pub open spec fn session_expired_text() -> Seq<char> {
    "Your editor session has expired. Please log in again."@
}

pub open spec fn refresh_unavailable_text(status: Seq<char>) -> Seq<char> {
    "Could not refresh your editor session right now (HTTP "@ + status + "). Try again in a moment."@
}

/// How the refresh endpoint's status is handled: `None` for a success (2xx); otherwise 401 and
/// 403 drop the stored session and ask for a new login, and any other status keeps it and asks
/// to try again.
pub fn refresh_failure(status_code: u16, status_text: &str) -> (r: Option<RefreshFailure>)
    ensures
        200 <= status_code <= 299 ==> r is None,
        !(200 <= status_code <= 299) ==> (r matches Some(f) && (if status_code == 401
            || status_code == 403 {
            f.clear_session && f.message@ == session_expired_text()
        } else {
            !f.clear_session && f.message@ == refresh_unavailable_text(status_text@)
        })),
{
    if 200 <= status_code && status_code <= 299 {
        return None;
    }
    let mut message = String::new();
    if status_code == 401 || status_code == 403 {
        push_str(&mut message, "Your editor session has expired. Please log in again.");
        Some(RefreshFailure { clear_session: true, message })
    } else {
        push_str(&mut message, "Could not refresh your editor session right now (HTTP ");
        push_str(&mut message, status_text);
        push_str(&mut message, "). Try again in a moment.");
        Some(RefreshFailure { clear_session: false, message })
    }
}

/// The session after a successful refresh, and the state to store in place of `stored`: the same
/// identity, the new access token, and the rotated refresh token. The name and role are not
/// returned by the refresh endpoint, so they are empty.
pub fn refreshed_session(
    stored: StoredRefreshState,
    access_token: String,
    desktop_refresh_token: String,
) -> (r: (EditorSession, StoredRefreshState))
    ensures
        r.0.photographer_id@ == stored.photographer_id@,
        r.0.name@ == Seq::<char>::empty(),
        r.0.role@ == Seq::<char>::empty(),
        r.0.access_token@ == access_token@,
        r.1.photographer_id@ == stored.photographer_id@,
        r.1.refresh_token@ == desktop_refresh_token@,
{
    let next = StoredRefreshState {
        photographer_id: stored.photographer_id.clone(),
        refresh_token: desktop_refresh_token,
    };
    (
        EditorSession {
            photographer_id: stored.photographer_id,
            name: String::new(),
            role: String::new(),
            access_token,
        },
        next,
    )
}

} // verus!
