use vsnapu_downloader::editor_session::{
    extract_login_error, login_error_from_parsed, login_outcome, refresh_failure, refreshed_session,
    LoginResponse, StoredRefreshState,
};

#[test]
fn extract_login_error_uses_json_string_body() {
    assert_eq!(extract_login_error("401 Unauthorized", "\"Invalid password.\""), "Invalid password.");
}

#[test]
fn extract_login_error_uses_plain_body() {
    assert_eq!(extract_login_error("400 Bad Request", "  Password not set.  "), "Password not set.");
}

#[test]
fn extract_login_error_falls_back_on_empty_or_object_body() {
    let expected = "Login failed (HTTP 500 Internal Server Error). Check your mobile number and password.";
    assert_eq!(extract_login_error("500 Internal Server Error", ""), expected);
    assert_eq!(extract_login_error("500 Internal Server Error", "{\"title\":\"x\"}"), expected);
}

#[test]
fn extract_login_error_handles_blank_strings_and_arrays() {
    // A blank JSON string falls through to the raw body, which is itself a JSON string literal.
    assert_eq!(extract_login_error("401", "\"  \""), "\"  \"");
    let expected = "Login failed (HTTP 400). Check your mobile number and password.";
    assert_eq!(extract_login_error("400", " [1, 2] "), expected);
    assert_eq!(extract_login_error("400", " \n "), expected);
    assert_eq!(login_error_from_parsed("400", "ignored", Some("Nope".to_string())), "Nope");
}

fn response(role: &str, name: Option<&str>, token: Option<&str>, refresh: Option<&str>) -> LoginResponse {
    LoginResponse {
        role: role.to_string(),
        name: name.map(|n| n.to_string()),
        photographer_id: "E1".to_string(),
        token: token.map(|t| t.to_string()),
        desktop_refresh_token: refresh.map(|r| r.to_string()),
    }
}

#[test]
fn login_outcome_accepts_editors_and_splits_the_tokens() {
    let (session, stored) = login_outcome(response("Editor", Some("Asha"), Some("t"), Some("r"))).unwrap();
    assert_eq!(session.photographer_id, "E1");
    assert_eq!(session.name, "Asha");
    assert_eq!(session.role, "Editor");
    assert_eq!(session.access_token, "t");
    assert_eq!(stored.photographer_id, "E1");
    assert_eq!(stored.refresh_token, "r");
    assert!(login_outcome(response("VideoEditor", None, Some("t"), Some("r"))).is_ok());
}

#[test]
fn login_outcome_defaults_a_missing_name() {
    let (session, _) = login_outcome(response("Editor", None, Some("t"), Some("r"))).unwrap();
    assert_eq!(session.name, "");
}

#[test]
fn login_outcome_rejects_other_roles_and_missing_tokens() {
    assert_eq!(
        login_outcome(response("Photographer", None, Some("t"), Some("r"))).err(),
        Some("This login is for editors only.".to_string())
    );
    assert_eq!(
        login_outcome(response("editor", None, Some("t"), Some("r"))).err(),
        Some("This login is for editors only.".to_string())
    );
    assert_eq!(
        login_outcome(response("Editor", None, Some("t"), None)).err(),
        Some("Login succeeded but did not return a desktop session token.".to_string())
    );
    assert_eq!(
        login_outcome(response("VideoEditor", None, None, Some("r"))).err(),
        Some("Login succeeded but did not return a desktop session token.".to_string())
    );
}

#[test]
fn refresh_failure_clears_only_on_401_and_403() {
    assert!(refresh_failure(200, "200 OK").is_none());
    assert!(refresh_failure(204, "204 No Content").is_none());
    let f = refresh_failure(401, "401 Unauthorized").unwrap();
    assert!(f.clear_session);
    assert_eq!(f.message, "Your editor session has expired. Please log in again.");
    assert!(refresh_failure(403, "403 Forbidden").unwrap().clear_session);
    let f = refresh_failure(500, "500 Internal Server Error").unwrap();
    assert!(!f.clear_session);
    assert_eq!(
        f.message,
        "Could not refresh your editor session right now (HTTP 500 Internal Server Error). Try again in a moment."
    );
}

#[test]
fn refreshed_session_keeps_the_identity_and_rotates_the_token() {
    let stored = StoredRefreshState { photographer_id: "E1".to_string(), refresh_token: "old".to_string() };
    let (session, next) = refreshed_session(stored, "access".to_string(), "new".to_string());
    assert_eq!(session.photographer_id, "E1");
    assert_eq!(session.name, "");
    assert_eq!(session.role, "");
    assert_eq!(session.access_token, "access");
    assert_eq!(next.photographer_id, "E1");
    assert_eq!(next.refresh_token, "new");
}
