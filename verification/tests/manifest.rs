use vsnapu_downloader::manifest::{
    authorization_header, nonblank_message, rejection_message, should_attach_auth_header,
};

/// The `message` member of a `{ "message": "..." }` error body, read the way the app reads it.
fn message_member(body: &str) -> Option<String> {
    let value: serde_json::Value = serde_json::from_str(body).ok()?;
    value.as_object()?.get("message")?.as_str().map(|m| m.to_string())
}

fn extract_error_message(status: &str, body: &str) -> String {
    rejection_message(status, message_member(body))
}

fn parse_error_message(body: &str) -> Option<String> {
    nonblank_message(message_member(body))
}

#[test]
fn extract_error_message_reads_message_field_when_present() {
    let body = r#"{"message":"This job unlocks at 100% payment received. 30% has been received so far. Please complete the remaining payment to download."}"#;
    assert_eq!(
        extract_error_message("HTTP 403", body),
        "This job unlocks at 100% payment received. 30% has been received so far. Please complete the remaining payment to download."
    );
}

#[test]
fn extract_error_message_falls_back_when_body_is_not_json() {
    let body = "Bad Gateway";
    assert_eq!(
        extract_error_message("HTTP 502", body),
        "Manifest link rejected (HTTP 502). It may have expired -- try downloading again from the web page."
    );
}

#[test]
fn extract_error_message_falls_back_when_json_has_no_message_field() {
    let body = r#"{"other":"value"}"#;
    assert_eq!(
        extract_error_message("HTTP 500", body),
        "Manifest link rejected (HTTP 500). It may have expired -- try downloading again from the web page."
    );
}

#[test]
fn extract_error_message_falls_back_when_message_is_blank() {
    let expected = "Manifest link rejected (HTTP 403). It may have expired -- try downloading again from the web page.";
    assert_eq!(extract_error_message("HTTP 403", r#"{"message":""}"#), expected);
    assert_eq!(extract_error_message("HTTP 403", r#"{"message":"   "}"#), expected);
}

#[test]
fn parse_error_message_returns_some_only_for_non_blank_message() {
    assert_eq!(parse_error_message(r#"{"message":"Locked"}"#), Some("Locked".to_string()));
    assert_eq!(parse_error_message(r#"{"message":" "}"#), None);
    assert_eq!(parse_error_message("Bad Gateway"), None);
    assert_eq!(parse_error_message(r#"{"other":1}"#), None);
}

#[test]
fn should_attach_auth_header_for_own_api_host() {
    assert!(should_attach_auth_header("https://apis.vsnapu.com/api/DirectDownload/Manifest?token=abc"));
    assert!(should_attach_auth_header("https://apis.vsnapu.com/api/DirectDownload/File?x=1"));
}

#[test]
fn should_attach_auth_header_false_for_other_own_host_endpoints_and_lookalikes() {
    assert!(!should_attach_auth_header("https://apis.vsnapu.com/api/Photographer/Login"));
    assert!(!should_attach_auth_header("https://apis.vsnapu.com.evil.com/api/DirectDownload/File?x"));
    assert!(!should_attach_auth_header("https://apis.vsnapu.com@evil.com/api/DirectDownload/File?x"));
    assert!(!should_attach_auth_header("http://apis.vsnapu.com/api/DirectDownload/File?x"));
}

#[test]
fn should_attach_auth_header_false_for_external_host() {
    assert!(!should_attach_auth_header("https://storage.googleapis.com/some-bucket/some-object?X-Goog-Signature=abc"));
}

#[test]
fn should_attach_auth_header_false_for_malformed_url() {
    assert!(!should_attach_auth_header("not-a-url"));
}

#[test]
fn parse_error_message_ignores_non_string_messages_and_keeps_other_members() {
    assert_eq!(parse_error_message(r#"{"message":null}"#), None);
    assert_eq!(parse_error_message(r#"{"message":5}"#), None);
    assert_eq!(parse_error_message(r#" {"code":1,"message":" Paused "} "#), Some(" Paused ".to_string()));
    assert_eq!(parse_error_message(""), None);
}

#[test]
fn rejection_message_uses_a_usable_parsed_message() {
    assert_eq!(rejection_message("HTTP 403", Some("Locked".to_string())), "Locked");
    assert_eq!(
        rejection_message("HTTP 410", Some("\t\n".to_string())),
        "Manifest link rejected (HTTP 410). It may have expired -- try downloading again from the web page."
    );
    assert_eq!(nonblank_message(Some("\u{3000}".to_string())), None);
    assert_eq!(nonblank_message(None), None);
}

#[test]
fn authorization_header_only_for_token_endpoints() {
    assert_eq!(
        authorization_header("https://apis.vsnapu.com/api/DirectDownload/Manifest?token=abc", Some("t0k")),
        Some("Bearer t0k".to_string())
    );
    assert_eq!(authorization_header("https://apis.vsnapu.com/api/DirectDownload/Manifest?token=abc", None), None);
    assert_eq!(authorization_header("https://storage.googleapis.com/b/o", Some("t0k")), None);
}
