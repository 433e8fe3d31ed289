//! The job manifest: its shape, when the editor token may travel with a request, and the message
//! shown when the manifest link is rejected (the error body itself is read by the caller).
use vstd::prelude::*;

use crate::text::{all_whitespace, chars_of, is_blank, push_str, starts_with};

verus! {

/// One file of a job: its name, where to fetch it, and its size.
#[derive(Debug, Clone)]
pub struct ManifestFile {
    pub file_name: String,
    pub url: String,
    pub size_bytes: u64,
}

/// A job's files, as listed by the manifest endpoint.
#[derive(Debug, Clone)]
pub struct Manifest {
    pub job_name: String,
    pub folder_name: Option<String>,
    pub files: Vec<ManifestFile>,
}

/// The two endpoints that accept the editor token.
pub const MANIFEST_ENDPOINT_PREFIX: &'static str =
    "https://apis.vsnapu.com/api/DirectDownload/Manifest?";

pub const FILE_ENDPOINT_PREFIX: &'static str = "https://apis.vsnapu.com/api/DirectDownload/File?";

pub open spec fn opt_view(o: Option<String>) -> Option<Seq<char>> {
    match o {
        Some(s) => Some(s@),
        None => None,
    }
}

/// A message that is present and not blank.
pub open spec fn usable_message(message: Option<Seq<char>>) -> Option<Seq<char>> {
    match message {
        Some(m) => if is_blank(m) {
            None
        } else {
            Some(m)
        },
        None => None,
    }
}

/// The text shown when the manifest link is rejected without a usable server message.
pub open spec fn rejection_fallback(status: Seq<char>) -> Seq<char> {
    "Manifest link rejected ("@ + status
        + "). It may have expired -- try downloading again from the web page."@
}

/// Keeps a parsed server message only when it is not blank.
pub fn nonblank_message(message: Option<String>) -> (r: Option<String>)
    ensures
        opt_view(r) == usable_message(opt_view(message)),
{
    match message {
        Some(m) => {
            let v = chars_of(m.as_str());
            if all_whitespace(&v) {
                None
            } else {
                Some(m)
            }
        },
        None => None,
    }
}

/// The text shown when the manifest link is rejected with `status`, given the `message` member
/// read from the error body (`{ "message": "..." }`): that message when it is not blank, else a
/// generic "may have expired" message.
pub fn rejection_message(status: &str, parsed_message: Option<String>) -> (r: String)
    ensures
        r@ == match usable_message(opt_view(parsed_message)) {
            Some(m) => m,
            None => rejection_fallback(status@),
        },
{
    match nonblank_message(parsed_message) {
        Some(m) => m,
        None => {
            let mut s = String::new();
            push_str(&mut s, "Manifest link rejected (");
            push_str(&mut s, status);
            push_str(&mut s, "). It may have expired -- try downloading again from the web page.");
            s
        },
    }
}

pub open spec fn is_token_endpoint(url: Seq<char>) -> bool {
    MANIFEST_ENDPOINT_PREFIX@.is_prefix_of(url) || FILE_ENDPOINT_PREFIX@.is_prefix_of(url)
}

/// The editor token is attached only to the two DirectDownload endpoints that use it -- never to
/// storage URLs nor other API paths.
pub fn should_attach_auth_header(url: &str) -> (r: bool)
    ensures
        r == is_token_endpoint(url@),
{
    starts_with(url, MANIFEST_ENDPOINT_PREFIX) || starts_with(url, FILE_ENDPOINT_PREFIX)
}

/// The `Authorization` header value for a manifest request: `Bearer <token>` when there is a
/// token and the URL is one of the token endpoints.
pub fn authorization_header(manifest_url: &str, access_token: Option<&str>) -> (r: Option<String>)
    ensures
        opt_view(r) == match access_token {
            Some(token) => if is_token_endpoint(manifest_url@) {
                Some("Bearer "@ + token@)
            } else {
                None
            },
            None => None,
        },
{
    match access_token {
        Some(token) => {
            if should_attach_auth_header(manifest_url) {
                let mut value = String::new();
                push_str(&mut value, "Bearer ");
                push_str(&mut value, token);
                Some(value)
            } else {
                None
            }
        },
        None => None,
    }
}

/// Only the VSnapU API host itself ever receives the token: a URL that gets it starts with the
/// exact origin `https://apis.vsnapu.com/`, so look-alike hosts and user-info tricks are refused.
pub proof fn lemma_token_only_for_own_api_host(url: Seq<char>)
    requires
        is_token_endpoint(url),
    ensures
        "https://apis.vsnapu.com/api/DirectDownload/"@.is_prefix_of(url),
{
    reveal_strlit("https://apis.vsnapu.com/api/DirectDownload/Manifest?");
    reveal_strlit("https://apis.vsnapu.com/api/DirectDownload/File?");
    reveal_strlit("https://apis.vsnapu.com/api/DirectDownload/");
    let own = "https://apis.vsnapu.com/api/DirectDownload/"@;
    if MANIFEST_ENDPOINT_PREFIX@.is_prefix_of(url) {
        assert(own =~= url.subrange(0, own.len() as int));
    } else {
        assert(own =~= url.subrange(0, own.len() as int));
    }
}

} // verus!
