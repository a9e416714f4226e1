//! Deciding whether a release registry response announces a newer version.
//!
//! The caller performs the HTTP request and hands in the status code and the
//! body text; everything from there on is verified. The registry's response
//! is a JSON document with a `tag_name` field (the release's version label,
//! possibly with a leading `v`) and an `html_url` field (the release page).
//! Any failure — non-success status, malformed body, missing fields — yields
//! "no update", never an error.

use crate::version::spec_is_newer;
use crate::version::is_newer;
use vstd::prelude::*;
use vstd::string::*;

verus! {

/// A newer release: its bare version string (leading `v` stripped) and the
/// URL of its release page.
#[derive(Debug, Clone)]
pub struct UpdateInfo {
    pub version: String,
    pub url: String,
}

/// `tag` without a single optional leading `v` marker.
pub open spec fn strip_v(tag: Seq<char>) -> Seq<char> {
    if tag.len() > 0 && tag[0] == 'v' {
        tag.subrange(1, tag.len() as int)
    } else {
        tag
    }
}

/// The update, if any, announced by a release with tag `tag` and page `url`
/// to an application at version `current`: the tag's bare version and the
/// url when that version is newer, nothing otherwise.
pub open spec fn spec_update(tag: Seq<char>, url: Seq<char>, current: Seq<char>) -> Option<
    (Seq<char>, Seq<char>),
> {
    let version = strip_v(tag);
    if spec_is_newer(version, current) {
        Some((version, url))
    } else {
        None
    }
}

/// True when the returned value carries exactly the version and url of the
/// expected update, or both are absent.
pub open spec fn matches_update(r: Option<UpdateInfo>, m: Option<(Seq<char>, Seq<char>)>) -> bool {
    match (r, m) {
        (Some(u), Some(p)) => u.version@ == p.0 && u.url@ == p.1,
        (None, None) => true,
        _ => false,
    }
}

/// The two string fields named `first` and `second` of `body` read as a JSON
/// document, or nothing when `body` is not a JSON object carrying both
/// fields as strings.
pub uninterp spec fn json_string_fields(body: Seq<char>, first: Seq<char>, second: Seq<char>) -> Option<(Seq<char>, Seq<char>)>;

/// Relies on serde_json: `from_str` parses a JSON document from the text
/// alone, and `Value::get` / `Value::as_str` read a named field as a string,
/// so the outcome is a function of the three arguments.
#[verifier::external_body]
fn extract_string_fields(body: &str, first: &str, second: &str) -> (r: Option<(String, String)>)
    ensures
        match (r, json_string_fields(body@, first@, second@)) {
            (Some(p), Some(q)) => p.0@ == q.0 && p.1@ == q.1,
            (None, None) => true,
            _ => false,
        },
{
    let doc: serde_json::Value = serde_json::from_str(body).ok()?;
    let a = doc.get(first)?.as_str()?.to_string();
    let b = doc.get(second)?.as_str()?.to_string();
    Some((a, b))
}

/// Builds the update announced by a release, stripping a single leading `v`
/// from the tag and comparing the bare version against `current`.
pub fn evaluate_release(tag: &str, url: &str, current: &str) -> (r: Option<UpdateInfo>)
    ensures
        matches_update(r, spec_update(tag@, url@, current@)),
{
    let n: usize = tag.unicode_len();
    let version: String = if n > 0 && tag.get_char(0) == 'v' {
        String::from_str(tag.substring_char(1, n))
    } else {
        String::from_str(tag)
    };
    if is_newer(version.as_str(), current) {
        Some(UpdateInfo { version, url: String::from_str(url) })
    } else {
        None
    }
}

/// The update, if any, announced by a registry response body to an
/// application at version `current`.
pub open spec fn spec_check_body(body: Seq<char>, current: Seq<char>) -> Option<
    (Seq<char>, Seq<char>),
> {
    match json_string_fields(body, "tag_name"@, "html_url"@) {
        Some(p) => spec_update(p.0, p.1, current),
        None => None,
    }
}

/// Reads the release's tag and page url out of a registry response body and
/// decides whether it announces a version newer than `current`; a body that
/// does not carry both fields yields no update.
pub fn check_response_body(body: &str, current: &str) -> (r: Option<UpdateInfo>)
    ensures
        matches_update(r, spec_check_body(body@, current@)),
{
    match extract_string_fields(body, "tag_name", "html_url") {
        Some(fields) => evaluate_release(fields.0.as_str(), fields.1.as_str(), current),
        None => None,
    }
}

/// The registry endpoint that announces the latest release of `repo`.
pub fn release_endpoint(repo: &str) -> (url: String)
    ensures
        url@ == "https://api.github.com/repos/"@ + repo@ + "/releases/latest"@,
{
    let mut url: String = String::from_str("https://api.github.com/repos/");
    url.append(repo);
    url.append("/releases/latest");
    url
}

/// True for the status codes the registry answers a successful request with.
pub open spec fn spec_status_success(status: u16) -> bool {
    200 <= status < 300
}

/// Returns true exactly for a success (2xx) HTTP status code.
pub fn status_success(status: u16) -> (ok: bool)
    ensures
        ok == spec_status_success(status),
{
    200 <= status && status < 300
}

/// The update, if any, announced by a registry response with status code
/// `status` and body `body` to an application at version `current`.
pub open spec fn spec_check_response(status: u16, body: Seq<char>, current: Seq<char>) -> Option<
    (Seq<char>, Seq<char>),
> {
    if spec_status_success(status) {
        spec_check_body(body, current)
    } else {
        None
    }
}

/// Decides a whole registry response: a non-success status yields no
/// update, and a successful one is decided by its body.
pub fn check_response(status: u16, body: &str, current: &str) -> (r: Option<UpdateInfo>)
    ensures
        matches_update(r, spec_check_response(status, body@, current@)),
{
    if status_success(status) {
        check_response_body(body, current)
    } else {
        None
    }
}

} // verus!
