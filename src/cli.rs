//! Checks on command-line arguments before they reach the classifier.
use vstd::prelude::*;

use crate::error::{GcpError, GcpResult};
use crate::github::{last_segment, GitHubUrl, UrlType};
use crate::text::{chars_of, find_char, find_char_from, occurs, occurs_at, push_str};

verus! {

/// Accepts a non-empty source that starts with the web host or the
/// raw-content host, and gives it back.
pub fn validate_github_url(url: &str) -> (r: Result<String, String>)
    ensures
        r is Ok <==> url@.len() > 0 && (occurs_at(url@, "https://github.com/"@, 0) || occurs_at(
            url@,
            "https://raw.githubusercontent.com/"@,
            0,
        )),
        r is Ok ==> r->Ok_0@ == url@,
{
    let s = chars_of(url);
    if s.len() == 0 {
        return Err("URL cannot be empty".to_string());
    }
    if !occurs(&s, &chars_of("https://github.com/"), 0) && !occurs(
        &s,
        &chars_of("https://raw.githubusercontent.com/"),
        0,
    ) {
        return Err(
            "URL must start with https://github.com/ or https://raw.githubusercontent.com/".to_string(),
        );
    }
    let mut r = String::new();
    push_str(&mut r, url);
    Ok(r)
}

/// Accepts a destination path without a NUL character, and gives it back.
pub fn validate_local_path(path: &str) -> (r: Result<String, String>)
    ensures
        r is Ok <==> find_char_from(path@, '\0', 0) is None,
        r is Ok ==> r->Ok_0@ == path@,
{
    let s = chars_of(path);
    if find_char(&s, '\0', 0).is_some() {
        return Err("Path contains null byte".to_string());
    }
    let mut r = String::new();
    push_str(&mut r, path);
    Ok(r)
}

/// Where a download goes: the given destination, or for `.` the last path
/// segment of the resource; `InvalidUrl` when there is none to take.
pub fn download_destination(url: &GitHubUrl, destination: &str) -> (r: GcpResult<String>)
    ensures
        destination@ != "."@ ==> r is Ok && r->Ok_0@ == destination@,
        destination@ == "."@ ==> match url.path {
            Some(p) if url.url_type != UrlType::Repository => r is Ok && r->Ok_0@ == last_segment(p@),
            _ => r is Err && r->Err_0 is InvalidUrl,
        },
{
    let d = chars_of(destination);
    let dot = chars_of(".");
    proof {
        assert(d@.subrange(0, d@.len() as int) =~= d@);
    }
    if crate::text::range_is(&d, 0, d.len(), &dot) {
        match url.filename() {
            Some(f) => Ok(f),
            None => Err(
                GcpError::InvalidUrl("Cannot extract filename from URL and no destination provided".to_string()),
            ),
        }
    } else {
        let mut r = String::new();
        push_str(&mut r, destination);
        Ok(r)
    }
}

} // verus!
