//! The records that the contents API describes.
use vstd::prelude::*;

use crate::github::opt_view;
use crate::text::{chars_of, range_is};

verus! {

/// One element of a directory listing, or the object of a single file.
#[derive(Debug, Clone)]
pub struct GitHubFile {
    pub name: String,
    pub path: String,
    pub sha: String,
    pub size: i64,
    pub url: String,
    pub html_url: String,
    pub git_url: String,
    pub download_url: Option<String>,
    /// `file`, `dir`, `submodule` or `symlink`.
    pub file_type: String,
    pub content: Option<String>,
    pub encoding: Option<String>,
}

/// The text fields of a `GitHubFile` that decoding fills.
pub struct FileView {
    pub name: Seq<char>,
    pub path: Seq<char>,
    pub sha: Seq<char>,
    pub file_type: Seq<char>,
    pub download_url: Option<Seq<char>>,
    pub content: Option<Seq<char>>,
    pub encoding: Option<Seq<char>>,
}

impl View for GitHubFile {
    type V = FileView;

    open spec fn view(&self) -> FileView {
        FileView {
            name: self.name@,
            path: self.path@,
            sha: self.sha@,
            file_type: self.file_type@,
            download_url: opt_view(self.download_url),
            content: opt_view(self.content),
            encoding: opt_view(self.encoding),
        }
    }
}

/// What base64's `STANDARD` engine decodes the text `s` to: `None` unless it
/// is canonical padded base64.
pub uninterp spec fn standard_base64(s: Seq<char>) -> Option<Seq<u8>>;

/// Relies on base64's `Engine::decode` with the `STANDARD` engine: the result
/// depends on the text alone, and empty text decodes to no bytes.
#[verifier::external_body]
fn decode_standard(s: &str) -> (r: Option<Vec<u8>>)
    ensures
        match standard_base64(s@) {
            Some(b) => r is Some && r->Some_0@ == b,
            None => r is None,
        },
        s@.len() == 0 ==> r is Some && r->Some_0@.len() == 0,
{
    ::base64::Engine::decode(&::base64::engine::general_purpose::STANDARD, s).ok()
}

fn string_is(s: &String, lit: &str) -> (r: bool)
    ensures
        r == (s@ == lit@),
{
    let a = chars_of(s.as_str());
    let b = chars_of(lit);
    proof {
        assert(a@.subrange(0, a@.len() as int) =~= a@);
    }
    range_is(&a, 0, a.len(), &b)
}

impl GitHubFile {
    pub fn is_file(&self) -> (r: bool)
        ensures
            r == (self.file_type@ == "file"@),
    {
        string_is(&self.file_type, "file")
    }

    pub fn is_directory(&self) -> (r: bool)
        ensures
            r == (self.file_type@ == "dir"@),
    {
        string_is(&self.file_type, "dir")
    }

    pub fn is_submodule(&self) -> (r: bool)
        ensures
            r == (self.file_type@ == "submodule"@),
    {
        string_is(&self.file_type, "submodule")
    }

    pub fn is_symlink(&self) -> (r: bool)
        ensures
            r == (self.file_type@ == "symlink"@),
    {
        string_is(&self.file_type, "symlink")
    }

    /// The inline content decoded by the standard engine, when it is there,
    /// marked `base64`, and canonical.
    pub fn get_decoded_content(&self) -> (r: Option<Vec<u8>>)
        ensures
            match (self.content, self.encoding) {
                (Some(c), Some(e)) => if e@ == "base64"@ {
                    match standard_base64(c@) {
                        Some(b) => r is Some && r->Some_0@ == b,
                        None => r is None,
                    }
                } else {
                    r is None
                },
                _ => r is None,
            },
    {
        match (&self.content, &self.encoding) {
            (Some(c), Some(e)) => {
                if string_is(e, "base64") {
                    decode_standard(c.as_str())
                } else {
                    None
                }
            },
            _ => None,
        }
    }
}

/// One rate-limit bucket of the API.
#[derive(Debug, Clone)]
pub struct GitHubRateLimit {
    pub limit: u32,
    pub remaining: u32,
    pub reset: u64,
    pub used: u32,
    pub resource: String,
}

#[derive(Debug, Clone)]
pub struct GitHubRateLimitResources {
    pub core: GitHubRateLimit,
    pub search: GitHubRateLimit,
    pub graphql: GitHubRateLimit,
    pub integration_manifest: GitHubRateLimit,
    pub code_search: GitHubRateLimit,
}

#[derive(Debug, Clone)]
pub struct GitHubRateLimitResponse {
    pub resources: GitHubRateLimitResources,
    pub rate: GitHubRateLimit,
}

/// The object of a single file with its content inline.
#[derive(Debug, Clone)]
pub struct GitHubFileContent {
    pub name: String,
    pub path: String,
    pub sha: String,
    pub content: String,
    pub encoding: String,
    pub size: i64,
    pub url: String,
    pub html_url: String,
    pub download_url: String,
    pub file_type: String,
}

/// Where a bearer credential came from.
#[derive(Debug, Clone, Copy, PartialEq, Eq, Structural)]
pub enum AuthSource {
    Environment,
    CommandLine,
    ConfigFile,
}

} // verus!
