//! Retrieves files and folders named by GitHub URLs and mirrors them locally.
//!
//! The library holds the logic: URL classification, payload decoding (base64
//! and the flat JSON of the contents API), HTTP/1.1 framing and response
//! decoding, the file fetcher with its raw-content-then-API strategy, and the
//! depth-first mirror of a folder. Transport and filesystem work stay with
//! the caller, which performs each step that the fetcher and the mirror name.
use vstd::prelude::*;

pub mod base64;
pub mod cli;
pub mod error;
pub mod fetch;
pub mod github;
pub mod http;
pub mod json;
pub mod mirror;
pub mod text;
pub mod types;

pub use base64::Base64Decoder;
pub use cli::{download_destination, validate_github_url, validate_local_path};
pub use error::{ErrorKind, GcpError, GcpResult, IoFailure};
pub use fetch::{
    clean_content, decode_file_response, decode_listing_response, FetchStage, FetchStep,
    FileFetch, Payload,
};
pub use github::{GitHubUrl, UrlType};
pub use http::{
    backoff_ms, build_request, build_request_for, decode_exchange, parse_url, read_chunked_body,
    read_http_response, response_status, should_retry,
};
pub use json::{extract_json_field, extract_optional_json_field, parse_github_file_array};
pub use mirror::{
    plan_file_destination, resolve_conflict, validate_safe_path, MirrorAction, MirrorEngine,
    MirrorOutcome, Task,
};
pub use types::{
    AuthSource, GitHubFile, GitHubFileContent, GitHubRateLimit, GitHubRateLimitResources,
    GitHubRateLimitResponse,
};

verus! {

} // verus!
