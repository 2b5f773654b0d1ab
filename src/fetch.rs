//! Obtains the bytes of a file: first from the raw-content host, then through
//! the contents API. Each step names the next request; the caller performs it
//! and hands the outcome back.
use vstd::prelude::*;
use vstd::utf8::{decode_utf8, valid_utf8};

use crate::base64::{base64_decoded, Base64Decoder};
use crate::error::{ErrorKind, GcpError, GcpResult};
use crate::github::{GitHubUrl, UrlParts, UrlType};
use crate::http::{
    all_digits, as_chars, backoff, backoff_ms, decode_exchange, digit_of, digits_value,
    exchange_body, exchange_view, is_transient, line_end, parse_url, response_body, retry_due,
    should_retry, split_url, status_code, status_ok,
};
use crate::text::occurs_at;
use crate::json::{entry_of, listing_of, parse_github_file_array};
use crate::text::{chars_of, push_str, string_of, trim_bounds, trimmed};
use crate::types::{FileView, GitHubFile};

verus! {

/// Relies on std::str::from_utf8: succeeds exactly on valid UTF-8, and then
/// reads the characters that the bytes encode.
#[verifier::external_body]
fn utf8_text(b: &[u8]) -> (r: Option<&str>)
    ensures
        r is Some <==> valid_utf8(b@),
        r is Some ==> r->Some_0@ == decode_utf8(b@),
{
    std::str::from_utf8(b).ok()
}

/// `s` from `i` on, without each backslash that stands before `c`, together
/// with that `c`, taken left to right as `str::replace` does.
pub open spec fn without_escape(s: Seq<char>, c: char, i: int) -> Seq<char>
    decreases s.len() - i,
{
    if i < 0 || i >= s.len() {
        Seq::empty()
    } else if i + 1 < s.len() && s[i] == '\\' && s[i + 1] == c {
        without_escape(s, c, i + 2)
    } else {
        seq![s[i]] + without_escape(s, c, i + 1)
    }
}

/// `s` without line feeds and carriage returns.
pub open spec fn without_breaks(s: Seq<char>) -> Seq<char>
    decreases s.len(),
{
    if s.len() == 0 {
        s
    } else if s.last() == '\n' || s.last() == '\r' {
        without_breaks(s.drop_last())
    } else {
        without_breaks(s.drop_last()).push(s.last())
    }
}

/// Inline content made ready for the decoder: trimmed, without the escaped
/// `\n` and `\r` sequences of the JSON text, and without real line breaks.
pub open spec fn cleaned_content(c: Seq<char>) -> Seq<char> {
    without_breaks(without_escape(without_escape(trimmed(c), 'n', 0), 'r', 0))
}

fn remove_escape(s: &Vec<char>, c: char) -> (r: Vec<char>)
    ensures
        r@ == without_escape(s@, c, 0),
{
    let mut out: Vec<char> = Vec::new();
    let mut i: usize = 0;
    while i < s.len()
        invariant
            i <= s@.len(),
            out@ + without_escape(s@, c, i as int) == without_escape(s@, c, 0),
        decreases s@.len() - i,
    {
        if i + 1 < s.len() && s[i] == '\\' && s[i + 1] == c {
            i = i + 2;
        } else {
            let ghost rest = without_escape(s@, c, i + 1);
            assert(out@.push(s@[i as int]) + rest =~= out@ + (seq![s@[i as int]] + rest));
            out.push(s[i]);
            i = i + 1;
        }
    }
    assert(out@ + Seq::<char>::empty() =~= out@);
    out
}

fn remove_breaks(s: &Vec<char>) -> (r: Vec<char>)
    ensures
        r@ == without_breaks(s@),
{
    let mut out: Vec<char> = Vec::new();
    let mut i: usize = 0;
    while i < s.len()
        invariant
            i <= s@.len(),
            out@ == without_breaks(s@.subrange(0, i as int)),
        decreases s@.len() - i,
    {
        assert(s@.subrange(0, i + 1).drop_last() =~= s@.subrange(0, i as int));
        if s[i] != '\n' && s[i] != '\r' {
            out.push(s[i]);
        }
        i = i + 1;
    }
    assert(s@.subrange(0, s@.len() as int) =~= s@);
    out
}

/// Exec counterpart of `cleaned_content`.
pub fn clean_content(content: &str) -> (r: String)
    ensures
        r@ == cleaned_content(content@),
{
    let s = chars_of(content);
    let (a, b) = trim_bounds(&s);
    let mut t: Vec<char> = Vec::new();
    let mut i = a;
    while i < b
        invariant
            a <= i <= b <= s@.len(),
            t@ =~= s@.subrange(a as int, i as int),
        decreases b - i,
    {
        t.push(s[i]);
        i = i + 1;
    }
    let u = remove_escape(&t, 'n');
    let v = remove_escape(&u, 'r');
    let w = remove_breaks(&v);
    string_of(w.as_slice())
}

/// What the object of a single file yields.
pub enum Payload {
    /// The file's bytes.
    Bytes(Vec<u8>),
    /// No inline content: the file is to be fetched from this URL.
    Redirect(String),
}

pub enum PayloadView {
    Bytes(Seq<u8>),
    Redirect(Seq<char>),
}

impl View for Payload {
    type V = PayloadView;

    open spec fn view(&self) -> PayloadView {
        match self {
            Payload::Bytes(b) => PayloadView::Bytes(b@),
            Payload::Redirect(u) => PayloadView::Redirect(u@),
        }
    }
}

/// What an entry yields: its base64 content decoded, other inline content as
/// UTF-8, or else its download URL.
pub open spec fn entry_payload(e: FileView) -> Result<PayloadView, ErrorKind> {
    match e.content {
        Some(c) => if e.encoding == Some("base64"@) {
            match base64_decoded(cleaned_content(c)) {
                Some(b) => Ok(PayloadView::Bytes(b)),
                None => Err(ErrorKind::Parse),
            }
        } else {
            Ok(PayloadView::Bytes(vstd::utf8::encode_utf8(c)))
        },
        None => match e.download_url {
            Some(u) => Ok(PayloadView::Redirect(u)),
            None => Err(ErrorKind::Network),
        },
    }
}

/// What a single-file API response body yields.
pub open spec fn file_payload(body: Seq<u8>) -> Result<PayloadView, ErrorKind> {
    if !valid_utf8(body) {
        Err(ErrorKind::Parse)
    } else {
        match entry_of(decode_utf8(body)) {
            None => Err(ErrorKind::Parse),
            Some(e) => entry_payload(e),
        }
    }
}

fn is_base64_label(e: &Option<String>) -> (r: bool)
    ensures
        r == (crate::github::opt_view(*e) == Some("base64"@)),
{
    match e {
        Some(x) => {
            let a = chars_of(x.as_str());
            let b = chars_of("base64");
            assert(a@.subrange(0, a@.len() as int) =~= a@);
            crate::text::range_is(&a, 0, a.len(), &b)
        },
        None => false,
    }
}

/// Decodes the body of a single-file API response.
pub fn decode_file_response(body: &[u8]) -> (r: GcpResult<Payload>)
    ensures
        match file_payload(body@) {
            Ok(p) => r is Ok && r->Ok_0@ == p,
            Err(k) => r is Err && r->Err_0.kind() == k,
        },
{
    let text = match utf8_text(body) {
        Some(t) => t,
        None => {
            return Err(GcpError::ParseError("Invalid UTF-8 in response".to_string()));
        },
    };
    let file = match GitHubFile::from_json(text) {
        Ok(f) => f,
        Err(e) => {
            return Err(e);
        },
    };
    match &file.content {
        Some(c) => {
            if is_base64_label(&file.encoding) {
                let clean = clean_content(c.as_str());
                match Base64Decoder::decode(clean.as_str()) {
                    Ok(b) => Ok(Payload::Bytes(b)),
                    Err(e) => Err(e),
                }
            } else {
                let b = c.as_str().as_bytes();
                Ok(Payload::Bytes(vstd::slice::slice_to_vec(b)))
            }
        },
        None => match &file.download_url {
            Some(u) => Ok(Payload::Redirect(u.clone())),
            None => Err(GcpError::NetworkError("No file content available".to_string())),
        },
    }
}

/// Decodes the body of a listing response.
pub fn decode_listing_response(body: &[u8]) -> (r: GcpResult<Vec<GitHubFile>>)
    ensures
        !valid_utf8(body@) ==> r is Err && r->Err_0 is ParseError,
        valid_utf8(body@) ==> match listing_of(decode_utf8(body@)) {
            Some(entries) => r is Ok && crate::json::file_views(r->Ok_0@) == entries,
            None => r is Err && r->Err_0 is ParseError,
        },
{
    match utf8_text(body) {
        Some(t) => parse_github_file_array(t),
        None => Err(GcpError::ParseError("Invalid UTF-8 in response".to_string())),
    }
}

/// The host of the contents API.
pub open spec fn api_host() -> Seq<char> {
    "api.github.com"@
}

/// Where a file fetch stands.
#[derive(Debug, Clone, Copy, PartialEq, Eq, Structural)]
pub enum FetchStage {
    /// Waiting for the raw-content response.
    Raw,
    /// Waiting for the contents API response.
    Api,
    /// Waiting for the download-URL response.
    Download,
    /// Nothing more to do.
    Finished,
}

/// What the caller is to do next.
pub enum FetchStep {
    /// Perform a GET of `path` on `host` and report the exchange.
    Get { host: String, path: String },
    /// Wait `delay_ms` milliseconds, then repeat the GET of `path` on `host`.
    Retry { host: String, path: String, delay_ms: u64 },
    /// The file's bytes.
    Done(Vec<u8>),
    /// The fetch failed.
    Failed(GcpError),
}

pub enum StepView {
    Get(Seq<char>, Seq<char>),
    Retry(Seq<char>, Seq<char>, nat),
    Done(Seq<u8>),
    Failed(ErrorKind),
}

impl View for FetchStep {
    type V = StepView;

    open spec fn view(&self) -> StepView {
        match self {
            FetchStep::Get { host, path } => StepView::Get(host@, path@),
            FetchStep::Retry { host, path, delay_ms } => StepView::Retry(host@, path@, *delay_ms as nat),
            FetchStep::Done(b) => StepView::Done(b@),
            FetchStep::Failed(e) => StepView::Failed(e.kind()),
        }
    }
}

/// The request that reads `url`, if it is a well-formed `https` URL.
pub open spec fn request_for(url: Seq<char>) -> StepView {
    match split_url(url) {
        Some((h, p)) => StepView::Get(h, p),
        None => StepView::Failed(ErrorKind::InvalidUrl),
    }
}

/// The first step of fetching `u`.
pub open spec fn fetch_start(u: UrlParts) -> (FetchStage, StepView) {
    match u.url_type {
        UrlType::Repository => (FetchStage::Finished, StepView::Failed(ErrorKind::UnsupportedOperation)),
        UrlType::Folder => (FetchStage::Finished, StepView::Failed(ErrorKind::InvalidOperation)),
        UrlType::File => match split_url(u.raw_url()->Some_0) {
            Some((h, p)) => (FetchStage::Raw, StepView::Get(h, p)),
            None => (FetchStage::Api, StepView::Get(api_host(), u.api_path())),
        },
    }
}

/// The step after `stage` given what its request came to: a body or a failure.
pub open spec fn advance(stage: FetchStage, u: UrlParts, resp: Result<Seq<u8>, ErrorKind>) -> (
    FetchStage,
    StepView,
) {
    match stage {
        FetchStage::Raw => match resp {
            Ok(b) => (FetchStage::Finished, StepView::Done(b)),
            Err(_) => (FetchStage::Api, StepView::Get(api_host(), u.api_path())),
        },
        FetchStage::Api => match resp {
            Err(k) => (FetchStage::Finished, StepView::Failed(k)),
            Ok(b) => match file_payload(b) {
                Ok(PayloadView::Bytes(x)) => (FetchStage::Finished, StepView::Done(x)),
                Ok(PayloadView::Redirect(url)) => match request_for(url) {
                    StepView::Get(h, p) => (FetchStage::Download, StepView::Get(h, p)),
                    other => (FetchStage::Finished, other),
                },
                Err(k) => (FetchStage::Finished, StepView::Failed(k)),
            },
        },
        FetchStage::Download => match resp {
            Ok(b) => (FetchStage::Finished, StepView::Done(b)),
            Err(k) => (FetchStage::Finished, StepView::Failed(k)),
        },
        FetchStage::Finished => (FetchStage::Finished, StepView::Failed(ErrorKind::InvalidOperation)),
    }
}

/// The step after an exchange: the same request again, after a wait, while
/// a transient failure leaves repetitions to spend; else the stage advances
/// on the decoded response and the count of repetitions starts over.
pub open spec fn fetch_next(
    stage: FetchStage,
    retries: nat,
    host: Seq<char>,
    path: Seq<char>,
    u: UrlParts,
    exchange: Result<Seq<u8>, ErrorKind>,
) -> (FetchStage, nat, StepView) {
    if stage != FetchStage::Finished && retry_due(exchange, retries) {
        (stage, retries + 1, StepView::Retry(host, path, backoff(retries)))
    } else {
        let (s, step) = advance(stage, u, exchange_body(exchange));
        (s, 0, step)
    }
}

/// The request that a step leaves outstanding: the one it names, if any.
pub open spec fn outstanding(step: StepView, host: Seq<char>, path: Seq<char>) -> (Seq<char>, Seq<char>) {
    match step {
        StepView::Get(h, p) => (h, p),
        _ => (host, path),
    }
}

/// The fetch of one file.
pub struct FileFetch {
    pub url: GitHubUrl,
    pub stage: FetchStage,
    /// Repetitions of the outstanding request so far.
    pub retries: u32,
    /// The outstanding request.
    pub host: String,
    pub path: String,
}

fn api_request(url: &GitHubUrl) -> (r: (String, String))
    ensures
        r.0@ == api_host(),
        r.1@ == url@.api_path(),
{
    let mut host = String::new();
    push_str(&mut host, "api.github.com");
    (host, url.api_path())
}

fn get_step(host: &String, path: &String) -> (r: FetchStep)
    ensures
        r@ == StepView::Get(host@, path@),
{
    FetchStep::Get { host: host.clone(), path: path.clone() }
}

impl FileFetch {
    /// Begins fetching `url`: a request to the raw-content host for a file;
    /// `UnsupportedOperation` for a repository and `InvalidOperation` for a
    /// folder.
    pub fn start(url: GitHubUrl) -> (r: (FileFetch, FetchStep))
        ensures
            r.0.url == url,
            (r.0.stage, r.1@) == fetch_start(url@),
            r.0.retries == 0,
            (r.0.host@, r.0.path@) == outstanding(r.1@, Seq::<char>::empty(), Seq::<char>::empty()),
    {
        match url.url_type {
            UrlType::Repository => {
                let step = FetchStep::Failed(
                    GcpError::UnsupportedOperation("Repository downloads are not supported".to_string()),
                );
                (FileFetch { url, stage: FetchStage::Finished, retries: 0, host: String::new(), path: String::new() }, step)
            },
            UrlType::Folder => {
                let step = FetchStep::Failed(GcpError::InvalidOperation("Not a file URL".to_string()));
                (FileFetch { url, stage: FetchStage::Finished, retries: 0, host: String::new(), path: String::new() }, step)
            },
            UrlType::File => {
                let raw = match url.raw_url() {
                    Some(r) => r,
                    None => String::new(),
                };
                let (stage, host, path) = match parse_url(raw.as_str()) {
                    Ok((host, path)) => (FetchStage::Raw, host, path),
                    Err(_) => {
                        let (host, path) = api_request(&url);
                        (FetchStage::Api, host, path)
                    },
                };
                let step = get_step(&host, &path);
                (FileFetch { url, stage, retries: 0, host, path }, step)
            },
        }
    }

    /// Takes the exchange of the outstanding request (the raw bytes of the
    /// response, or the failure of the transport) and names the next step.
    pub fn on_response(&mut self, exchange: GcpResult<Vec<u8>>) -> (r: FetchStep)
        ensures
            final(self).url == old(self).url,
            (final(self).stage, final(self).retries as nat, r@) == fetch_next(
                old(self).stage,
                old(self).retries as nat,
                old(self).host@,
                old(self).path@,
                old(self).url@,
                exchange_view(exchange),
            ),
            (final(self).host@, final(self).path@) == outstanding(r@, old(self).host@, old(self).path@),
    {
        if self.stage != FetchStage::Finished && should_retry(&exchange, self.retries) {
            let delay_ms = backoff_ms(self.retries);
            self.retries = self.retries + 1;
            return FetchStep::Retry { host: self.host.clone(), path: self.path.clone(), delay_ms };
        }
        self.retries = 0;
        let response = decode_exchange(exchange);
        match self.stage {
            FetchStage::Raw => match response {
                Ok(b) => {
                    self.stage = FetchStage::Finished;
                    FetchStep::Done(b)
                },
                Err(_) => {
                    self.stage = FetchStage::Api;
                    let (host, path) = api_request(&self.url);
                    self.host = host;
                    self.path = path;
                    get_step(&self.host, &self.path)
                },
            },
            FetchStage::Api => match response {
                Err(e) => {
                    self.stage = FetchStage::Finished;
                    FetchStep::Failed(e)
                },
                Ok(b) => match decode_file_response(b.as_slice()) {
                    Ok(Payload::Bytes(x)) => {
                        self.stage = FetchStage::Finished;
                        FetchStep::Done(x)
                    },
                    Ok(Payload::Redirect(u)) => match parse_url(u.as_str()) {
                        Ok((host, path)) => {
                            self.stage = FetchStage::Download;
                            self.host = host;
                            self.path = path;
                            get_step(&self.host, &self.path)
                        },
                        Err(e) => {
                            self.stage = FetchStage::Finished;
                            FetchStep::Failed(e)
                        },
                    },
                    Err(e) => {
                        self.stage = FetchStage::Finished;
                        FetchStep::Failed(e)
                    },
                },
            },
            FetchStage::Download => {
                self.stage = FetchStage::Finished;
                match response {
                    Ok(b) => FetchStep::Done(b),
                    Err(e) => FetchStep::Failed(e),
                }
            },
            FetchStage::Finished => FetchStep::Failed(
                GcpError::InvalidOperation("The fetch has already finished".to_string()),
            ),
        }
    }
}

proof fn lemma_success_is_not_transient(raw: Seq<u8>)
    requires
        response_body(raw) is Ok,
    ensures
        !is_transient(Ok(raw)),
{
    let l = as_chars(raw.subrange(0, line_end(raw, 0)));
    reveal_strlit("HTTP/1.1 2");
    reveal_strlit("HTTP/1.0 2");
    assert(status_ok(raw.subrange(0, line_end(raw, 0))));
    assert(l[9] == '2') by {
        if occurs_at(l, "HTTP/1.1 2"@, 0) {
            assert(l.subrange(0, 10)[9] == l[9]);
        } else {
            assert(l.subrange(0, 10)[9] == l[9]);
        }
    }
    match status_code(raw) {
        Some(c) => {
            let d = l.subrange(9, 12);
            assert(d[0] == '2');
            assert(d.drop_last().drop_last() =~= seq![d[0]]);
            assert(seq![d[0]].drop_last() =~= Seq::<char>::empty());
            let a = digit_of(d[1], 10)->Some_0;
            let b = digit_of(d[2], 10)->Some_0;
            assert(digit_of(d[1], 10) is Some);
            assert(digit_of(d[2], 10) is Some);
            assert(digits_value(Seq::<char>::empty(), 10) == 0);
            assert(digit_of('2', 10) == Some(2nat));
            assert(seq![d[0]].last() == '2');
            assert(digits_value(seq![d[0]], 10) == 2);
            assert(digits_value(d.drop_last(), 10) == 2 * 10 + a);
            assert(c == (2 * 10 + a) * 10 + b);
            assert(a < 10 && b < 10);
        },
        None => {},
    }
}

/// When the raw-content request for a file fails in a way that is not
/// repeated (a 404, or a transient failure with no repetitions left), the
/// fetch turns to the contents API; and when that answers with an object
/// whose base64 content decodes, the fetch ends with those bytes.
pub proof fn lemma_raw_failure_falls_back(
    u: UrlParts,
    retries: nat,
    host: Seq<char>,
    path: Seq<char>,
    raw_exchange: Result<Seq<u8>, ErrorKind>,
    api_response: Seq<u8>,
)
    requires
        u.url_type == UrlType::File,
        !retry_due(raw_exchange, retries),
        exchange_body(raw_exchange) is Err,
        response_body(api_response) is Ok,
        ({
            let body = response_body(api_response)->Ok_0;
            &&& valid_utf8(body)
            &&& entry_of(decode_utf8(body)) is Some
            &&& entry_of(decode_utf8(body))->Some_0.content is Some
            &&& entry_of(decode_utf8(body))->Some_0.encoding == Some("base64"@)
            &&& base64_decoded(cleaned_content(entry_of(decode_utf8(body))->Some_0.content->Some_0)) is Some
        }),
    ensures
        fetch_start(u).0 == FetchStage::Raw || fetch_start(u).0 == FetchStage::Api,
        fetch_next(FetchStage::Raw, retries, host, path, u, raw_exchange) == (
            FetchStage::Api,
            0nat,
            StepView::Get(api_host(), u.api_path()),
        ),
        fetch_next(FetchStage::Api, 0, api_host(), u.api_path(), u, Ok(api_response)) == (
            FetchStage::Finished,
            0nat,
            StepView::Done(
                base64_decoded(
                    cleaned_content(
                        entry_of(decode_utf8(response_body(api_response)->Ok_0))->Some_0.content->Some_0,
                    ),
                )->Some_0,
            ),
        ),
{
    lemma_success_is_not_transient(api_response);
}

} // verus!
