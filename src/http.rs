//! HTTP/1.1 request framing and response decoding over the bytes of one
//! request/response cycle. The transport itself belongs to the caller.
use vstd::prelude::*;

use crate::error::{ErrorKind, GcpError, GcpResult};
use crate::text::{
    chars_of, find_char, find_char_from, find_from, find_seq, lemma_find_char_present, occurs,
    occurs_at, push_str,
    range_is, string_of_range, trim_bounds, trimmed,
};

verus! {

/// How decoding a response can fail, before it becomes a `GcpError`.
#[derive(Debug, Clone, Copy, PartialEq, Eq, Structural)]
pub enum WireFailure {
    /// A bad status or a body shorter than its framing says.
    Network,
    /// A chunk-size line that is not a hexadecimal number.
    Parse,
}

/// Bytes read as characters, one each.
pub open spec fn as_chars(b: Seq<u8>) -> Seq<char> {
    b.map_values(|x: u8| x as char)
}

/// ASCII letters in lower case, every other byte as it is.
pub open spec fn lower_byte(b: u8) -> u8 {
    if 65 <= b && b <= 90 {
        (b + 32) as u8
    } else {
        b
    }
}

/// A header line in lower case, as characters.
pub open spec fn lower_chars_of(b: Seq<u8>) -> Seq<char> {
    b.map_values(|x: u8| lower_byte(x) as char)
}

/// One past the `\n` that ends the line starting at `pos`, or the end of `s`.
pub open spec fn line_end(s: Seq<u8>, pos: int) -> int
    decreases s.len() - pos,
{
    if pos < 0 || pos >= s.len() {
        s.len() as int
    } else if s[pos] == 10 {
        pos + 1
    } else {
        line_end(s, pos + 1)
    }
}

/// The value of a digit in the given radix, if it is one.
pub open spec fn digit_of(c: char, radix: nat) -> Option<nat> {
    let v: int = if '0' <= c && c <= '9' {
        c as int - '0' as int
    } else if 'a' <= c && c <= 'z' {
        c as int - 'a' as int + 10
    } else if 'A' <= c && c <= 'Z' {
        c as int - 'A' as int + 10
    } else {
        radix as int
    };
    if v < radix {
        Some(v as nat)
    } else {
        None
    }
}

pub open spec fn all_digits(d: Seq<char>, radix: nat) -> bool {
    forall|i: int| 0 <= i < d.len() ==> (#[trigger] digit_of(d[i], radix)) is Some
}

/// The number that the digits `d` write in the given radix.
pub open spec fn digits_value(d: Seq<char>, radix: nat) -> nat
    decreases d.len(),
{
    if d.len() == 0 {
        0
    } else {
        digits_value(d.drop_last(), radix) * radix + digit_of(d.last(), radix)->Some_0
    }
}

/// An unsigned number as `usize::from_str_radix` reads it: an optional `+`,
/// then at least one digit, and a value that fits in `usize`.
pub open spec fn parse_unsigned(t: Seq<char>, radix: nat) -> Option<nat> {
    let d = if t.len() > 0 && t[0] == '+' {
        t.drop_first()
    } else {
        t
    };
    if d.len() == 0 || !all_digits(d, radix) || digits_value(d, radix) > usize::MAX {
        None
    } else {
        Some(digits_value(d, radix))
    }
}

/// What the headers say of the body's framing.
pub struct Framing {
    pub content_length: Option<nat>,
    pub chunked: bool,
}

/// The text after the first `:` of a header line, up to the next `:` or the end.
pub open spec fn header_value(l: Seq<char>) -> Seq<char> {
    let c1 = find_char_from(l, ':', 0)->Some_0;
    let c2 = match find_char_from(l, ':', c1 + 1) {
        Some(k) => k,
        None => l.len() as int,
    };
    trimmed(l.subrange(c1 + 1, c2))
}

/// What one header line adds to the framing.
pub open spec fn apply_header(line: Seq<u8>, f: Framing) -> Framing {
    let l = lower_chars_of(line);
    let f1 = if occurs_at(l, "content-length:"@, 0) {
        match parse_unsigned(header_value(l), 10) {
            Some(n) => Framing { content_length: Some(n), chunked: f.chunked },
            None => f,
        }
    } else {
        f
    };
    if occurs_at(l, "transfer-encoding:"@, 0) && find_from(l, "chunked"@, 0) is Some {
        Framing { content_length: f1.content_length, chunked: true }
    } else {
        f1
    }
}

/// Whether a line holds nothing but white space.
pub open spec fn is_blank(line: Seq<u8>) -> bool {
    trimmed(as_chars(line)).len() == 0
}

/// Reads header lines from `pos` up to a blank line or the end; gives where
/// the body starts and the framing the headers declared.
pub open spec fn scan_headers(s: Seq<u8>, pos: int, f: Framing) -> (int, Framing)
    decreases s.len() - pos,
{
    let e = line_end(s, pos);
    if pos < 0 || e <= pos || e > s.len() || is_blank(s.subrange(pos, e)) {
        (e, f)
    } else {
        scan_headers(s, e, apply_header(s.subrange(pos, e), f))
    }
}

/// The body of a chunked stream from `pos` on.
pub open spec fn chunked_body(s: Seq<u8>, pos: int) -> Result<Seq<u8>, WireFailure>
    decreases s.len() - pos,
{
    let e = line_end(s, pos);
    match parse_unsigned(trimmed(as_chars(s.subrange(pos, e))), 16) {
        None => Err(WireFailure::Parse),
        Some(n) => if n == 0 {
            Ok(Seq::empty())
        } else if e + n + 2 > s.len() || pos < 0 || e < pos {
            Err(WireFailure::Network)
        } else {
            match chunked_body(s, e + n + 2) {
                Ok(rest) => Ok(s.subrange(e, e + n) + rest),
                Err(x) => Err(x),
            }
        },
    }
}

/// Whether a status line reports success under HTTP/1.0 or HTTP/1.1.
pub open spec fn status_ok(line: Seq<u8>) -> bool {
    occurs_at(as_chars(line), "HTTP/1.1 2"@, 0) || occurs_at(as_chars(line), "HTTP/1.0 2"@, 0)
}

/// The body of a complete response, or why there is none.
pub open spec fn response_body(s: Seq<u8>) -> Result<Seq<u8>, WireFailure> {
    let e = line_end(s, 0);
    if !status_ok(s.subrange(0, e)) {
        Err(WireFailure::Network)
    } else {
        let (b, f) = scan_headers(s, e, Framing { content_length: None, chunked: false });
        match f.content_length {
            Some(n) => if b + n > s.len() {
                Err(WireFailure::Network)
            } else {
                Ok(s.subrange(b, b + n))
            },
            None => if f.chunked {
                chunked_body(s, b)
            } else {
                Ok(s.subrange(b, s.len() as int))
            },
        }
    }
}

/// Whether `r` is what a decoder owes for the outcome `w`.
pub open spec fn matches_wire(r: GcpResult<Vec<u8>>, w: Result<Seq<u8>, WireFailure>) -> bool {
    match w {
        Ok(b) => r is Ok && r->Ok_0@ == b,
        Err(WireFailure::Network) => r is Err && r->Err_0 is NetworkError,
        Err(WireFailure::Parse) => r is Err && r->Err_0 is ParseError,
    }
}

proof fn lemma_line_end_bounds(s: Seq<u8>, pos: int)
    requires
        0 <= pos <= s.len(),
    ensures
        pos <= line_end(s, pos) <= s.len(),
        pos < s.len() ==> pos < line_end(s, pos),
    decreases s.len() - pos,
{
    if pos < s.len() && s[pos] != 10 {
        lemma_line_end_bounds(s, pos + 1);
    }
}

/// Exec counterpart of `line_end`.
fn find_line_end(s: &[u8], pos: usize) -> (r: usize)
    requires
        pos <= s@.len(),
    ensures
        r == line_end(s@, pos as int),
        pos <= r <= s@.len(),
        pos < s@.len() ==> pos < r,
{
    proof {
        lemma_line_end_bounds(s@, pos as int);
    }
    let mut i = pos;
    while i < s.len() && s[i] != 10
        invariant
            pos <= i <= s@.len(),
            line_end(s@, i as int) == line_end(s@, pos as int),
        decreases s@.len() - i,
    {
        i = i + 1;
    }
    if i < s.len() {
        i + 1
    } else {
        i
    }
}

/// `s[from..to]`, each byte as a character.
fn chars_range(s: &[u8], from: usize, to: usize) -> (r: Vec<char>)
    requires
        from <= to <= s@.len(),
    ensures
        r@ == as_chars(s@.subrange(from as int, to as int)),
{
    let mut out: Vec<char> = Vec::new();
    let mut i = from;
    while i < to
        invariant
            from <= i <= to <= s@.len(),
            out@ =~= as_chars(s@.subrange(from as int, i as int)),
        decreases to - i,
    {
        out.push(s[i] as char);
        i = i + 1;
    }
    out
}

/// `s[from..to]` in lower case, each byte as a character.
fn lower_range(s: &[u8], from: usize, to: usize) -> (r: Vec<char>)
    requires
        from <= to <= s@.len(),
    ensures
        r@ == lower_chars_of(s@.subrange(from as int, to as int)),
{
    let mut out: Vec<char> = Vec::new();
    let mut i = from;
    while i < to
        invariant
            from <= i <= to <= s@.len(),
            out@ =~= lower_chars_of(s@.subrange(from as int, i as int)),
        decreases to - i,
    {
        let b = s[i];
        let l: u8 = if 65 <= b && b <= 90 {
            b + 32
        } else {
            b
        };
        out.push(l as char);
        i = i + 1;
    }
    out
}

/// `s[from..to]` as a vector.
fn bytes_range(s: &[u8], from: usize, to: usize) -> (r: Vec<u8>)
    requires
        from <= to <= s@.len(),
    ensures
        r@ == s@.subrange(from as int, to as int),
{
    let mut out: Vec<u8> = Vec::new();
    let mut i = from;
    while i < to
        invariant
            from <= i <= to <= s@.len(),
            out@ =~= s@.subrange(from as int, i as int),
        decreases to - i,
    {
        out.push(s[i]);
        i = i + 1;
    }
    out
}

fn digit_value(c: char, radix: u32) -> (r: Option<u32>)
    requires
        radix <= 36,
    ensures
        match digit_of(c, radix as nat) {
            Some(v) => r == Some(v as u32),
            None => r is None,
        },
{
    let v: u32 = if '0' <= c && c <= '9' {
        (c as u32) - ('0' as u32)
    } else if 'a' <= c && c <= 'z' {
        (c as u32) - ('a' as u32) + 10
    } else if 'A' <= c && c <= 'Z' {
        (c as u32) - ('A' as u32) + 10
    } else {
        radix
    };
    if v < radix {
        Some(v)
    } else {
        None
    }
}

proof fn lemma_digits_value_grows(d: Seq<char>, k: int, radix: nat)
    requires
        0 <= k <= d.len(),
        radix >= 1,
    ensures
        digits_value(d.subrange(0, k), radix) <= digits_value(d, radix),
    decreases d.len() - k,
{
    if k < d.len() {
        lemma_digits_value_grows(d, k + 1, radix);
        let p = d.subrange(0, k + 1);
        assert(p.drop_last() =~= d.subrange(0, k));
        let a = digits_value(d.subrange(0, k), radix);
        assert(a <= a * radix) by (nonlinear_arith)
            requires
                radix >= 1,
        ;
    } else {
        assert(d.subrange(0, k) =~= d);
    }
}

/// Exec counterpart of `parse_unsigned` on the characters `t`.
fn parse_unsigned_exec(t: &Vec<char>, from: usize, to: usize, radix: u32) -> (r: Option<usize>)
    requires
        from <= to <= t@.len(),
        2 <= radix <= 36,
    ensures
        match parse_unsigned(t@.subrange(from as int, to as int), radix as nat) {
            Some(n) => r == Some(n as usize),
            None => r is None,
        },
{
    let ghost whole = t@.subrange(from as int, to as int);
    let start = if from < to && t[from] == '+' {
        from + 1
    } else {
        from
    };
    let ghost d = t@.subrange(start as int, to as int);
    proof {
        if from < to && t@[from as int] == '+' {
            assert(whole.drop_first() =~= d);
        } else {
            assert(whole =~= d);
        }
        assert(parse_unsigned(whole, radix as nat) == if d.len() == 0 || !all_digits(d, radix as nat)
            || digits_value(d, radix as nat) > usize::MAX {
            None
        } else {
            Some(digits_value(d, radix as nat))
        });
    }
    if start == to {
        return None;
    }
    let mut acc: usize = 0;
    let mut i = start;
    while i < to
        invariant
            start <= i <= to <= t@.len(),
            d == t@.subrange(start as int, to as int),
            whole == t@.subrange(from as int, to as int),
            parse_unsigned(whole, radix as nat) == if d.len() == 0 || !all_digits(d, radix as nat)
                || digits_value(d, radix as nat) > usize::MAX {
                None
            } else {
                Some(digits_value(d, radix as nat))
            },
            2 <= radix <= 36,
            all_digits(t@.subrange(start as int, i as int), radix as nat),
            acc as nat == digits_value(t@.subrange(start as int, i as int), radix as nat),
        decreases to - i,
    {
        let ghost p = t@.subrange(start as int, i as int);
        let ghost q = t@.subrange(start as int, i + 1);
        proof {
            assert(q.drop_last() =~= p);
            assert(p =~= d.subrange(0, i - start));
            assert(q =~= d.subrange(0, i - start + 1));
        }
        let dv = match digit_value(t[i], radix) {
            Some(v) => v,
            None => {
                proof {
                    assert(d[i - start] == t@[i as int]);
                    assert(digit_of(d[i - start], radix as nat) is None);
                    assert(!all_digits(d, radix as nat));
                }
                return None;
            },
        };
        let next = match acc.checked_mul(radix as usize) {
            Some(m) => m.checked_add(dv as usize),
            None => None,
        };
        match next {
            Some(n) => {
                acc = n;
            },
            None => {
                proof {
                    lemma_digits_value_grows(d, i - start + 1, radix as nat);
                    assert(q.last() == t@[i as int]);
                    assert(digits_value(q, radix as nat) == digits_value(p, radix as nat) * radix
                        + digit_of(q.last(), radix as nat)->Some_0);
                    assert(digits_value(q, radix as nat) == acc * radix + dv);
                    assert(acc * radix + dv > usize::MAX);
                    assert(digits_value(d, radix as nat) > usize::MAX);
                }
                return None;
            },
        }
        proof {
            assert forall|j: int| 0 <= j < q.len() implies (#[trigger] digit_of(q[j], radix as nat)) is Some by {
                if j < p.len() {
                    assert(q[j] == p[j]);
                }
            }
        }
        i = i + 1;
    }
    assert(t@.subrange(start as int, to as int) =~= d);
    Some(acc)
}

/// The request that asks `host` for `path` and closes the connection after.
pub fn build_request(host: &str, path: &str) -> (r: String)
    ensures
        r@ == "GET "@ + path@ + " HTTP/1.1\r\nHost: "@ + host@
            + "\r\nUser-Agent: gcp/0.1.0\r\nConnection: close\r\nAccept: */*\r\n\r\n"@,
{
    let mut r = String::new();
    push_str(&mut r, "GET ");
    push_str(&mut r, path);
    push_str(&mut r, " HTTP/1.1\r\nHost: ");
    push_str(&mut r, host);
    push_str(&mut r, "\r\nUser-Agent: gcp/0.1.0\r\nConnection: close\r\nAccept: */*\r\n\r\n");
    r
}

/// The request for `path` on `host`, carrying `token` as a bearer credential
/// when one is given and the host is the contents API; other hosts never
/// see it.
pub fn build_request_for(host: &str, path: &str, token: Option<&str>) -> (r: String)
    ensures
        match token {
            Some(t) if host@ == "api.github.com"@ => r@ == "GET "@ + path@ + " HTTP/1.1\r\nHost: "@
                + host@ + "\r\nUser-Agent: gcp/0.1.0\r\nConnection: close\r\nAccept: */*\r\n"@
                + "Authorization: Bearer "@ + t@ + "\r\n\r\n"@,
            _ => r@ == "GET "@ + path@ + " HTTP/1.1\r\nHost: "@ + host@
                + "\r\nUser-Agent: gcp/0.1.0\r\nConnection: close\r\nAccept: */*\r\n\r\n"@,
        },
{
    let h = chars_of(host);
    let api = chars_of("api.github.com");
    proof {
        assert(h@.subrange(0, h@.len() as int) =~= h@);
    }
    match token {
        Some(t) => {
            if range_is(&h, 0, h.len(), &api) {
                let mut r = String::new();
                push_str(&mut r, "GET ");
                push_str(&mut r, path);
                push_str(&mut r, " HTTP/1.1\r\nHost: ");
                push_str(&mut r, host);
                push_str(&mut r, "\r\nUser-Agent: gcp/0.1.0\r\nConnection: close\r\nAccept: */*\r\n");
                push_str(&mut r, "Authorization: Bearer ");
                push_str(&mut r, t);
                push_str(&mut r, "\r\n\r\n");
                r
            } else {
                build_request(host, path)
            }
        },
        None => build_request(host, path),
    }
}

/// The host and path of an `https` URL, as `parse_url` splits it.
pub open spec fn split_url(s: Seq<char>) -> Option<(Seq<char>, Seq<char>)> {
    if !(s.len() >= 8 && s.subrange(0, 8) == "https://"@) {
        None
    } else {
        match find_char_from(s, '/', 8) {
            None => None,
            Some(k) => Some(
                (
                    s.subrange(8, k),
                    if k < s.len() - 1 {
                        s.subrange(k, s.len() as int)
                    } else {
                        "/"@
                    },
                ),
            ),
        }
    }
}

/// Splits an `https` URL into its host and its path (`/` when the path is empty).
pub fn parse_url(url: &str) -> (r: GcpResult<(String, String)>)
    ensures
        r is Ok <==> split_url(url@) is Some,
        r is Ok ==> r->Ok_0.0@ == split_url(url@)->Some_0.0 && r->Ok_0.1@
            == split_url(url@)->Some_0.1,
        r is Err ==> r->Err_0 is InvalidUrl,
{
    let s = chars_of(url);
    let scheme = chars_of("https://");
    if s.len() < 8 || !range_is(&s, 0, 8, &scheme) {
        return Err(GcpError::InvalidUrl("Only HTTPS URLs are supported".to_string()));
    }
    match find_char(&s, '/', 8) {
        Some(k) => {
            let host = string_of_range(&s, 8, k);
            let path = if k < s.len() - 1 {
                string_of_range(&s, k, s.len())
            } else {
                let mut p = String::new();
                push_str(&mut p, "/");
                p
            };
            Ok((host, path))
        },
        None => Err(GcpError::InvalidUrl("Invalid URL format".to_string())),
    }
}

fn is_blank_line(s: &[u8], from: usize, to: usize) -> (r: bool)
    requires
        from <= to <= s@.len(),
    ensures
        r == is_blank(s@.subrange(from as int, to as int)),
{
    let c = chars_range(s, from, to);
    let (a, b) = trim_bounds(&c);
    a == b
}

/// Exec counterpart of `apply_header` for the line `s[from..to]`.
fn header_framing(s: &[u8], from: usize, to: usize, length: Option<usize>, chunked: bool) -> (r: (
    Option<usize>,
    bool,
))
    requires
        from <= to <= s@.len(),
    ensures
        ({
            let f = apply_header(
                s@.subrange(from as int, to as int),
                Framing {
                    content_length: match length {
                        Some(n) => Some(n as nat),
                        None => None,
                    },
                    chunked,
                },
            );
            &&& f.chunked == r.1
            &&& match f.content_length {
                Some(n) => r.0 == Some(n as usize),
                None => r.0 is None,
            }
        }),
{
    let l = lower_range(s, from, to);
    let mut length = length;
    let mut chunked = chunked;
    if occurs(&l, &chars_of("content-length:"), 0) {
        let c1 = match find_char(&l, ':', 0) {
            Some(k) => k,
            None => {
                proof {
                    reveal_strlit("content-length:");
                    assert(l@.subrange(0, 15)[14] == l@[14]);
                    assert(find_char_from(l@, ':', 0) is Some) by {
                        lemma_find_char_present(l@, ':', 0, 14);
                    }
                }
                0
            },
        };
        let c2 = match find_char(&l, ':', c1 + 1) {
            Some(k) => k,
            None => l.len(),
        };
        let v = chars_of(string_of_range(&l, c1 + 1, c2).as_str());
        let (a, b) = trim_bounds(&v);
        match parse_unsigned_exec(&v, a, b, 10) {
            Some(n) => {
                length = Some(n);
            },
            None => {},
        }
    }
    if occurs(&l, &chars_of("transfer-encoding:"), 0) && find_seq(&l, &chars_of("chunked"), 0).is_some() {
        chunked = true;
    }
    (length, chunked)
}

/// Reads a chunked body from `pos`: size lines in hexadecimal, each followed
/// by that many bytes and a line break, up to a size of zero.
fn read_chunks(s: &[u8], pos: usize) -> (r: GcpResult<Vec<u8>>)
    requires
        pos <= s@.len(),
    ensures
        matches_wire(r, chunked_body(s@, pos as int)),
{
    let mut body: Vec<u8> = Vec::new();
    let mut p = pos;
    loop
        invariant
            pos <= p <= s@.len(),
            ({
                match chunked_body(s@, pos as int) {
                    Ok(all) => match chunked_body(s@, p as int) {
                        Ok(rest) => all == body@ + rest,
                        Err(_) => false,
                    },
                    Err(x) => chunked_body(s@, p as int) == Err::<Seq<u8>, WireFailure>(x),
                }
            }),
        decreases s@.len() - p,
    {
        let e = find_line_end(s, p);
        let c = chars_range(s, p, e);
        let (a, b) = trim_bounds(&c);
        match parse_unsigned_exec(&c, a, b, 16) {
            None => {
                return Err(GcpError::ParseError("Invalid chunk size".to_string()));
            },
            Some(n) => {
                if n == 0 {
                    assert(body@ + Seq::<u8>::empty() =~= body@);
                    return Ok(body);
                }
                if n > s.len() - e || s.len() - e - n < 2 {
                    return Err(GcpError::NetworkError("Failed to read chunk".to_string()));
                }
                let chunk = bytes_range(s, e, e + n);
                let ghost old_body = body@;
                body.extend_from_slice(chunk.as_slice());
                proof {
                    match chunked_body(s@, pos as int) {
                        Ok(all) => {
                            let rest = chunked_body(s@, (e + n + 2) as int)->Ok_0;
                            assert(all == old_body + (chunk@ + rest));
                            assert(old_body + (chunk@ + rest) =~= body@ + rest);
                        },
                        Err(_) => {},
                    }
                }
                p = e + n + 2;
            },
        }
    }
}

/// Decodes a chunked body: the whole of `data` is the chunk stream.
pub fn read_chunked_body(data: &[u8]) -> (r: GcpResult<Vec<u8>>)
    ensures
        matches_wire(r, chunked_body(data@, 0)),
{
    read_chunks(data, 0)
}

/// Decodes the bytes of a complete response: checks for a 2xx status, reads
/// the headers, and frames the body by Content-Length, by chunks, or by the
/// end of the stream.
pub fn read_http_response(data: &[u8]) -> (r: GcpResult<Vec<u8>>)
    ensures
        matches_wire(r, response_body(data@)),
{
    let e = find_line_end(data, 0);
    let status = chars_range(data, 0, e);
    if !(occurs(&status, &chars_of("HTTP/1.1 2"), 0) || occurs(&status, &chars_of("HTTP/1.0 2"), 0)) {
        let (a, b) = trim_bounds(&status);
        let mut message = String::new();
        push_str(&mut message, "HTTP request failed: ");
        let line = string_of_range(&status, a, b);
        push_str(&mut message, line.as_str());
        return Err(GcpError::NetworkError(message));
    }
    let mut length: Option<usize> = None;
    let mut chunked = false;
    let mut p = e;
    loop
        invariant_except_break
            e <= p <= data@.len(),
            scan_headers(data@, e as int, Framing { content_length: None, chunked: false })
                == scan_headers(
                data@,
                p as int,
                Framing {
                    content_length: match length {
                        Some(n) => Some(n as nat),
                        None => None,
                    },
                    chunked,
                },
            ),
        ensures
            e <= p <= data@.len(),
            scan_headers(data@, e as int, Framing { content_length: None, chunked: false }) == (
                p as int,
                Framing {
                    content_length: match length {
                        Some(n) => Some(n as nat),
                        None => None,
                    },
                    chunked,
                },
            ),
        decreases data@.len() - p,
    {
        let q = find_line_end(data, p);
        if q <= p || is_blank_line(data, p, q) {
            p = q;
            break;
        }
        let (l, c) = header_framing(data, p, q, length, chunked);
        length = l;
        chunked = c;
        p = q;
    }
    match length {
        Some(n) => {
            if n > data.len() - p {
                Err(GcpError::NetworkError("Failed to read body".to_string()))
            } else {
                Ok(bytes_range(data, p, p + n))
            }
        },
        None => {
            if chunked {
                read_chunks(data, p)
            } else {
                Ok(bytes_range(data, p, data.len()))
            }
        },
    }
}

/// The three-digit status code of an HTTP/1.0 or HTTP/1.1 status line.
pub open spec fn status_code(s: Seq<u8>) -> Option<nat> {
    let l = as_chars(s.subrange(0, line_end(s, 0)));
    if (occurs_at(l, "HTTP/1.1 "@, 0) || occurs_at(l, "HTTP/1.0 "@, 0)) && l.len() >= 12
        && all_digits(l.subrange(9, 12), 10) {
        Some(digits_value(l.subrange(9, 12), 10))
    } else {
        None
    }
}

/// The status code of a response, if its status line has one.
pub fn response_status(data: &[u8]) -> (r: Option<u16>)
    ensures
        match status_code(data@) {
            Some(c) => r is Some && r->Some_0 as nat == c,
            None => r is None,
        },
{
    let e = find_line_end(data, 0);
    let l = chars_range(data, 0, e);
    if !(occurs(&l, &chars_of("HTTP/1.1 "), 0) || occurs(&l, &chars_of("HTTP/1.0 "), 0)) || l.len() < 12 {
        return None;
    }
    let mut v: u16 = 0;
    let mut i: usize = 9;
    while i < 12
        invariant
            9 <= i <= 12 <= l@.len(),
            l@ == as_chars(data@.subrange(0, line_end(data@, 0))),
            occurs_at(l@, "HTTP/1.1 "@, 0) || occurs_at(l@, "HTTP/1.0 "@, 0),
            all_digits(l@.subrange(9, i as int), 10),
            v as nat == digits_value(l@.subrange(9, i as int), 10),
            v < 1000,
            i == 9 ==> v == 0,
            i == 10 ==> v < 10,
            i == 11 ==> v < 100,
        decreases 12 - i,
    {
        let ghost p = l@.subrange(9, i as int);
        let ghost q = l@.subrange(9, i + 1);
        proof {
            assert(q.drop_last() =~= p);
            assert(q.last() == l@[i as int]);
        }
        match digit_value(l[i], 10) {
            Some(d) => {
                proof {
                    assert forall|j: int| 0 <= j < q.len() implies (#[trigger] digit_of(q[j], 10)) is Some by {
                        if j < p.len() {
                            assert(q[j] == p[j]);
                        }
                    }
                }
                v = v * 10 + d as u16;
            },
            None => {
                proof {
                    let w = l@.subrange(9, 12);
                    assert(w[i - 9] == l@[i as int]);
                    assert(!all_digits(w, 10));
                }
                return None;
            },
        }
        i = i + 1;
    }
    Some(v)
}

/// How many times one request is repeated after its first attempt.
pub open spec fn max_retries() -> nat {
    3
}

/// Whether an exchange failed in a way worth repeating: the transport
/// failed, or the server answered 5xx or 429.
pub open spec fn is_transient(exchange: Result<Seq<u8>, ErrorKind>) -> bool {
    match exchange {
        Err(_) => true,
        Ok(raw) => match status_code(raw) {
            Some(c) => (500 <= c && c <= 599) || c == 429,
            None => false,
        },
    }
}

/// Whether to repeat a request after `retries` repetitions so far.
pub open spec fn retry_due(exchange: Result<Seq<u8>, ErrorKind>, retries: nat) -> bool {
    retries < max_retries() && is_transient(exchange)
}

/// An exchange as the decoder sees it: the raw bytes of a response, or the
/// kind of failure that kept it from arriving.
pub open spec fn exchange_view(exchange: GcpResult<Vec<u8>>) -> Result<Seq<u8>, ErrorKind> {
    match exchange {
        Ok(raw) => Ok(raw@),
        Err(e) => Err(e.kind()),
    }
}

/// Exec counterpart of `retry_due`.
pub fn should_retry(exchange: &GcpResult<Vec<u8>>, retries: u32) -> (r: bool)
    ensures
        r == retry_due(exchange_view(*exchange), retries as nat),
{
    if retries >= 3 {
        return false;
    }
    match exchange {
        Err(_) => true,
        Ok(raw) => match response_status(raw.as_slice()) {
            Some(c) => (500 <= c && c <= 599) || c == 429,
            None => false,
        },
    }
}

/// The wait before repetition number `retries + 1`: half a second, doubled
/// for each repetition before it.
pub open spec fn backoff(retries: nat) -> nat
    decreases retries,
{
    if retries == 0 {
        500
    } else {
        2 * backoff((retries - 1) as nat)
    }
}

/// Exec counterpart of `backoff`, for the repetitions that `retry_due` allows.
pub fn backoff_ms(retries: u32) -> (r: u64)
    requires
        retries < 3,
    ensures
        r == backoff(retries as nat),
{
    proof {
        assert(backoff(0) == 500);
        assert(backoff(1) == 1000);
        assert(backoff(2) == 2000);
    }
    if retries == 0 {
        500
    } else if retries == 1 {
        1000
    } else {
        2000
    }
}

/// What a decoded exchange gives: the body, or the kind of failure.
pub open spec fn exchange_body(exchange: Result<Seq<u8>, ErrorKind>) -> Result<Seq<u8>, ErrorKind> {
    match exchange {
        Ok(raw) => match response_body(raw) {
            Ok(b) => Ok(b),
            Err(WireFailure::Network) => Err(ErrorKind::Network),
            Err(WireFailure::Parse) => Err(ErrorKind::Parse),
        },
        Err(k) => Err(k),
    }
}

/// Decodes an exchange: the response's body, or the failure that came instead.
pub fn decode_exchange(exchange: GcpResult<Vec<u8>>) -> (r: GcpResult<Vec<u8>>)
    ensures
        match exchange_body(exchange_view(exchange)) {
            Ok(b) => r is Ok && r->Ok_0@ == b,
            Err(k) => r is Err && r->Err_0.kind() == k,
        },
{
    match exchange {
        Ok(raw) => read_http_response(raw.as_slice()),
        Err(e) => Err(e),
    }
}

} // verus!
