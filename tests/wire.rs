use gcp::{backoff_ms, build_request, build_request_for, decode_exchange, parse_url, response_status, should_retry, read_chunked_body, read_http_response, GcpError};

#[test]
fn chunked_body_decodes_wikipedia() {
    let body = read_chunked_body(b"4\r\nWiki\r\n5\r\npedia\r\n0\r\n\r\n").unwrap();
    assert_eq!(body, b"Wikipedia");
}

#[test]
fn chunked_body_hex_sizes_and_trailers() {
    let body = read_chunked_body(b"A\r\n0123456789\r\n1;\r\n").err();
    assert!(matches!(body, Some(GcpError::ParseError(_))));
    let ok = read_chunked_body(b"a\r\n0123456789\r\n0\r\nX-Trailer: 1\r\n\r\n").unwrap();
    assert_eq!(ok, b"0123456789");
}

#[test]
fn chunked_body_short_chunk_is_network_error() {
    assert!(matches!(read_chunked_body(b"9\r\nWiki\r\n"), Err(GcpError::NetworkError(_))));
}

#[test]
fn chunked_body_bad_size_is_parse_error() {
    assert!(matches!(read_chunked_body(b"zz\r\nWiki\r\n0\r\n\r\n"), Err(GcpError::ParseError(_))));
}

#[test]
fn response_with_content_length() {
    let r = read_http_response(b"HTTP/1.1 200 OK\r\nContent-Type: text/plain\r\ncontent-LENGTH: 5\r\n\r\nhello world").unwrap();
    assert_eq!(r, b"hello");
}

#[test]
fn response_short_body_is_network_error() {
    let r = read_http_response(b"HTTP/1.1 200 OK\r\nContent-Length: 50\r\n\r\nhello");
    assert!(matches!(r, Err(GcpError::NetworkError(_))));
}

#[test]
fn response_chunked() {
    let r = read_http_response(b"HTTP/1.0 200 OK\r\nTransfer-Encoding: Chunked\r\n\r\n4\r\nWiki\r\n5\r\npedia\r\n0\r\n\r\n").unwrap();
    assert_eq!(r, b"Wikipedia");
}

#[test]
fn response_unframed_reads_to_end() {
    let r = read_http_response(b"HTTP/1.1 204 No Content\r\nServer: x\r\n\r\nrest of it").unwrap();
    assert_eq!(r, b"rest of it");
}

#[test]
fn response_non_2xx_is_network_error_with_status_line() {
    match read_http_response(b"HTTP/1.1 404 Not Found\r\n\r\n") {
        Err(GcpError::NetworkError(m)) => assert_eq!(m, "HTTP request failed: HTTP/1.1 404 Not Found"),
        other => panic!("unexpected {:?}", other),
    }
    assert!(matches!(read_http_response(b""), Err(GcpError::NetworkError(_))));
}

#[test]
fn request_is_framed() {
    assert_eq!(
        build_request("api.github.com", "/repos/o/r"),
        "GET /repos/o/r HTTP/1.1\r\nHost: api.github.com\r\nUser-Agent: gcp/0.1.0\r\nConnection: close\r\nAccept: */*\r\n\r\n"
    );
}

#[test]
fn url_splits_into_host_and_path() {
    assert_eq!(parse_url("https://h.example/a/b").unwrap(), ("h.example".to_string(), "/a/b".to_string()));
    assert_eq!(parse_url("https://h.example/").unwrap(), ("h.example".to_string(), "/".to_string()));
    assert!(matches!(parse_url("https://h.example"), Err(GcpError::InvalidUrl(_))));
    assert!(matches!(parse_url("http://h.example/x"), Err(GcpError::InvalidUrl(_))));
}

#[test]
fn token_goes_only_to_the_api_host() {
    assert_eq!(
        build_request_for("api.github.com", "/repos/o/r", Some("abc")),
        "GET /repos/o/r HTTP/1.1\r\nHost: api.github.com\r\nUser-Agent: gcp/0.1.0\r\nConnection: close\r\nAccept: */*\r\nAuthorization: Bearer abc\r\n\r\n"
    );
    assert_eq!(
        build_request_for("raw.githubusercontent.com", "/o/r/main/f", Some("abc")),
        build_request("raw.githubusercontent.com", "/o/r/main/f")
    );
    assert_eq!(build_request_for("api.github.com", "/x", None), build_request("api.github.com", "/x"));
}

#[test]
fn status_codes_and_retry_policy() {
    assert_eq!(response_status(b"HTTP/1.1 503 Service Unavailable\r\n"), Some(503));
    assert_eq!(response_status(b"HTTP/1.0 200 OK\r\n"), Some(200));
    assert_eq!(response_status(b"HTTP/2 200\r\n"), None);
    assert_eq!(response_status(b"HTTP/1.1 2x0 OK\r\n"), None);
    assert!(should_retry(&Ok(b"HTTP/1.1 500 Internal Server Error\r\n\r\n".to_vec()), 0));
    assert!(should_retry(&Ok(b"HTTP/1.1 429 Too Many Requests\r\n\r\n".to_vec()), 2));
    assert!(!should_retry(&Ok(b"HTTP/1.1 429 Too Many Requests\r\n\r\n".to_vec()), 3));
    assert!(!should_retry(&Ok(b"HTTP/1.1 404 Not Found\r\n\r\n".to_vec()), 0));
    assert!(should_retry(&Err(GcpError::NetworkError("refused".to_string())), 1));
    assert_eq!((backoff_ms(0), backoff_ms(1), backoff_ms(2)), (500, 1000, 2000));
    assert_eq!(decode_exchange(Ok(b"HTTP/1.1 200 OK\r\n\r\nhi".to_vec())).unwrap(), b"hi");
}
