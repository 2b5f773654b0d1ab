use gcp::{
    decode_file_response, plan_file_destination, resolve_conflict, validate_safe_path, FetchStage,
    FetchStep, FileFetch, GcpError, GitHubUrl, IoFailure, MirrorAction, MirrorEngine, Payload,
    UrlType,
};

#[test]
fn test_resolve_conflict_no_existing_file() {
    let path = "/nonexistent/test.txt";
    let result = resolve_conflict(path, &[]);
    assert_eq!(result, path);
}

#[test]
fn test_resolve_conflict_with_existing_file() {
    let file_path = "/tmp/dir/test.txt";
    let existing = vec!["test.txt".to_string()];
    let resolved = resolve_conflict(file_path, &existing);
    assert_ne!(resolved, file_path);
    assert!(resolved.contains("test_1.txt"));
}

#[test]
fn conflict_takes_first_free_suffix() {
    let one = vec!["out.txt".to_string()];
    assert_eq!(resolve_conflict("out.txt", &one), "out_1.txt");
    let two = vec!["out.txt".to_string(), "out_1.txt".to_string()];
    assert_eq!(resolve_conflict("out.txt", &two), "out_2.txt");
    assert_eq!(resolve_conflict("d/README", &["README".to_string()]), "d/README_1");
    assert_eq!(resolve_conflict("d/.env", &[".env".to_string()]), "d/.env_1");
    assert_eq!(resolve_conflict("a.b/c", &["c".to_string()]), "a.b/c_1");
    assert_eq!(resolve_conflict("x.tar.gz", &["x.tar.gz".to_string()]), "x.tar_1.gz");
}

#[test]
fn destination_plan_honours_force_and_safety() {
    let existing = vec!["out.txt".to_string()];
    assert_eq!(plan_file_destination("out.txt", true, &existing).unwrap(), "out.txt");
    assert_eq!(plan_file_destination("out.txt", false, &existing).unwrap(), "out_1.txt");
    assert!(matches!(plan_file_destination("../out.txt", false, &existing), Err(GcpError::InvalidOperation(_))));
    assert!(validate_safe_path("a/b").is_ok());
    assert!(validate_safe_path("a/../b").is_err());
}

fn ok_response(body: &[u8]) -> Vec<u8> {
    let mut r = format!("HTTP/1.1 200 OK\r\nContent-Length: {}\r\n\r\n", body.len()).into_bytes();
    r.extend_from_slice(body);
    r
}

fn get_of(step: &FetchStep) -> (String, String) {
    match step {
        FetchStep::Get { host, path } => (host.clone(), path.clone()),
        _ => panic!("expected a request"),
    }
}

#[test]
fn raw_failure_falls_back_to_api_base64() {
    let url = GitHubUrl::parse("https://github.com/o/r/blob/main/a/b.txt").unwrap();
    let (mut fetch, step) = FileFetch::start(url);
    assert_eq!(fetch.stage, FetchStage::Raw);
    assert_eq!(get_of(&step), ("raw.githubusercontent.com".to_string(), "/o/r/main/a/b.txt".to_string()));
    let step = fetch.on_response(Ok(b"HTTP/1.1 404 Not Found\r\nContent-Length: 0\r\n\r\n".to_vec()));
    assert_eq!(fetch.stage, FetchStage::Api);
    assert_eq!(get_of(&step), ("api.github.com".to_string(), "/repos/o/r/contents/a/b.txt".to_string()));
    let api = br#"{"name":"b.txt","path":"a/b.txt","type":"file","content":"SGVsbG8g\nV29ybGQ=\n","encoding":"base64"}"#;
    match fetch.on_response(Ok(ok_response(api))) {
        FetchStep::Done(b) => assert_eq!(b, b"Hello World"),
        _ => panic!("expected the decoded bytes"),
    }
    assert_eq!(fetch.stage, FetchStage::Finished);
}

#[test]
fn raw_success_returns_body() {
    let url = GitHubUrl::parse("https://raw.githubusercontent.com/o/r/main/f").unwrap();
    let (mut fetch, _) = FileFetch::start(url);
    match fetch.on_response(Ok(ok_response(b"bytes"))) {
        FetchStep::Done(b) => assert_eq!(b, b"bytes"),
        _ => panic!("expected the body"),
    }
}

#[test]
fn api_without_content_follows_download_url() {
    let url = GitHubUrl::parse("https://github.com/o/r/blob/main/f").unwrap();
    let (mut fetch, _) = FileFetch::start(url);
    fetch.on_response(Ok(b"HTTP/1.1 403 Forbidden\r\n\r\n".to_vec()));
    let api = br#"{"name":"f","type":"file","download_url":"https://cdn.example/o/r/f","content":null}"#;
    let step = fetch.on_response(Ok(ok_response(api)));
    assert_eq!(fetch.stage, FetchStage::Download);
    assert_eq!(get_of(&step), ("cdn.example".to_string(), "/o/r/f".to_string()));
    match fetch.on_response(Ok(ok_response(b"data"))) {
        FetchStep::Done(b) => assert_eq!(b, b"data"),
        _ => panic!("expected the body"),
    }
}

#[test]
fn api_with_nothing_is_network_error() {
    let r = decode_file_response(br#"{"name":"f","type":"file","download_url":null}"#);
    assert!(matches!(r, Err(GcpError::NetworkError(_))));
    let plain = decode_file_response(br#"{"name":"f","content":"hi","encoding":"none"}"#);
    assert!(matches!(plain, Ok(Payload::Bytes(ref b)) if b == b"hi"));
    assert!(matches!(decode_file_response(&[0xff, 0xfe]), Err(GcpError::ParseError(_))));
    assert!(matches!(decode_file_response(br#"{"name":"f","content":"@@","encoding":"base64"}"#), Err(GcpError::ParseError(_))));
}

#[test]
fn repository_and_folder_are_not_fetched_as_files() {
    let repo = GitHubUrl::parse("https://github.com/o/r").unwrap();
    assert!(matches!(FileFetch::start(repo).1, FetchStep::Failed(GcpError::UnsupportedOperation(_))));
    let folder = GitHubUrl::parse("https://github.com/o/r/tree/main/d").unwrap();
    assert!(matches!(FileFetch::start(folder).1, FetchStep::Failed(GcpError::InvalidOperation(_))));
}

fn listing(objects: &[(&str, &str, &str)]) -> Vec<gcp::GitHubFile> {
    let body: Vec<String> = objects
        .iter()
        .map(|(name, path, kind)| format!(r#"{{"name":"{}","path":"{}","type":"{}"}}"#, name, path, kind))
        .collect();
    gcp::decode_listing_response(format!("[{}]", body.join(",")).as_bytes()).unwrap()
}

#[test]
fn mirror_writes_three_files_in_two_directories() {
    let url = GitHubUrl::parse("https://github.com/o/r/tree/main/top").unwrap();
    let mut engine = MirrorEngine::new(url, "out".to_string()).unwrap();
    let mut dirs: Vec<String> = Vec::new();
    let mut files: Vec<String> = Vec::new();
    loop {
        match engine.next_action() {
            MirrorAction::ListFolder { url, dest } => {
                dirs.push(dest.clone());
                let entries = match url.path.as_deref() {
                    Some("top") => listing(&[
                        ("a.txt", "top/a.txt", "file"),
                        ("sub", "top/sub", "dir"),
                        ("b.txt", "top/b.txt", "file"),
                        ("link", "top/link", "symlink"),
                    ]),
                    Some("top/sub") => listing(&[("c.txt", "top/sub/c.txt", "file")]),
                    _ => panic!("unexpected folder"),
                };
                engine.on_listing(&url, &dest, Ok(entries));
            }
            MirrorAction::FetchFile { url, dest } => {
                assert_eq!(url.url_type, UrlType::File);
                files.push(dest.clone());
                engine.on_file_result(dest, Ok(()));
            }
            MirrorAction::Finished => break,
        }
    }
    assert_eq!(engine.outcome.files_written, 3);
    assert_eq!(dirs, vec!["out".to_string(), "out/sub".to_string()]);
    assert_eq!(files, vec!["out/a.txt".to_string(), "out/sub/c.txt".to_string(), "out/b.txt".to_string()]);
}

#[test]
fn mirror_records_failures_and_tolerates_missing_listings() {
    let url = GitHubUrl::parse("https://github.com/o/r/tree/main/top").unwrap();
    let mut engine = MirrorEngine::new(url, "out/".to_string()).unwrap();
    let (url, dest) = match engine.next_action() {
        MirrorAction::ListFolder { url, dest } => (url, dest),
        _ => panic!("expected the root listing"),
    };
    engine.on_listing(&url, &dest, Ok(listing(&[("a", "top/a", "file"), ("d", "top/d", "dir"), ("b", "top/b", "file")])));
    match engine.next_action() {
        MirrorAction::FetchFile { dest, .. } => {
            assert_eq!(dest, "out/a");
            engine.on_file_result(dest, Err(GcpError::from_io(IoFailure::PermissionDenied, "denied".to_string())));
        }
        _ => panic!("expected a file"),
    }
    match engine.next_action() {
        MirrorAction::ListFolder { url, dest } => {
            engine.on_listing(&url, &dest, Err(GcpError::NetworkError("403".to_string())));
        }
        _ => panic!("expected the subfolder"),
    }
    match engine.next_action() {
        MirrorAction::FetchFile { dest, .. } => engine.on_file_result(dest, Ok(())),
        _ => panic!("expected a file"),
    }
    assert!(matches!(engine.next_action(), MirrorAction::Finished));
    assert_eq!(engine.outcome.files_written, 1);
    assert_eq!(engine.outcome.failures.len(), 1);
    assert_eq!(engine.outcome.failures[0].0, "out/a");
    assert!(matches!(engine.outcome.failures[0].1, GcpError::PermissionDenied(_)));
}

#[test]
fn mirror_refuses_non_folders() {
    let url = GitHubUrl::parse("https://github.com/o/r/blob/main/f").unwrap();
    assert!(matches!(MirrorEngine::new(url, "x".to_string()), Err(GcpError::InvalidOperation(_))));
}

#[test]
fn errors_describe_themselves() {
    assert_eq!(GcpError::InvalidUrl("x".to_string()).describe(), "Invalid URL: x");
    assert_eq!(GcpError::from_io(IoFailure::NotFound, "f".to_string()).describe(), "Not found: f");
    assert_eq!(GcpError::from_io(IoFailure::Other, "g".to_string()).describe(), "IO error: g");
}

#[test]
fn transient_failures_are_repeated_with_backoff() {
    let url = GitHubUrl::parse("https://github.com/o/r/blob/main/f").unwrap();
    let (mut fetch, _) = FileFetch::start(url);
    let unavailable = b"HTTP/1.1 503 Service Unavailable\r\n\r\n".to_vec();
    let mut delays = Vec::new();
    for _ in 0..3 {
        match fetch.on_response(Ok(unavailable.clone())) {
            FetchStep::Retry { host, path, delay_ms } => {
                assert_eq!(host, "raw.githubusercontent.com");
                assert_eq!(path, "/o/r/main/f");
                delays.push(delay_ms);
            }
            _ => panic!("expected a repetition"),
        }
    }
    assert_eq!(delays, vec![500, 1000, 2000]);
    // No repetitions left: the raw path is given up for the API.
    let step = fetch.on_response(Ok(unavailable));
    assert_eq!(fetch.stage, FetchStage::Api);
    assert_eq!(fetch.retries, 0);
    assert_eq!(get_of(&step).0, "api.github.com");
    // A transport failure and a rate limit are transient too.
    assert!(matches!(fetch.on_response(Err(GcpError::NetworkError("reset".to_string()))), FetchStep::Retry { .. }));
    assert!(matches!(
        fetch.on_response(Ok(b"HTTP/1.1 429 Too Many Requests\r\n\r\n".to_vec())),
        FetchStep::Retry { delay_ms: 1000, .. }
    ));
    // A 404 from the API is final.
    assert!(matches!(
        fetch.on_response(Ok(b"HTTP/1.1 404 Not Found\r\n\r\n".to_vec())),
        FetchStep::Failed(GcpError::NetworkError(_))
    ));
}
