use gcp::{extract_json_field, extract_optional_json_field, parse_github_file_array, GcpError, GitHubFile};

#[test]
fn field_extraction_finds_type() {
    let j = r#"{"name":"a.txt","type":"file"}"#;
    assert_eq!(extract_json_field(j, "type"), "file");
    assert_eq!(extract_json_field(j, "name"), "a.txt");
}

#[test]
fn absent_field_gives_no_value() {
    let j = r#"{"name":"a.txt","type":"file"}"#;
    assert_eq!(extract_json_field(j, "sha"), "");
    assert_eq!(extract_optional_json_field(j, "sha"), None);
}

#[test]
fn null_field_gives_no_value_by_its_own_path() {
    let j = r#"{"download_url":null,"type":"file"}"#;
    // The optional extractor recognises the literal null.
    assert_eq!(extract_optional_json_field(j, "download_url"), None);
    // The plain extractor does not: it takes the next quoted string.
    assert_eq!(extract_json_field(j, "download_url"), "type");
}

#[test]
fn empty_string_field_gives_no_value() {
    let j = r#"{"name":"x","encoding":""}"#;
    assert_eq!(extract_optional_json_field(j, "encoding"), None);
    assert_eq!(extract_json_field(j, "encoding"), "");
}

#[test]
fn from_json_reads_fields() {
    let j = r#"{"name":"a.txt","path":"d/a.txt","sha":"abc","type":"file","download_url":"https://raw.githubusercontent.com/o/r/main/d/a.txt","content":"QQ==","encoding":"base64"}"#;
    let f = GitHubFile::from_json(j).unwrap();
    assert_eq!(f.name, "a.txt");
    assert_eq!(f.path, "d/a.txt");
    assert_eq!(f.sha, "abc");
    assert_eq!(f.file_type, "file");
    assert!(f.is_file());
    assert!(!f.is_directory());
    assert_eq!(f.download_url.as_deref(), Some("https://raw.githubusercontent.com/o/r/main/d/a.txt"));
    assert_eq!(f.get_decoded_content(), Some(b"A".to_vec()));
}

#[test]
fn from_json_without_name_is_parse_error() {
    assert!(matches!(GitHubFile::from_json(r#"{"type":"file"}"#), Err(GcpError::ParseError(_))));
}

#[test]
fn listing_splits_objects_and_skips_bad_ones() {
    let j = r#" [ {"name":"a{b}.txt","path":"a{b}.txt","type":"file"}, {"type":"file"}, {"name":"d","path":"d","type":"dir"}, {"name":"m","path":"m","type":"submodule"} ] "#;
    let files = parse_github_file_array(j).unwrap();
    assert_eq!(files.len(), 3);
    assert_eq!(files[0].name, "a{b}.txt");
    assert!(files[1].is_directory());
    assert!(files[2].is_submodule());
    assert!(!files[2].is_symlink());
}

#[test]
fn listing_must_be_array() {
    assert!(matches!(parse_github_file_array(r#"{"name":"a"}"#), Err(GcpError::ParseError(_))));
    assert_eq!(parse_github_file_array("[]").unwrap().len(), 0);
}

#[test]
fn decoded_content_needs_canonical_padding() {
    let f = GitHubFile::from_json(r#"{"name":"a","content":"SGk","encoding":"base64"}"#).unwrap();
    assert_eq!(f.get_decoded_content(), None);
    let g = GitHubFile::from_json(r#"{"name":"a","content":"SGk=","encoding":"base64"}"#).unwrap();
    assert_eq!(g.get_decoded_content(), Some(b"Hi".to_vec()));
}

#[test]
fn decoded_content_needs_base64_label() {
    let f = GitHubFile::from_json(r#"{"name":"a","content":"QQ==","encoding":"utf-8"}"#).unwrap();
    assert_eq!(f.get_decoded_content(), None);
}

#[test]
fn empty_base64_content_decodes_to_nothing() {
    let f = GitHubFile {
        name: "e".to_string(),
        path: "e".to_string(),
        sha: String::new(),
        size: 0,
        url: String::new(),
        html_url: String::new(),
        git_url: String::new(),
        download_url: None,
        file_type: "file".to_string(),
        content: Some(String::new()),
        encoding: Some("base64".to_string()),
    };
    assert_eq!(f.get_decoded_content(), Some(Vec::new()));
}
