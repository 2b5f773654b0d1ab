use gcp::{download_destination, validate_github_url, validate_local_path, GcpError, GitHubUrl, UrlType};

#[test]
fn classifies_blob_url_as_file() {
    let u = GitHubUrl::parse("https://github.com/o/r/blob/main/a/b.txt").unwrap();
    assert_eq!(u.url_type, UrlType::File);
    assert_eq!(u.owner, "o");
    assert_eq!(u.repo, "r");
    assert_eq!(u.ref_.as_deref(), Some("main"));
    assert_eq!(u.path.as_deref(), Some("a/b.txt"));
    assert_eq!(u.filename().as_deref(), Some("b.txt"));
}

#[test]
fn classifies_tree_url_as_folder() {
    let u = GitHubUrl::parse("https://github.com/o/r/tree/main/dir").unwrap();
    assert_eq!(u.url_type, UrlType::Folder);
    assert_eq!(u.path.as_deref(), Some("dir"));
}

#[test]
fn classifies_bare_repo_url() {
    let u = GitHubUrl::parse("https://github.com/o/r").unwrap();
    assert_eq!(u.url_type, UrlType::Repository);
    assert_eq!(u.path, None);
    assert_eq!(u.ref_, None);
    assert_eq!(u.filename(), None);
}

#[test]
fn rejects_other_hosts_schemes_and_indicators() {
    assert!(matches!(GitHubUrl::parse("https://gitlab.com/o/r/blob/main/a"), Err(GcpError::InvalidUrl(_))));
    assert!(matches!(GitHubUrl::parse("http://github.com/o/r"), Err(GcpError::InvalidUrl(_))));
    assert!(matches!(GitHubUrl::parse("https://github.com/o/r/commits/main"), Err(GcpError::InvalidUrl(_))));
    assert!(matches!(GitHubUrl::parse("https://github.com/o"), Err(GcpError::InvalidUrl(_))));
}

#[test]
fn classifies_raw_urls() {
    let u = GitHubUrl::parse("https://raw.githubusercontent.com/o/r/dev/x/y.rs").unwrap();
    assert_eq!(u.url_type, UrlType::File);
    assert_eq!(u.ref_.as_deref(), Some("dev"));
    assert_eq!(u.path.as_deref(), Some("x/y.rs"));
    let v = GitHubUrl::parse("https://raw.githubusercontent.com/o/r/dev").unwrap();
    assert_eq!(v.url_type, UrlType::Repository);
    assert!(matches!(GitHubUrl::parse("https://raw.githubusercontent.com/o/r"), Err(GcpError::InvalidUrl(_))));
}

#[test]
fn derives_api_and_raw_addresses() {
    let u = GitHubUrl::parse("https://github.com/o/r/blob/v1/a/b.txt").unwrap();
    assert_eq!(u.api_path(), "/repos/o/r/contents/a/b.txt");
    assert_eq!(u.api_url(), "https://api.github.com/repos/o/r/contents/a/b.txt");
    assert_eq!(u.raw_url().as_deref(), Some("https://raw.githubusercontent.com/o/r/v1/a/b.txt"));
    let f = GitHubUrl::parse("https://github.com/o/r/tree/main/d").unwrap();
    assert_eq!(f.raw_url(), None);
    let repo = GitHubUrl::parse("https://github.com/o/r").unwrap();
    assert_eq!(repo.api_path(), "/repos/o/r");
    let no_ref = GitHubUrl { owner: "o".to_string(), repo: "r".to_string(), path: Some("p".to_string()), ref_: None, url_type: UrlType::File };
    assert_eq!(no_ref.raw_url().as_deref(), Some("https://raw.githubusercontent.com/o/r/main/p"));
}

#[test]
fn leading_slashes_after_host_are_skipped() {
    let u = GitHubUrl::parse("https://github.com//o/r/blob/main/f").unwrap();
    assert_eq!(u.owner, "o");
    assert_eq!(u.path.as_deref(), Some("f"));
}

#[test]
fn validates_cli_arguments() {
    assert!(validate_github_url("").is_err());
    assert!(validate_github_url("https://example.com/x").is_err());
    assert_eq!(validate_github_url("https://github.com/o/r").unwrap(), "https://github.com/o/r");
    assert!(validate_local_path("a\0b").is_err());
    assert_eq!(validate_local_path("out/dir").unwrap(), "out/dir");
}

#[test]
fn chooses_download_destination() {
    let u = GitHubUrl::parse("https://github.com/o/r/blob/main/a/b.txt").unwrap();
    assert_eq!(download_destination(&u, ".").unwrap(), "b.txt");
    assert_eq!(download_destination(&u, "x.txt").unwrap(), "x.txt");
    let repo = GitHubUrl::parse("https://github.com/o/r").unwrap();
    assert!(matches!(download_destination(&repo, "."), Err(GcpError::InvalidUrl(_))));
}
