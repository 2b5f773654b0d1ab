//! Classifies a source URL into a resource descriptor and derives the
//! addresses that the fetcher needs from it.
use vstd::prelude::*;

use crate::error::{GcpError, GcpResult};
use crate::text::{
    chars_of, find_char, find_char_from, join_from, join_with, push_str, range_is, skip_char,
    skip_chars, split_chars, split_on, string_of, string_of_range, views,
};

verus! {

/// What a URL names.
#[derive(Debug, Clone, Copy, PartialEq, Eq, Structural)]
pub enum UrlType {
    File,
    Folder,
    Repository,
}

/// A resource descriptor: where in which repository, at which ref, and of what kind.
#[derive(Debug, Clone)]
pub struct GitHubUrl {
    pub owner: String,
    pub repo: String,
    pub path: Option<String>,
    pub ref_: Option<String>,
    pub url_type: UrlType,
}

/// The mathematical content of a `GitHubUrl`.
pub struct UrlParts {
    pub owner: Seq<char>,
    pub repo: Seq<char>,
    pub path: Option<Seq<char>>,
    pub ref_: Option<Seq<char>>,
    pub url_type: UrlType,
}

pub open spec fn opt_view(o: Option<String>) -> Option<Seq<char>> {
    match o {
        Some(s) => Some(s@),
        None => None,
    }
}

impl View for GitHubUrl {
    type V = UrlParts;

    open spec fn view(&self) -> UrlParts {
        UrlParts {
            owner: self.owner@,
            repo: self.repo@,
            path: opt_view(self.path),
            ref_: opt_view(self.ref_),
            url_type: self.url_type,
        }
    }
}

/// The segments after the web host: `owner/repo`, or `owner/repo/{blob|tree}/ref/path...`.
pub open spec fn classify_web(segs: Seq<Seq<char>>) -> Option<UrlParts> {
    if segs.len() < 2 {
        None
    } else if segs.len() >= 4 {
        let kind = if segs[2] == "blob"@ {
            Some(UrlType::File)
        } else if segs[2] == "tree"@ {
            Some(UrlType::Folder)
        } else {
            None
        };
        match kind {
            Some(k) => Some(
                UrlParts {
                    owner: segs[0],
                    repo: segs[1],
                    path: if segs.len() > 4 {
                        Some(join_with(segs.subrange(4, segs.len() as int), '/'))
                    } else {
                        None
                    },
                    ref_: Some(segs[3]),
                    url_type: k,
                },
            ),
            None => None,
        }
    } else {
        Some(
            UrlParts {
                owner: segs[0],
                repo: segs[1],
                path: None,
                ref_: None,
                url_type: UrlType::Repository,
            },
        )
    }
}

/// The segments after the raw-content host: `owner/repo/ref/path...`.
pub open spec fn classify_raw(segs: Seq<Seq<char>>) -> Option<UrlParts> {
    if segs.len() < 3 {
        None
    } else {
        Some(
            UrlParts {
                owner: segs[0],
                repo: segs[1],
                path: if segs.len() > 3 {
                    Some(join_with(segs.subrange(3, segs.len() as int), '/'))
                } else {
                    None
                },
                ref_: Some(segs[2]),
                url_type: if segs.len() > 3 {
                    UrlType::File
                } else {
                    UrlType::Repository
                },
            },
        )
    }
}

/// Where the host of `s` ends: at the first `/` after the scheme, or at the end.
pub open spec fn host_end(s: Seq<char>) -> int {
    match find_char_from(s, '/', 8) {
        Some(k) => k,
        None => s.len() as int,
    }
}

/// The path of `s` after its host, without leading slashes, split at each `/`.
pub open spec fn path_segments(s: Seq<char>) -> Seq<Seq<char>> {
    let e = host_end(s);
    split_on(s.subrange(skip_char(s, '/', e), s.len() as int), '/')
}

/// The descriptor that `s` names, if it is an accepted URL.
pub open spec fn classify(s: Seq<char>) -> Option<UrlParts> {
    if !(s.len() >= 8 && s.subrange(0, 8) == "https://"@) {
        None
    } else {
        let host = s.subrange(8, host_end(s));
        if host == "github.com"@ {
            classify_web(path_segments(s))
        } else if host == "raw.githubusercontent.com"@ {
            classify_raw(path_segments(s))
        } else {
            None
        }
    }
}

/// The last `/`-separated piece of `p`.
pub open spec fn last_segment(p: Seq<char>) -> Seq<char> {
    split_on(p, '/').last()
}

/// `p`, or the empty sequence.
pub open spec fn or_empty(p: Option<Seq<char>>) -> Seq<char> {
    match p {
        Some(x) => x,
        None => Seq::empty(),
    }
}

/// `r`, or `main`.
pub open spec fn or_main(r: Option<Seq<char>>) -> Seq<char> {
    match r {
        Some(x) => x,
        None => "main"@,
    }
}

impl UrlParts {
    /// The listing path relative to the API host.
    pub open spec fn api_path(self) -> Seq<char> {
        match self.url_type {
            UrlType::Repository => "/repos/"@ + self.owner + "/"@ + self.repo,
            _ => "/repos/"@ + self.owner + "/"@ + self.repo + "/contents/"@ + or_empty(self.path),
        }
    }

    /// The raw-content URL of a file.
    pub open spec fn raw_url(self) -> Option<Seq<char>> {
        match self.url_type {
            UrlType::File => Some(
                "https://raw.githubusercontent.com/"@ + self.owner + "/"@ + self.repo + "/"@
                    + or_main(self.ref_) + "/"@ + or_empty(self.path),
            ),
            _ => None,
        }
    }
}

fn segment_string(segs: &Vec<Vec<char>>, i: usize) -> (r: String)
    requires
        i < segs@.len(),
    ensures
        r@ == views(segs@)[i as int],
{
    string_of(segs[i].as_slice())
}

fn joined_string(segs: &Vec<Vec<char>>, from: usize) -> (r: String)
    requires
        from <= segs@.len(),
    ensures
        r@ == join_with(views(segs@).subrange(from as int, segs@.len() as int), '/'),
{
    let v = join_from(segs, from, '/');
    string_of(v.as_slice())
}

impl GitHubUrl {
    /// Classifies a source string. Only `https` URLs on the web host and on
    /// the raw-content host are accepted.
    pub fn parse(url_str: &str) -> (r: GcpResult<GitHubUrl>)
        ensures
            r is Ok <==> classify(url_str@) is Some,
            r is Ok ==> r->Ok_0@ == classify(url_str@)->Some_0,
            r is Err ==> r->Err_0 is InvalidUrl,
    {
        let s = chars_of(url_str);
        let scheme = chars_of("https://");
        if s.len() < 8 || !range_is(&s, 0, 8, &scheme) {
            return Err(GcpError::InvalidUrl("Only HTTPS URLs are supported".to_string()));
        }
        let e = match find_char(&s, '/', 8) {
            Some(k) => k,
            None => s.len(),
        };
        let start = skip_chars(&s, '/', e);
        let rest = string_of_range(&s, start, s.len());
        let rest_chars = chars_of(rest.as_str());
        let segs = split_chars(&rest_chars, '/');
        let web = chars_of("github.com");
        let raw = chars_of("raw.githubusercontent.com");
        if range_is(&s, 8, e, &web) {
            Self::parse_github_url(&segs)
        } else if range_is(&s, 8, e, &raw) {
            Self::parse_raw_url(&segs)
        } else {
            Err(GcpError::InvalidUrl("Only GitHub URLs are supported".to_string()))
        }
    }

    fn parse_github_url(segs: &Vec<Vec<char>>) -> (r: GcpResult<GitHubUrl>)
        ensures
            r is Ok <==> classify_web(views(segs@)) is Some,
            r is Ok ==> r->Ok_0@ == classify_web(views(segs@))->Some_0,
            r is Err ==> r->Err_0 is InvalidUrl,
    {
        if segs.len() < 2 {
            return Err(GcpError::InvalidUrl("Invalid GitHub URL format".to_string()));
        }
        let owner = segment_string(segs, 0);
        let repo = segment_string(segs, 1);
        if segs.len() >= 4 {
            let blob = chars_of("blob");
            let tree = chars_of("tree");
            let url_type = if range_is(&segs[2], 0, segs[2].len(), &blob) {
                UrlType::File
            } else if range_is(&segs[2], 0, segs[2].len(), &tree) {
                UrlType::Folder
            } else {
                proof {
                    assert(segs@[2]@.subrange(0, segs@[2]@.len() as int) =~= segs@[2]@);
                }
                return Err(GcpError::InvalidUrl("Invalid GitHub URL type".to_string()));
            };
            proof {
                assert(segs@[2]@.subrange(0, segs@[2]@.len() as int) =~= segs@[2]@);
            }
            let ref_ = Some(segment_string(segs, 3));
            let path = if segs.len() > 4 {
                Some(joined_string(segs, 4))
            } else {
                None
            };
            Ok(GitHubUrl { owner, repo, path, ref_, url_type })
        } else {
            Ok(GitHubUrl { owner, repo, path: None, ref_: None, url_type: UrlType::Repository })
        }
    }

    fn parse_raw_url(segs: &Vec<Vec<char>>) -> (r: GcpResult<GitHubUrl>)
        ensures
            r is Ok <==> classify_raw(views(segs@)) is Some,
            r is Ok ==> r->Ok_0@ == classify_raw(views(segs@))->Some_0,
            r is Err ==> r->Err_0 is InvalidUrl,
    {
        if segs.len() < 3 {
            return Err(GcpError::InvalidUrl("Invalid raw GitHub URL format".to_string()));
        }
        let owner = segment_string(segs, 0);
        let repo = segment_string(segs, 1);
        let ref_ = Some(segment_string(segs, 2));
        let path = if segs.len() > 3 {
            Some(joined_string(segs, 3))
        } else {
            None
        };
        let url_type = if path.is_some() {
            UrlType::File
        } else {
            UrlType::Repository
        };
        Ok(GitHubUrl { owner, repo, path, ref_, url_type })
    }

    /// The last path segment of a file or folder; `None` for a repository or
    /// when there is no path.
    pub fn filename(&self) -> (r: Option<String>)
        ensures
            r is Some <==> (self.url_type != UrlType::Repository && self.path is Some),
            r is Some ==> r->Some_0@ == last_segment(self.path->Some_0@),
    {
        match self.url_type {
            UrlType::Repository => None,
            _ => match &self.path {
                Some(p) => {
                    let v = chars_of(p.as_str());
                    let segs = split_chars(&v, '/');
                    Some(segment_string(&segs, segs.len() - 1))
                },
                None => None,
            },
        }
    }

    /// The listing path relative to the API host.
    pub fn api_path(&self) -> (r: String)
        ensures
            r@ == self@.api_path(),
    {
        let mut r = String::new();
        push_str(&mut r, "/repos/");
        push_str(&mut r, self.owner.as_str());
        push_str(&mut r, "/");
        push_str(&mut r, self.repo.as_str());
        match self.url_type {
            UrlType::Repository => {},
            _ => {
                push_str(&mut r, "/contents/");
                match &self.path {
                    Some(p) => push_str(&mut r, p.as_str()),
                    None => {},
                }
            },
        }
        proof {
            assert(r@ =~= self@.api_path());
        }
        r
    }

    /// The full API URL of the listing.
    pub fn api_url(&self) -> (r: String)
        ensures
            r@ == "https://api.github.com"@ + self@.api_path(),
    {
        let mut r = String::new();
        push_str(&mut r, "https://api.github.com");
        let p = self.api_path();
        push_str(&mut r, p.as_str());
        r
    }

    /// The raw-content URL of a file; `None` for folders and repositories.
    pub fn raw_url(&self) -> (r: Option<String>)
        ensures
            opt_view(r) == self@.raw_url(),
    {
        match self.url_type {
            UrlType::File => {
                let mut r = String::new();
                push_str(&mut r, "https://raw.githubusercontent.com/");
                push_str(&mut r, self.owner.as_str());
                push_str(&mut r, "/");
                push_str(&mut r, self.repo.as_str());
                push_str(&mut r, "/");
                match &self.ref_ {
                    Some(x) => push_str(&mut r, x.as_str()),
                    None => push_str(&mut r, "main"),
                }
                push_str(&mut r, "/");
                match &self.path {
                    Some(p) => push_str(&mut r, p.as_str()),
                    None => {},
                }
                proof {
                    assert(r@ =~= self@.raw_url()->Some_0);
                }
                Some(r)
            },
            _ => None,
        }
    }
}

} // verus!
