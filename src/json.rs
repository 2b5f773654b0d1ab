//! Field extraction from the flat JSON objects of the contents API, and the
//! splitter that cuts a listing array into those objects.
use vstd::prelude::*;

use crate::error::{GcpError, GcpResult};
use crate::text::{
    chars_of, find_char, find_char_from, find_from, find_seq, occurs, occurs_at, skip_space,
    skip_white_space, string_of, string_of_range, trim_bounds, trimmed,
};
use crate::types::{FileView, GitHubFile};

verus! {

/// The text that announces `field`: the name in quotes, then a colon.
pub open spec fn field_pattern(field: Seq<char>) -> Seq<char> {
    seq!['"'] + field + seq!['"', ':']
}

/// Where the text after the first announcement of `field` starts.
pub open spec fn after_field(s: Seq<char>, field: Seq<char>) -> Option<int> {
    match find_from(s, field_pattern(field), 0) {
        Some(k) => Some(k + field_pattern(field).len()),
        None => None,
    }
}

/// The first quoted string at or after `a`.
pub open spec fn quoted_from(s: Seq<char>, a: int) -> Option<Seq<char>> {
    match find_char_from(s, '"', a) {
        Some(q1) => match find_char_from(s, '"', q1 + 1) {
            Some(q2) => Some(s.subrange(q1 + 1, q2)),
            None => None,
        },
        None => None,
    }
}

/// The first quoted string after the first announcement of `field`, or nothing.
pub open spec fn field_text(s: Seq<char>, field: Seq<char>) -> Seq<char> {
    match after_field(s, field) {
        Some(a) => match quoted_from(s, a) {
            Some(v) => v,
            None => Seq::empty(),
        },
        None => Seq::empty(),
    }
}

/// Like `field_text`, but no value when the field is absent, is `null`, or is empty.
pub open spec fn optional_field(s: Seq<char>, field: Seq<char>) -> Option<Seq<char>> {
    match after_field(s, field) {
        Some(a) => if occurs_at(s, "null"@, skip_space(s, a)) {
            None
        } else {
            match quoted_from(s, a) {
                Some(v) => if v.len() == 0 {
                    None
                } else {
                    Some(v)
                },
                None => None,
            }
        },
        None => None,
    }
}

/// The entry that the object text `s` describes; none without a name.
pub open spec fn entry_of(s: Seq<char>) -> Option<FileView> {
    if field_text(s, "name"@).len() == 0 {
        None
    } else {
        Some(
            FileView {
                name: field_text(s, "name"@),
                path: field_text(s, "path"@),
                sha: field_text(s, "sha"@),
                file_type: field_text(s, "type"@),
                download_url: optional_field(s, "download_url"@),
                content: optional_field(s, "content"@),
                encoding: optional_field(s, "encoding"@),
            },
        )
    }
}

proof fn lemma_after_field_bounds(s: Seq<char>, field: Seq<char>)
    ensures
        after_field(s, field) is Some ==> 0 <= after_field(s, field)->Some_0 <= s.len(),
{
    crate::text::lemma_find_from_bounds(s, field_pattern(field), 0);
}

fn find_after_field(s: &Vec<char>, field: &str) -> (r: Option<usize>)
    ensures
        match after_field(s@, field@) {
            Some(a) => r is Some && r->Some_0 as int == a && a <= s@.len(),
            None => r is None,
        },
{
    let mut p: Vec<char> = Vec::new();
    p.push('"');
    let f = chars_of(field);
    let mut i: usize = 0;
    while i < f.len()
        invariant
            i <= f@.len(),
            p@ =~= seq!['"'] + f@.subrange(0, i as int),
        decreases f@.len() - i,
    {
        p.push(f[i]);
        i = i + 1;
    }
    p.push('"');
    p.push(':');
    proof {
        assert(f@.subrange(0, f@.len() as int) =~= f@);
        assert(p@ =~= field_pattern(field@));
        lemma_after_field_bounds(s@, field@);
    }
    if p.len() > s.len() {
        return None;
    }
    match find_seq(s, &p, 0) {
        Some(k) => Some(k + p.len()),
        None => None,
    }
}

fn find_quoted(s: &Vec<char>, a: usize) -> (r: Option<(usize, usize)>)
    requires
        a <= s@.len(),
    ensures
        match quoted_from(s@, a as int) {
            Some(v) => r is Some && r->Some_0.0 <= r->Some_0.1 <= s@.len() && s@.subrange(
                r->Some_0.0 as int,
                r->Some_0.1 as int,
            ) == v,
            None => r is None,
        },
{
    if a >= s.len() {
        return None;
    }
    match find_char(s, '"', a) {
        Some(q1) => match find_char(s, '"', q1 + 1) {
            Some(q2) => Some((q1 + 1, q2)),
            None => None,
        },
        None => None,
    }
}

/// The first quoted string after `"field":` in `json_str`, or an empty
/// string when there is none.
pub fn extract_json_field(json_str: &str, field: &str) -> (r: String)
    ensures
        r@ == field_text(json_str@, field@),
{
    let s = chars_of(json_str);
    match find_after_field(&s, field) {
        Some(a) => match find_quoted(&s, a) {
            Some((x, y)) => string_of_range(&s, x, y),
            None => String::new(),
        },
        None => String::new(),
    }
}

/// Like `extract_json_field`, but `None` when the field is absent, when its
/// value is `null`, and when the string is empty.
pub fn extract_optional_json_field(json_str: &str, field: &str) -> (r: Option<String>)
    ensures
        match optional_field(json_str@, field@) {
            Some(v) => r is Some && r->Some_0@ == v,
            None => r is None,
        },
{
    let s = chars_of(json_str);
    match find_after_field(&s, field) {
        Some(a) => {
            let b = skip_white_space(&s, a);
            if occurs(&s, &chars_of("null"), b) {
                return None;
            }
            match find_quoted(&s, a) {
                Some((x, y)) => {
                    if x == y {
                        None
                    } else {
                        Some(string_of_range(&s, x, y))
                    }
                },
                None => None,
            }
        },
        None => None,
    }
}

impl GitHubFile {
    /// Reads one flat object. Fails with `ParseError` when it has no name.
    pub fn from_json(json_str: &str) -> (r: GcpResult<GitHubFile>)
        ensures
            r is Ok <==> entry_of(json_str@) is Some,
            r is Ok ==> r->Ok_0@ == entry_of(json_str@)->Some_0,
            r is Err ==> r->Err_0 is ParseError,
    {
        let name = extract_json_field(json_str, "name");
        if name.as_str().is_empty() {
            return Err(GcpError::ParseError("Invalid JSON format".to_string()));
        }
        Ok(GitHubFile {
            name,
            path: extract_json_field(json_str, "path"),
            sha: extract_json_field(json_str, "sha"),
            size: 0,
            url: String::new(),
            html_url: String::new(),
            git_url: String::new(),
            download_url: extract_optional_json_field(json_str, "download_url"),
            file_type: extract_json_field(json_str, "type"),
            content: extract_optional_json_field(json_str, "content"),
            encoding: extract_optional_json_field(json_str, "encoding"),
        })
    }
}

/// Where the splitter stands after some prefix of the array's contents.
pub struct SplitState {
    /// The text of the object being collected.
    pub current: Seq<char>,
    /// Braces opened and not yet closed outside strings.
    pub depth: int,
    pub in_string: bool,
    /// The texts of the objects completed so far.
    pub objects: Seq<Seq<char>>,
}

/// One character of the splitter: a quote not after a backslash toggles
/// string mode; outside strings, braces count depth, and the brace that
/// brings it back to zero completes an object.
pub open spec fn split_step(st: SplitState, ch: char) -> SplitState {
    let in_string = if ch == '"' && (st.current.len() == 0 || st.current.last() != '\\') {
        !st.in_string
    } else {
        st.in_string
    };
    if !in_string && ch == '{' {
        SplitState { current: st.current.push(ch), depth: st.depth + 1, in_string, objects: st.objects }
    } else if !in_string && ch == '}' && st.depth - 1 == 0 {
        SplitState {
            current: Seq::empty(),
            depth: 0,
            in_string,
            objects: st.objects.push(st.current.push(ch)),
        }
    } else if !in_string && ch == '}' {
        SplitState { current: st.current.push(ch), depth: st.depth - 1, in_string, objects: st.objects }
    } else {
        SplitState { current: st.current.push(ch), depth: st.depth, in_string, objects: st.objects }
    }
}

/// The splitter after all of `s`.
pub open spec fn split_state(s: Seq<char>) -> SplitState
    decreases s.len(),
{
    if s.len() == 0 {
        SplitState { current: Seq::empty(), depth: 0, in_string: false, objects: Seq::empty() }
    } else {
        split_step(split_state(s.drop_last()), s.last())
    }
}

/// The entries of the objects that decode, in order; the others are skipped.
pub open spec fn entries_of(objects: Seq<Seq<char>>) -> Seq<FileView>
    decreases objects.len(),
{
    if objects.len() == 0 {
        Seq::empty()
    } else {
        match entry_of(objects.last()) {
            Some(e) => entries_of(objects.drop_last()).push(e),
            None => entries_of(objects.drop_last()),
        }
    }
}

/// The text between the brackets of a trimmed array.
pub open spec fn array_inner(t: Seq<char>) -> Seq<char> {
    if t.len() >= 2 {
        t.subrange(1, t.len() - 1)
    } else {
        Seq::empty()
    }
}

/// What a listing decodes to: `None` when the text is not an array.
pub open spec fn listing_of(s: Seq<char>) -> Option<Seq<FileView>> {
    let t = trimmed(s);
    if t.len() == 0 || t[0] != '[' {
        None
    } else {
        Some(entries_of(split_state(array_inner(t)).objects))
    }
}

pub open spec fn file_views(v: Seq<GitHubFile>) -> Seq<FileView> {
    v.map_values(|f: GitHubFile| f@)
}

/// Splits a listing array into objects by brace depth, outside strings, and
/// decodes each; objects without a name are skipped. Fails with `ParseError`
/// when the text is not an array.
pub fn parse_github_file_array(json_str: &str) -> (r: GcpResult<Vec<GitHubFile>>)
    ensures
        match listing_of(json_str@) {
            Some(entries) => r is Ok && file_views(r->Ok_0@) == entries,
            None => r is Err && r->Err_0 is ParseError,
        },
{
    let s = chars_of(json_str);
    let (a, b) = trim_bounds(&s);
    if a == b || s[a] != '[' {
        return Err(GcpError::ParseError("Expected JSON array".to_string()));
    }
    let (from, to) = if b - a >= 2 {
        (a + 1, b - 1)
    } else {
        (a, a)
    };
    let ghost inner = s@.subrange(from as int, to as int);
    proof {
        let t = s@.subrange(a as int, b as int);
        if b - a >= 2 {
            assert(array_inner(t) =~= inner);
        } else {
            assert(array_inner(t) =~= inner);
        }
    }
    let mut files: Vec<GitHubFile> = Vec::new();
    let mut current: Vec<char> = Vec::new();
    let mut opened: usize = 0;
    let mut closed: usize = 0;
    let mut in_string = false;
    let mut i = from;
    while i < to
        invariant
            from <= i <= to <= s@.len(),
            inner == s@.subrange(from as int, to as int),
            opened + closed <= i - from,
            ({
                let st = split_state(s@.subrange(from as int, i as int));
                &&& st.current == current@
                &&& st.depth == opened - closed
                &&& st.in_string == in_string
                &&& entries_of(st.objects) == file_views(files@)
            }),
        decreases to - i,
    {
        let ch = s[i];
        let ghost st = split_state(s@.subrange(from as int, i as int));
        proof {
            assert(s@.subrange(from as int, i + 1).drop_last() =~= s@.subrange(from as int, i as int));
        }
        if ch == '"' && (current.len() == 0 || current[current.len() - 1] != '\\') {
            in_string = !in_string;
        }
        if !in_string && ch == '{' {
            current.push(ch);
            opened = opened + 1;
        } else if !in_string && ch == '}' && opened == closed + 1 {
            current.push(ch);
            let text = string_of(current.as_slice());
            let ghost obj = current@;
            match GitHubFile::from_json(text.as_str()) {
                Ok(f) => {
                    files.push(f);
                },
                Err(_) => {},
            }
            proof {
                let objs = st.objects.push(obj);
                assert(objs.drop_last() =~= st.objects);
                assert(file_views(files@) =~= entries_of(objs));
            }
            current = Vec::new();
            opened = 0;
            closed = 0;
        } else if !in_string && ch == '}' {
            current.push(ch);
            closed = closed + 1;
        } else {
            current.push(ch);
        }
        i = i + 1;
    }
    Ok(files)
}

} // verus!
