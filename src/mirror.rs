//! The recursive mirror of a folder, as an explicit work list: the engine
//! names each step, the caller performs it and reports back.
use vstd::prelude::*;

use crate::error::{GcpError, GcpResult};
use crate::github::{opt_view, GitHubUrl, UrlParts, UrlType};
use crate::text::{chars_of, find_from, find_seq, push_str, range_is, string_of, string_of_range};
use crate::types::{FileView, GitHubFile};

verus! {

/// Whether `path` holds a parent-directory reference `..`.
pub open spec fn is_unsafe_path(path: Seq<char>) -> bool {
    find_from(path, ".."@, 0) is Some
}

/// Refuses a path that holds `..`.
pub fn validate_safe_path(path: &str) -> (r: GcpResult<()>)
    ensures
        r is Ok <==> !is_unsafe_path(path@),
        r is Err ==> r->Err_0 is InvalidOperation,
{
    let s = chars_of(path);
    if find_seq(&s, &chars_of(".."), 0).is_some() {
        Err(GcpError::InvalidOperation("Path contains parent directory references".to_string()))
    } else {
        Ok(())
    }
}

/// The index of the last `c` in `s` before `end`.
pub open spec fn last_index_of(s: Seq<char>, c: char, end: int) -> Option<int>
    decreases end,
{
    if end <= 0 || end > s.len() {
        None
    } else if s[end - 1] == c {
        Some(end - 1)
    } else {
        last_index_of(s, c, end - 1)
    }
}

proof fn lemma_last_index_bounds(s: Seq<char>, c: char, end: int)
    requires
        0 <= end <= s.len(),
    ensures
        last_index_of(s, c, end) is Some ==> 0 <= last_index_of(s, c, end)->Some_0 < end,
    decreases end,
{
    if end > 0 && s[end - 1] != c {
        lemma_last_index_bounds(s, c, end - 1);
    }
}

fn find_last(s: &Vec<char>, c: char, end: usize) -> (r: Option<usize>)
    requires
        end <= s@.len(),
    ensures
        match last_index_of(s@, c, end as int) {
            Some(k) => r is Some && r->Some_0 as int == k && k < end,
            None => r is None,
        },
{
    proof {
        lemma_last_index_bounds(s@, c, end as int);
    }
    let mut e = end;
    while e > 0
        invariant
            e <= end <= s@.len(),
            last_index_of(s@, c, e as int) == last_index_of(s@, c, end as int),
        decreases e,
    {
        if s[e - 1] == c {
            return Some(e - 1);
        }
        e = e - 1;
    }
    None
}

/// Where the file name of `p` starts: after its last `/`.
pub open spec fn name_start(p: Seq<char>) -> int {
    match last_index_of(p, '/', p.len() as int) {
        Some(k) => k + 1,
        None => 0,
    }
}

/// Where the extension's dot stands in the file name of `p`, if it has one:
/// the last dot of the name, unless it is the name's first character.
pub open spec fn ext_dot(p: Seq<char>) -> Option<int> {
    match last_index_of(p, '.', p.len() as int) {
        Some(k) => if k > name_start(p) {
            Some(k)
        } else {
            None
        },
        None => None,
    }
}

/// The decimal digits of `n`.
pub open spec fn decimal(n: nat) -> Seq<char>
    decreases n,
{
    if n < 10 {
        seq![(n + '0' as int) as char]
    } else {
        decimal(n / 10).push(((n % 10) + '0' as int) as char)
    }
}

/// The `n`th renaming of `p`: `_n` after the stem, the extension kept.
pub open spec fn candidate(p: Seq<char>, n: nat) -> Seq<char> {
    match ext_dot(p) {
        Some(d) => p.subrange(0, d) + seq!['_'] + decimal(n) + p.subrange(d, p.len() as int),
        None => p + seq!['_'] + decimal(n),
    }
}

/// The file name of `p`.
pub open spec fn file_name(p: Seq<char>) -> Seq<char> {
    p.subrange(name_start(p), p.len() as int)
}

/// Whether a file of that name is among `existing`.
pub open spec fn listed(existing: Seq<Seq<char>>, name: Seq<char>) -> bool {
    exists|i: int| 0 <= i < existing.len() && existing[i] == name
}

/// The highest suffix tried before giving up and keeping the path.
pub open spec fn max_suffix() -> nat {
    10000
}

/// The first renaming from the `n`th on whose name is free.
pub open spec fn first_free(p: Seq<char>, existing: Seq<Seq<char>>, n: nat) -> Seq<char>
    decreases max_suffix() + 1 - n,
{
    if n > max_suffix() {
        p
    } else if !listed(existing, file_name(candidate(p, n))) {
        candidate(p, n)
    } else {
        first_free(p, existing, n + 1)
    }
}

/// `p` when its name is free, else its first free renaming.
pub open spec fn resolved(p: Seq<char>, existing: Seq<Seq<char>>) -> Seq<char> {
    if !listed(existing, file_name(p)) {
        p
    } else {
        first_free(p, existing, 1)
    }
}

pub open spec fn string_views(v: Seq<String>) -> Seq<Seq<char>> {
    v.map_values(|s: String| s@)
}

fn decimal_chars(n: u64) -> (r: Vec<char>)
    ensures
        r@ == decimal(n as nat),
    decreases n,
{
    if n < 10 {
        let mut v: Vec<char> = Vec::new();
        v.push(((n as u8) + 48) as char);
        v
    } else {
        let mut v = decimal_chars(n / 10);
        v.push((((n % 10) as u8) + 48) as char);
        v
    }
}

fn is_listed(existing: &[String], name: &Vec<char>) -> (r: bool)
    ensures
        r == listed(string_views(existing@), name@),
{
    let mut i: usize = 0;
    while i < existing.len()
        invariant
            i <= existing@.len(),
            forall|j: int| 0 <= j < i ==> string_views(existing@)[j] != name@,
        decreases existing@.len() - i,
    {
        let e = chars_of(existing[i].as_str());
        assert(e@.subrange(0, e@.len() as int) =~= e@);
        if range_is(&e, 0, e.len(), name) {
            assert(string_views(existing@)[i as int] == name@);
            return true;
        }
        i = i + 1;
    }
    false
}

/// The file name of `p` as characters.
fn name_of(p: &Vec<char>) -> (r: Vec<char>)
    ensures
        r@ == file_name(p@),
{
    let start = match find_last(p, '/', p.len()) {
        Some(k) => k + 1,
        None => 0,
    };
    let s = string_of_range(p, start, p.len());
    chars_of(s.as_str())
}

fn candidate_chars(p: &Vec<char>, n: u64) -> (r: Vec<char>)
    ensures
        r@ == candidate(p@, n as nat),
{
    let start = match find_last(p, '/', p.len()) {
        Some(k) => k + 1,
        None => 0,
    };
    let dot = match find_last(p, '.', p.len()) {
        Some(k) => if k > start {
            Some(k)
        } else {
            None
        },
        None => None,
    };
    let d = decimal_chars(n);
    let cut = match dot {
        Some(k) => k,
        None => p.len(),
    };
    let mut out: Vec<char> = Vec::new();
    let mut i: usize = 0;
    while i < cut
        invariant
            i <= cut <= p@.len(),
            out@ =~= p@.subrange(0, i as int),
        decreases cut - i,
    {
        out.push(p[i]);
        i = i + 1;
    }
    out.push('_');
    let mut j: usize = 0;
    while j < d.len()
        invariant
            j <= d@.len(),
            out@ =~= p@.subrange(0, cut as int) + seq!['_'] + d@.subrange(0, j as int),
        decreases d@.len() - j,
    {
        out.push(d[j]);
        j = j + 1;
    }
    let mut k = cut;
    while k < p.len()
        invariant
            cut <= k <= p@.len(),
            out@ =~= p@.subrange(0, cut as int) + seq!['_'] + d@ + p@.subrange(cut as int, k as int),
        decreases p@.len() - k,
    {
        out.push(p[k]);
        k = k + 1;
    }
    proof {
        assert(d@.subrange(0, d@.len() as int) =~= d@);
        assert(p@.subrange(0, p@.len() as int) =~= p@);
        match dot {
            Some(_) => {},
            None => {
                assert(p@.subrange(cut as int, p@.len() as int) =~= Seq::<char>::empty());
            },
        }
    }
    out
}

/// The path to write to without overwriting: `path` itself when no file of
/// its name is among `existing` (the names in its directory), else the first
/// of `stem_1.ext`, `stem_2.ext`, ... whose name is free, up to the highest
/// suffix tried, after which `path` is kept.
pub fn resolve_conflict(path: &str, existing: &[String]) -> (r: String)
    ensures
        r@ == resolved(path@, string_views(existing@)),
{
    let p = chars_of(path);
    if !is_listed(existing, &name_of(&p)) {
        return string_of(p.as_slice());
    }
    let mut n: u64 = 1;
    while n <= 10000
        invariant
            1 <= n <= 10001,
            p@ == path@,
            listed(string_views(existing@), file_name(p@)),
            first_free(p@, string_views(existing@), 1) == first_free(p@, string_views(existing@), n as nat),
        decreases 10001 - n,
    {
        let c = candidate_chars(&p, n);
        if !is_listed(existing, &name_of(&c)) {
            assert(!listed(string_views(existing@), file_name(candidate(p@, n as nat))));
            assert(n as nat <= max_suffix());
            assert(first_free(p@, string_views(existing@), n as nat) == candidate(p@, n as nat));
            return string_of(c.as_slice());
        }
        n = n + 1;
    }
    string_of(p.as_slice())
}

/// Where a fetched file goes: refused when the path holds `..`; in place
/// when overwriting is asked for; else renamed past the names in `existing`.
pub fn plan_file_destination(path: &str, force: bool, existing: &[String]) -> (r: GcpResult<String>)
    ensures
        is_unsafe_path(path@) ==> r is Err && r->Err_0 is InvalidOperation,
        !is_unsafe_path(path@) ==> r is Ok && r->Ok_0@ == if force {
            path@
        } else {
            resolved(path@, string_views(existing@))
        },
{
    match validate_safe_path(path) {
        Err(e) => Err(e),
        Ok(()) => {
            if force {
                let mut s = String::new();
                push_str(&mut s, path);
                Ok(s)
            } else {
                Ok(resolve_conflict(path, existing))
            }
        },
    }
}

/// A pending unit of work.
pub enum Task {
    /// Create `dest` and mirror the folder `url` into it.
    Folder { url: GitHubUrl, dest: String },
    /// Fetch the file `url` and write it at `dest`.
    File { url: GitHubUrl, dest: String },
}

pub struct TaskView {
    pub is_folder: bool,
    pub url: UrlParts,
    pub dest: Seq<char>,
}

impl View for Task {
    type V = TaskView;

    open spec fn view(&self) -> TaskView {
        match self {
            Task::Folder { url, dest } => TaskView { is_folder: true, url: url@, dest: dest@ },
            Task::File { url, dest } => TaskView { is_folder: false, url: url@, dest: dest@ },
        }
    }
}

pub open spec fn task_views(v: Seq<Task>) -> Seq<TaskView> {
    v.map_values(|t: Task| t@)
}

/// `name` inside the directory `dest`.
pub open spec fn child_path(dest: Seq<char>, name: Seq<char>) -> Seq<char> {
    if dest.len() == 0 {
        name
    } else if dest.last() == '/' {
        dest + name
    } else {
        dest + seq!['/'] + name
    }
}

/// The descriptor of a child at `path` of the folder `parent`.
pub open spec fn child_url(parent: UrlParts, path: Seq<char>, kind: UrlType) -> UrlParts {
    UrlParts { owner: parent.owner, repo: parent.repo, path: Some(path), ref_: parent.ref_, url_type: kind }
}

/// The task that a listing entry of `parent`, mirrored into `dest`, gives:
/// files and directories only; submodules and symlinks are skipped.
pub open spec fn task_of(parent: UrlParts, dest: Seq<char>, e: FileView) -> Option<TaskView> {
    if e.file_type == "file"@ {
        Some(TaskView { is_folder: false, url: child_url(parent, e.path, UrlType::File), dest: child_path(dest, e.name) })
    } else if e.file_type == "dir"@ {
        Some(TaskView { is_folder: true, url: child_url(parent, e.path, UrlType::Folder), dest: child_path(dest, e.name) })
    } else {
        None
    }
}

/// The tasks of a listing as the work list holds them: the first entry's on
/// top, so that entries are taken in listing order.
pub open spec fn stacked(parent: UrlParts, dest: Seq<char>, entries: Seq<FileView>) -> Seq<TaskView>
    decreases entries.len(),
{
    if entries.len() == 0 {
        Seq::empty()
    } else {
        let rest = stacked(parent, dest, entries.drop_first());
        match task_of(parent, dest, entries[0]) {
            Some(t) => rest.push(t),
            None => rest,
        }
    }
}

/// The running totals of a mirror.
pub struct MirrorOutcome {
    pub files_written: usize,
    /// Each failed file, with its destination and cause, in order.
    pub failures: Vec<(String, GcpError)>,
}

/// What the caller is to do next.
pub enum MirrorAction {
    /// Create `dest` (with its parents), fetch the listing of `url`, and
    /// report it with `on_listing`.
    ListFolder { url: GitHubUrl, dest: String },
    /// Fetch the file `url`, write it at `dest` (see `plan_file_destination`),
    /// and report it with `on_file_result`.
    FetchFile { url: GitHubUrl, dest: String },
    /// The whole tree has been visited.
    Finished,
}

pub open spec fn action_task(a: MirrorAction) -> Option<TaskView> {
    match a {
        MirrorAction::ListFolder { url, dest } => Some(TaskView { is_folder: true, url: url@, dest: dest@ }),
        MirrorAction::FetchFile { url, dest } => Some(TaskView { is_folder: false, url: url@, dest: dest@ }),
        MirrorAction::Finished => None,
    }
}

/// A depth-first, pre-order mirror of one folder.
pub struct MirrorEngine {
    /// The work list; its last task is taken next.
    pub pending: Vec<Task>,
    pub outcome: MirrorOutcome,
}

fn clone_opt(o: &Option<String>) -> (r: Option<String>)
    ensures
        opt_view(r) == opt_view(*o),
{
    match o {
        Some(s) => Some(s.clone()),
        None => None,
    }
}

fn child_dest(dest: &str, name: &str) -> (r: String)
    ensures
        r@ == child_path(dest@, name@),
{
    let d = chars_of(dest);
    let mut r = String::new();
    push_str(&mut r, dest);
    if d.len() > 0 && d[d.len() - 1] != '/' {
        push_str(&mut r, "/");
    }
    push_str(&mut r, name);
    proof {
        reveal_strlit("/");
        if d@.len() == 0 {
            assert(r@ =~= name@);
        }
    }
    r
}

pub open spec fn kind_for(folder: bool) -> UrlType {
    if folder {
        UrlType::Folder
    } else {
        UrlType::File
    }
}

fn child_task(parent: &GitHubUrl, dest: &str, e: &GitHubFile, folder: bool) -> (r: Task)
    ensures
        r@.is_folder == folder,
        r@.url == child_url(parent@, e.path@, kind_for(folder)),
        r@.dest == child_path(dest@, e.name@),
{
    let url = GitHubUrl {
        owner: parent.owner.clone(),
        repo: parent.repo.clone(),
        path: Some(e.path.clone()),
        ref_: clone_opt(&parent.ref_),
        url_type: if folder { UrlType::Folder } else { UrlType::File },
    };
    let d = child_dest(dest, e.name.as_str());
    if folder {
        Task::Folder { url, dest: d }
    } else {
        Task::File { url, dest: d }
    }
}

impl MirrorEngine {
    /// A mirror of the folder `url` into `destination`; `InvalidOperation`
    /// for anything but a folder.
    pub fn new(url: GitHubUrl, destination: String) -> (r: GcpResult<MirrorEngine>)
        ensures
            url.url_type != UrlType::Folder ==> r is Err && r->Err_0 is InvalidOperation,
            url.url_type == UrlType::Folder ==> r is Ok
                && task_views(r->Ok_0.pending@) == seq![(TaskView { is_folder: true, url: url@, dest: destination@ })]
                && r->Ok_0.outcome.files_written == 0
                && r->Ok_0.outcome.failures@.len() == 0,
    {
        if url.url_type != UrlType::Folder {
            return Err(GcpError::InvalidOperation("Not a folder URL".to_string()));
        }
        let mut pending: Vec<Task> = Vec::new();
        pending.push(Task::Folder { url, dest: destination });
        assert(task_views(pending@) =~= seq![pending@[0]@]);
        Ok(MirrorEngine { pending, outcome: MirrorOutcome { files_written: 0, failures: Vec::new() } })
    }

    /// Takes the next task off the work list.
    pub fn next_action(&mut self) -> (r: MirrorAction)
        ensures
            final(self).outcome == old(self).outcome,
            old(self).pending@.len() == 0 ==> r is Finished && final(self).pending@ == old(self).pending@,
            old(self).pending@.len() > 0 ==> action_task(r) == Some(task_views(old(self).pending@).last())
                && task_views(final(self).pending@) == task_views(old(self).pending@).drop_last(),
    {
        match self.pending.pop() {
            None => MirrorAction::Finished,
            Some(t) => {
                assert(task_views(self.pending@) =~= task_views(old(self).pending@).drop_last());
                match t {
                    Task::Folder { url, dest } => MirrorAction::ListFolder { url, dest },
                    Task::File { url, dest } => MirrorAction::FetchFile { url, dest },
                }
            },
        }
    }

    /// Adds the files and subfolders of a listing of `folder`, mirrored into
    /// `dest`, so that they are taken in listing order before anything
    /// already pending. A listing that could not be had counts as empty.
    pub fn on_listing(&mut self, folder: &GitHubUrl, dest: &str, listing: GcpResult<Vec<GitHubFile>>)
        ensures
            final(self).outcome == old(self).outcome,
            task_views(final(self).pending@) == task_views(old(self).pending@) + match listing {
                Ok(v) => stacked(folder@, dest@, crate::json::file_views(v@)),
                Err(_) => Seq::<TaskView>::empty(),
            },
    {
        let ghost given = listing;
        let entries = match listing {
            Ok(v) => v,
            Err(_) => Vec::new(),
        };
        let ghost base = task_views(self.pending@);
        let ghost ev = crate::json::file_views(entries@);
        let mut i = entries.len();
        proof {
            assert(ev.subrange(i as int, ev.len() as int) =~= Seq::<FileView>::empty());
        }
        while i > 0
            invariant
                i <= entries@.len(),
                ev == crate::json::file_views(entries@),
                self.outcome == old(self).outcome,
                task_views(self.pending@) == base + stacked(folder@, dest@, ev.subrange(i as int, ev.len() as int)),
            decreases i,
        {
            let e = &entries[i - 1];
            let ghost before = task_views(self.pending@);
            let ghost tail = ev.subrange(i as int, ev.len() as int);
            let ghost here = ev.subrange(i - 1, ev.len() as int);
            proof {
                assert(here.drop_first() =~= tail);
                assert(here[0] == e@);
            }
            if e.is_file() {
                let t = child_task(folder, dest, e, false);
                self.pending.push(t);
                assert(task_views(self.pending@) =~= before.push(t@));
            } else if e.is_directory() {
                let t = child_task(folder, dest, e, true);
                self.pending.push(t);
                assert(task_views(self.pending@) =~= before.push(t@));
            }
            i = i - 1;
        }
        assert(ev.subrange(0, ev.len() as int) =~= ev);
        proof {
            if given is Err {
                assert(ev =~= Seq::<FileView>::empty());
            }
        }
    }

    /// Records how writing the file at `dest` went: a success counts; a
    /// failure is kept with its cause, and the mirror goes on.
    pub fn on_file_result(&mut self, dest: String, result: GcpResult<()>)
        requires
            old(self).outcome.files_written < usize::MAX,
        ensures
            final(self).pending == old(self).pending,
            match result {
                Ok(()) => final(self).outcome.files_written == old(self).outcome.files_written + 1
                    && final(self).outcome.failures == old(self).outcome.failures,
                Err(e) => final(self).outcome.files_written == old(self).outcome.files_written
                    && final(self).outcome.failures@ == old(self).outcome.failures@.push((dest, e)),
            },
    {
        match result {
            Ok(()) => {
                self.outcome.files_written = self.outcome.files_written + 1;
            },
            Err(e) => {
                self.outcome.failures.push((dest, e));
            },
        }
    }
}

} // verus!
