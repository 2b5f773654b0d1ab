//! Character-level helpers shared by the URL classifier and the payload codec.
use vstd::prelude::*;
use vstd::std_specs::iter::IteratorSpec;

verus! {

/// The characters of `s`, in order.
pub fn chars_of(s: &str) -> (r: Vec<char>)
    ensures
        r@ == s@,
{
    broadcast use vstd::string::group_string_axioms;

    let mut it = s.chars();
    let mut out: Vec<char> = Vec::new();
    loop
        invariant
            it.remaining() =~= s@.subrange(out@.len() as int, s@.len() as int),
            out@ =~= s@.subrange(0, out@.len() as int),
            out@.len() <= s@.len(),
        decreases s@.len() - out@.len(),
    {
        match it.next() {
            Some(c) => {
                out.push(c);
            },
            None => {
                return out;
            },
        }
    }
}

/// Relies on String::push: appends one character at the end.
#[verifier::external_body]
fn push_char(s: &mut String, c: char)
    ensures
        final(s)@ == old(s)@.push(c),
{
    s.push(c);
}

/// A `String` holding the characters of `v`.
pub fn string_of(v: &[char]) -> (r: String)
    ensures
        r@ == v@,
{
    let mut out = String::new();
    let mut i: usize = 0;
    while i < v.len()
        invariant
            i <= v@.len(),
            out@ =~= v@.subrange(0, i as int),
        decreases v@.len() - i,
    {
        push_char(&mut out, v[i]);
        i = i + 1;
    }
    out
}

/// The characters of `v` from `from` to `to`, as a `String`.
pub fn string_of_range(v: &Vec<char>, from: usize, to: usize) -> (r: String)
    requires
        from <= to <= v@.len(),
    ensures
        r@ == v@.subrange(from as int, to as int),
{
    let mut out = String::new();
    let mut i: usize = from;
    while i < to
        invariant
            from <= i <= to <= v@.len(),
            out@ =~= v@.subrange(from as int, i as int),
        decreases to - i,
    {
        push_char(&mut out, v[i]);
        i = i + 1;
    }
    out
}

/// Whether `p` occurs in `s` at index `i`.
pub open spec fn occurs_at(s: Seq<char>, p: Seq<char>, i: int) -> bool {
    0 <= i && i + p.len() <= s.len() && s.subrange(i, i + p.len()) == p
}

/// The first index at or after `start` where `p` occurs in `s`.
pub open spec fn find_from(s: Seq<char>, p: Seq<char>, start: int) -> Option<int>
    decreases s.len() + 1 - start,
{
    if start < 0 || start + p.len() > s.len() {
        None
    } else if occurs_at(s, p, start) {
        Some(start)
    } else {
        find_from(s, p, start + 1)
    }
}

pub proof fn lemma_find_from_bounds(s: Seq<char>, p: Seq<char>, start: int)
    ensures
        find_from(s, p, start) is Some ==> {
            let k = find_from(s, p, start)->Some_0;
            start <= k && occurs_at(s, p, k)
        },
    decreases s.len() + 1 - start,
{
    if start < 0 || start + p.len() > s.len() {
    } else if occurs_at(s, p, start) {
    } else {
        lemma_find_from_bounds(s, p, start + 1);
    }
}

/// Exec counterpart of `find_from`.
pub fn find_seq(s: &Vec<char>, p: &Vec<char>, start: usize) -> (r: Option<usize>)
    ensures
        match find_from(s@, p@, start as int) {
            Some(k) => r == Some(k as usize) && occurs_at(s@, p@, k),
            None => r is None,
        },
{
    proof {
        lemma_find_from_bounds(s@, p@, start as int);
    }
    let mut i: usize = start;
    if p.len() > s.len() {
        return None;
    }
    while i <= s.len() - p.len()
        invariant
            start <= i,
            p@.len() <= s@.len(),
            find_from(s@, p@, start as int) == find_from(s@, p@, i as int),
        decreases s@.len() - i,
    {
        let mut j: usize = 0;
        let mut same = true;
        while j < p.len()
            invariant
                j <= p@.len(),
                i + p@.len() <= s@.len(),
                s@.len() <= usize::MAX,
                same == (s@.subrange(i as int, i + j) =~= p@.subrange(0, j as int)),
            decreases p@.len() - j,
        {
            proof {
                let a = s@.subrange(i as int, i + j + 1);
                let b = p@.subrange(0, j + 1);
                assert(a.subrange(0, j as int) =~= s@.subrange(i as int, i + j));
                assert(b.subrange(0, j as int) =~= p@.subrange(0, j as int));
                if a.subrange(0, j as int) =~= b.subrange(0, j as int) && a[j as int] == b[j as int] {
                    assert(a =~= b);
                }
            }
            if s[i + j] != p[j] {
                same = false;
            }
            j = j + 1;
        }
        assert(p@.subrange(0, p@.len() as int) =~= p@);
        if same {
            return Some(i);
        }
        i = i + 1;
    }
    None
}

/// The first index at or after `start` where `c` stands in `s`.
pub open spec fn find_char_from(s: Seq<char>, c: char, start: int) -> Option<int>
    decreases s.len() - start,
{
    if start < 0 || start >= s.len() {
        None
    } else if s[start] == c {
        Some(start)
    } else {
        find_char_from(s, c, start + 1)
    }
}

proof fn lemma_find_char_from_bounds(s: Seq<char>, c: char, start: int)
    ensures
        find_char_from(s, c, start) is Some ==> {
            let k = find_char_from(s, c, start)->Some_0;
            start <= k < s.len() && s[k] == c
        },
    decreases s.len() - start,
{
    if start < 0 || start >= s.len() {
    } else if s[start] == c {
    } else {
        lemma_find_char_from_bounds(s, c, start + 1);
    }
}

/// `find_char_from` finds something when `c` stands at `k` at or after `start`.
pub proof fn lemma_find_char_present(s: Seq<char>, c: char, start: int, k: int)
    requires
        0 <= start <= k < s.len(),
        s[k] == c,
    ensures
        find_char_from(s, c, start) is Some,
    decreases k - start,
{
    if s[start] != c {
        lemma_find_char_present(s, c, start + 1, k);
    }
}

/// Exec counterpart of `find_char_from`.
pub fn find_char(s: &Vec<char>, c: char, start: usize) -> (r: Option<usize>)
    ensures
        match find_char_from(s@, c, start as int) {
            Some(k) => r == Some(k as usize) && start <= k < s@.len() && s@[k] == c,
            None => r is None,
        },
{
    proof {
        lemma_find_char_from_bounds(s@, c, start as int);
    }
    let mut i: usize = start;
    while i < s.len()
        invariant
            start <= i,
            find_char_from(s@, c, start as int) == find_char_from(s@, c, i as int),
        decreases s@.len() - i,
    {
        if s[i] == c {
            return Some(i);
        }
        i = i + 1;
    }
    None
}

/// The character sequences held by a sequence of vectors.
pub open spec fn views(v: Seq<Vec<char>>) -> Seq<Seq<char>> {
    v.map_values(|x: Vec<char>| x@)
}

/// The pieces of `s` between occurrences of `sep`, as `str::split` gives them:
/// one more piece than there are separators.
pub open spec fn split_on(s: Seq<char>, sep: char) -> Seq<Seq<char>>
    decreases s.len(),
{
    if s.len() == 0 {
        seq![Seq::<char>::empty()]
    } else {
        let prev = split_on(s.drop_last(), sep);
        if s.last() == sep {
            prev.push(Seq::<char>::empty())
        } else {
            prev.update(prev.len() - 1, prev.last().push(s.last()))
        }
    }
}

proof fn lemma_split_nonempty(s: Seq<char>, sep: char)
    ensures
        split_on(s, sep).len() >= 1,
    decreases s.len(),
{
    if s.len() > 0 {
        lemma_split_nonempty(s.drop_last(), sep);
    }
}

/// Splits `s` at each `sep`.
pub fn split_chars(s: &Vec<char>, sep: char) -> (r: Vec<Vec<char>>)
    ensures
        views(r@) == split_on(s@, sep),
        r@.len() >= 1,
{
    let mut segs: Vec<Vec<char>> = Vec::new();
    let mut cur: Vec<char> = Vec::new();
    let mut i: usize = 0;
    while i < s.len()
        invariant
            i <= s@.len(),
            views(segs@).push(cur@) =~= split_on(s@.subrange(0, i as int), sep),
        decreases s@.len() - i,
    {
        proof {
            assert(s@.subrange(0, i + 1).drop_last() =~= s@.subrange(0, i as int));
            lemma_split_nonempty(s@.subrange(0, i as int), sep);
        }
        let ghost prev = views(segs@).push(cur@);
        if s[i] == sep {
            let done = cur;
            segs.push(done);
            cur = Vec::new();
            assert(views(segs@).push(cur@) =~= prev.push(Seq::<char>::empty()));
        } else {
            cur.push(s[i]);
            assert(views(segs@).push(cur@) =~= prev.update(prev.len() - 1, prev.last().push(s@[i as int])));
        }
        i = i + 1;
    }
    let ghost before = views(segs@);
    segs.push(cur);
    proof {
        assert(s@.subrange(0, s@.len() as int) =~= s@);
        assert(views(segs@) =~= before.push(cur@));
    }
    segs
}

/// The pieces of `segs` joined with `sep` between each two, as `join` gives them.
pub open spec fn join_with(segs: Seq<Seq<char>>, sep: char) -> Seq<char>
    decreases segs.len(),
{
    if segs.len() == 0 {
        Seq::empty()
    } else if segs.len() == 1 {
        segs[0]
    } else {
        join_with(segs.drop_last(), sep).push(sep) + segs.last()
    }
}

/// Joins `segs[from..]` with `sep`.
pub fn join_from(segs: &Vec<Vec<char>>, from: usize, sep: char) -> (r: Vec<char>)
    requires
        from <= segs@.len(),
    ensures
        r@ == join_with(views(segs@).subrange(from as int, segs@.len() as int), sep),
{
    let mut out: Vec<char> = Vec::new();
    let mut i: usize = from;
    while i < segs.len()
        invariant
            from <= i <= segs@.len(),
            out@ == join_with(views(segs@).subrange(from as int, i as int), sep),
        decreases segs@.len() - i,
    {
        let ghost prev = views(segs@).subrange(from as int, i as int);
        let ghost next = views(segs@).subrange(from as int, i + 1);
        proof {
            assert(next.drop_last() =~= prev);
        }
        if i > from {
            out.push(sep);
        }
        let mut j: usize = 0;
        let ghost base = out@;
        while j < segs[i].len()
            invariant
                i < segs@.len(),
                j <= segs@[i as int]@.len(),
                out@ =~= base + segs@[i as int]@.subrange(0, j as int),
            decreases segs@[i as int]@.len() - j,
        {
            out.push(segs[i][j]);
            j = j + 1;
        }
        proof {
            assert(segs@[i as int]@.subrange(0, j as int) =~= segs@[i as int]@);
            assert(next.last() == segs@[i as int]@);
            if i == from {
                assert(base =~= Seq::<char>::empty());
                assert(out@ =~= next[0]);
            }
        }
        i = i + 1;
    }
    out
}

/// Whether `c` has the Unicode White_Space property, as `char::is_whitespace` documents it.
pub open spec fn is_white_space(c: char) -> bool {
    ('\u{9}' <= c && c <= '\u{d}') || c == ' ' || c == '\u{85}' || c == '\u{a0}'
        || c == '\u{1680}' || ('\u{2000}' <= c && c <= '\u{200a}') || c == '\u{2028}'
        || c == '\u{2029}' || c == '\u{202f}' || c == '\u{205f}' || c == '\u{3000}'
}

pub fn white_space(c: char) -> (r: bool)
    ensures
        r == is_white_space(c),
{
    ('\u{9}' <= c && c <= '\u{d}') || c == ' ' || c == '\u{85}' || c == '\u{a0}'
        || c == '\u{1680}' || ('\u{2000}' <= c && c <= '\u{200a}') || c == '\u{2028}'
        || c == '\u{2029}' || c == '\u{202f}' || c == '\u{205f}' || c == '\u{3000}'
}

/// The index of the first character of `s` at or after `start` that is not white space.
pub open spec fn skip_space(s: Seq<char>, start: int) -> int
    decreases s.len() - start,
{
    if start < 0 || start >= s.len() || !is_white_space(s[start]) {
        start
    } else {
        skip_space(s, start + 1)
    }
}

/// One past the last character of `s` before `end` that is not white space.
pub open spec fn skip_space_back(s: Seq<char>, start: int, end: int) -> int
    decreases end - start,
{
    if end <= start || end > s.len() || !is_white_space(s[end - 1]) {
        end
    } else {
        skip_space_back(s, start, end - 1)
    }
}

proof fn lemma_skip_space_bounds(s: Seq<char>, start: int)
    requires
        0 <= start <= s.len(),
    ensures
        start <= skip_space(s, start) <= s.len(),
    decreases s.len() - start,
{
    if start < s.len() && is_white_space(s[start]) {
        lemma_skip_space_bounds(s, start + 1);
    }
}

proof fn lemma_skip_space_back_bounds(s: Seq<char>, start: int, end: int)
    requires
        0 <= start <= end <= s.len(),
    ensures
        start <= skip_space_back(s, start, end) <= end,
    decreases end - start,
{
    if end > start && is_white_space(s[end - 1]) {
        lemma_skip_space_back_bounds(s, start, end - 1);
    }
}

/// `s` without white space at either end, as `str::trim` gives it.
pub open spec fn trimmed(s: Seq<char>) -> Seq<char> {
    let a = skip_space(s, 0);
    s.subrange(a, skip_space_back(s, a, s.len() as int))
}

/// Exec counterpart of `skip_space`.
pub fn skip_white_space(s: &Vec<char>, start: usize) -> (r: usize)
    requires
        start <= s@.len(),
    ensures
        r == skip_space(s@, start as int),
        start <= r <= s@.len(),
{
    proof {
        lemma_skip_space_bounds(s@, start as int);
    }
    let mut i = start;
    while i < s.len() && white_space(s[i])
        invariant
            start <= i <= s@.len(),
            skip_space(s@, i as int) == skip_space(s@, start as int),
        decreases s@.len() - i,
    {
        i = i + 1;
    }
    i
}

/// The bounds of `s` without white space at either end.
pub fn trim_bounds(s: &Vec<char>) -> (r: (usize, usize))
    ensures
        r.0 <= r.1 <= s@.len(),
        s@.subrange(r.0 as int, r.1 as int) == trimmed(s@),
{
    let a = skip_white_space(s, 0);
    proof {
        lemma_skip_space_back_bounds(s@, a as int, s@.len() as int);
    }
    let mut e = s.len();
    while e > a && white_space(s[e - 1])
        invariant
            a <= e <= s@.len(),
            skip_space_back(s@, a as int, e as int) == skip_space_back(s@, a as int, s@.len() as int),
        decreases e,
    {
        e = e - 1;
    }
    (a, e)
}

/// Appends the characters of `t` to `s`.
pub fn push_str(s: &mut String, t: &str)
    ensures
        final(s)@ == old(s)@ + t@,
{
    let v = chars_of(t);
    let mut i: usize = 0;
    while i < v.len()
        invariant
            i <= v@.len(),
            v@ == t@,
            s@ =~= old(s)@ + v@.subrange(0, i as int),
        decreases v@.len() - i,
    {
        push_char(s, v[i]);
        i = i + 1;
    }
}

/// Whether `p` occurs in `s` at index `i`.
pub fn occurs(s: &Vec<char>, p: &Vec<char>, i: usize) -> (r: bool)
    ensures
        r == occurs_at(s@, p@, i as int),
{
    if p.len() > s.len() || i > s.len() - p.len() {
        return false;
    }
    let mut j: usize = 0;
    while j < p.len()
        invariant
            j <= p@.len(),
            i + p@.len() <= s@.len(),
            s@.len() <= usize::MAX,
            s@.subrange(i as int, i + j) =~= p@.subrange(0, j as int),
        decreases p@.len() - j,
    {
        if s[i + j] != p[j] {
            assert(s@.subrange(i as int, i + p@.len())[j as int] != p@[j as int]);
            return false;
        }
        j = j + 1;
    }
    assert(p@.subrange(0, p@.len() as int) =~= p@);
    true
}

/// Whether `s[from..to]` holds exactly the characters of `p`.
pub fn range_is(s: &Vec<char>, from: usize, to: usize, p: &Vec<char>) -> (r: bool)
    requires
        from <= to <= s@.len(),
    ensures
        r == (s@.subrange(from as int, to as int) == p@),
{
    if to - from != p.len() {
        assert(s@.subrange(from as int, to as int).len() != p@.len());
        return false;
    }
    occurs(s, p, from)
}

/// The index of the first character of `s` at or after `start` other than `c`.
pub open spec fn skip_char(s: Seq<char>, c: char, start: int) -> int
    decreases s.len() - start,
{
    if start < 0 || start >= s.len() || s[start] != c {
        start
    } else {
        skip_char(s, c, start + 1)
    }
}

proof fn lemma_skip_char_bounds(s: Seq<char>, c: char, start: int)
    requires
        0 <= start <= s.len(),
    ensures
        start <= skip_char(s, c, start) <= s.len(),
    decreases s.len() - start,
{
    if start < s.len() && s[start] == c {
        lemma_skip_char_bounds(s, c, start + 1);
    }
}

/// Exec counterpart of `skip_char`.
pub fn skip_chars(s: &Vec<char>, c: char, start: usize) -> (r: usize)
    requires
        start <= s@.len(),
    ensures
        r == skip_char(s@, c, start as int),
        start <= r <= s@.len(),
{
    proof {
        lemma_skip_char_bounds(s@, c, start as int);
    }
    let mut i = start;
    while i < s.len() && s[i] == c
        invariant
            start <= i <= s@.len(),
            skip_char(s@, c, i as int) == skip_char(s@, c, start as int),
        decreases s@.len() - i,
    {
        i = i + 1;
    }
    i
}

} // verus!
