//! The base64 decoder used on API payloads.
use vstd::prelude::*;

use crate::error::GcpError;
use crate::text::{chars_of, is_white_space, skip_space, skip_space_back, trim_bounds, trimmed};

verus! {

/// Characters dropped before decoding: line breaks and padding.
pub open spec fn is_dropped(c: char) -> bool {
    c == '\n' || c == '\r' || c == '='
}

/// `s` without line breaks and padding.
pub open spec fn without_dropped(s: Seq<char>) -> Seq<char>
    decreases s.len(),
{
    if s.len() == 0 {
        s
    } else if is_dropped(s.last()) {
        without_dropped(s.drop_last())
    } else {
        without_dropped(s.drop_last()).push(s.last())
    }
}

/// The six-bit value of a base64 character.
pub open spec fn sextet(c: char) -> Option<u8> {
    if 'A' <= c && c <= 'Z' {
        Some((c as int - 'A' as int) as u8)
    } else if 'a' <= c && c <= 'z' {
        Some((c as int - 'a' as int + 26) as u8)
    } else if '0' <= c && c <= '9' {
        Some((c as int - '0' as int + 52) as u8)
    } else if c == '+' {
        Some(62u8)
    } else if c == '/' {
        Some(63u8)
    } else {
        None
    }
}

pub open spec fn all_sextets(s: Seq<char>) -> bool {
    forall|i: int| 0 <= i < s.len() ==> (#[trigger] sextet(s[i])) is Some
}

pub open spec fn sextets_of(s: Seq<char>) -> Seq<u8> {
    s.map_values(|c: char| sextet(c)->Some_0)
}

/// The bytes that six-bit values make, read most significant bit first:
/// within each group of four, every value after the first completes one byte
/// from the low bits of the one before it and its own high bits.
pub open spec fn bytes_of_sextets(v: Seq<u8>) -> Seq<u8>
    decreases v.len(),
{
    if v.len() == 0 {
        Seq::empty()
    } else {
        let p = bytes_of_sextets(v.drop_last());
        let n = v.len() - 1;
        if n % 4 == 0 {
            p
        } else if n % 4 == 1 {
            p.push((v[n - 1] * 4 + v[n] / 16) as u8)
        } else if n % 4 == 2 {
            p.push(((v[n - 1] % 16) * 16 + v[n] / 4) as u8)
        } else {
            p.push(((v[n - 1] % 4) * 64 + v[n]) as u8)
        }
    }
}

/// What decoding `s` gives: `None` when a character outside the alphabet
/// remains after trimming and dropping line breaks and padding.
pub open spec fn base64_decoded(s: Seq<char>) -> Option<Seq<u8>> {
    let c = without_dropped(trimmed(s));
    if all_sextets(c) {
        Some(bytes_of_sextets(sextets_of(c)))
    } else {
        None
    }
}

/// The base64 character of a six-bit value.
pub open spec fn b64_char(v: u8) -> char {
    if v < 26 {
        ('A' as int + v) as char
    } else if v < 52 {
        ('a' as int + v - 26) as char
    } else if v < 62 {
        ('0' as int + v - 52) as char
    } else if v == 62 {
        '+'
    } else {
        '/'
    }
}

/// The six-bit values that encode `b`, three bytes to four values, with a
/// short last group of two or three values.
pub open spec fn encoded_sextets(b: Seq<u8>) -> Seq<u8>
    decreases b.len(),
{
    if b.len() == 0 {
        Seq::empty()
    } else if b.len() == 1 {
        seq![b[0] / 4, ((b[0] % 4) * 16) as u8]
    } else if b.len() == 2 {
        seq![b[0] / 4, ((b[0] % 4) * 16 + b[1] / 16) as u8, ((b[1] % 16) * 4) as u8]
    } else {
        seq![
            b[0] / 4,
            ((b[0] % 4) * 16 + b[1] / 16) as u8,
            ((b[1] % 16) * 4 + b[2] / 64) as u8,
            b[2] % 64,
        ] + encoded_sextets(b.subrange(3, b.len() as int))
    }
}

/// Base64 of `b` without padding.
pub open spec fn base64_unpadded(b: Seq<u8>) -> Seq<char> {
    encoded_sextets(b).map_values(|v: u8| b64_char(v))
}

/// Base64 of `b`, padded with `=` to a multiple of four characters.
pub open spec fn base64_padded(b: Seq<u8>) -> Seq<char> {
    if b.len() % 3 == 1 {
        base64_unpadded(b) + seq!['=', '=']
    } else if b.len() % 3 == 2 {
        base64_unpadded(b) + seq!['=']
    } else {
        base64_unpadded(b)
    }
}

proof fn lemma_encoded_sextets_small(b: Seq<u8>)
    ensures
        forall|i: int| 0 <= i < encoded_sextets(b).len() ==> #[trigger] encoded_sextets(b)[i] < 64,
        b.len() > 0 ==> encoded_sextets(b).len() > 0,
    decreases b.len(),
{
    if b.len() >= 3 {
        lemma_encoded_sextets_small(b.subrange(3, b.len() as int));
        let h = seq![
            b[0] / 4,
            ((b[0] % 4) * 16 + b[1] / 16) as u8,
            ((b[1] % 16) * 4 + b[2] / 64) as u8,
            b[2] % 64,
        ];
        let t = encoded_sextets(b.subrange(3, b.len() as int));
        assert forall|i: int| 0 <= i < (h + t).len() implies #[trigger] (h + t)[i] < 64 by {
            if i >= 4 {
                assert((h + t)[i] == t[i - 4]);
            }
        }
    }
}

proof fn lemma_b64_char_sextet(v: u8)
    requires
        v < 64,
    ensures
        sextet(b64_char(v)) == Some(v),
{
}

proof fn lemma_sextets_of_unpadded(b: Seq<u8>)
    ensures
        all_sextets(base64_unpadded(b)),
        sextets_of(base64_unpadded(b)) == encoded_sextets(b),
{
    lemma_encoded_sextets_small(b);
    let e = encoded_sextets(b);
    let u = base64_unpadded(b);
    assert forall|i: int| 0 <= i < u.len() implies (#[trigger] sextet(u[i])) is Some by {
        lemma_b64_char_sextet(e[i]);
    }
    assert forall|i: int| 0 <= i < u.len() implies #[trigger] sextets_of(u)[i] == e[i] by {
        lemma_b64_char_sextet(e[i]);
    }
    assert(sextets_of(u) =~= e);
}

proof fn lemma_bytes_of_sextets_concat(u: Seq<u8>, w: Seq<u8>)
    requires
        u.len() % 4 == 0,
    ensures
        bytes_of_sextets(u + w) == bytes_of_sextets(u) + bytes_of_sextets(w),
    decreases w.len(),
{
    if w.len() == 0 {
        assert(u + w =~= u);
        assert(bytes_of_sextets(u) + Seq::<u8>::empty() =~= bytes_of_sextets(u));
    } else {
        lemma_bytes_of_sextets_concat(u, w.drop_last());
        assert((u + w).drop_last() =~= u + w.drop_last());
        let n = (u + w).len() - 1;
        let m = w.len() - 1;
        assert(n % 4 == m % 4);
        if m >= 1 {
            assert((u + w)[n - 1] == w[m - 1]);
        }
        assert((u + w)[n] == w[m]);
        let p = bytes_of_sextets(u + w.drop_last());
        assert(bytes_of_sextets(u) + bytes_of_sextets(w.drop_last()) == p);
        if m % 4 != 0 {
            assert((bytes_of_sextets(u) + bytes_of_sextets(w.drop_last())).push(
                bytes_of_sextets(w).last(),
            ) =~= bytes_of_sextets(u) + bytes_of_sextets(w.drop_last()).push(
                bytes_of_sextets(w).last(),
            ));
        }
    }
}

proof fn lemma_group(b0: u8, b1: u8, b2: u8)
    ensures
        ((b0 / 4) * 4 + (((b0 % 4) * 16 + b1 / 16) as u8) / 16) as u8 == b0,
        (((((b0 % 4) * 16 + b1 / 16) as u8) % 16) * 16 + (((b1 % 16) * 4 + b2 / 64) as u8) / 4) as u8
            == b1,
        (((((b1 % 16) * 4 + b2 / 64) as u8) % 4) * 64 + b2 % 64) as u8 == b2,
        (((((b0 % 4) * 16 + b1 / 16) as u8) % 16) * 16 + (((b1 % 16) * 4) as u8) / 4) as u8 == b1,
        ((b0 / 4) * 4 + (((b0 % 4) * 16) as u8) / 16) as u8 == b0,
{
    assert(((b0 / 4) * 4 + (((b0 % 4) * 16 + b1 / 16) as u8) / 16) as u8 == b0) by (bit_vector);
    assert((((((b0 % 4) * 16 + b1 / 16) as u8) % 16) * 16 + (((b1 % 16) * 4 + b2 / 64) as u8) / 4)
        as u8 == b1) by (bit_vector);
    assert((((((b1 % 16) * 4 + b2 / 64) as u8) % 4) * 64 + b2 % 64) as u8 == b2) by (bit_vector);
    assert((((((b0 % 4) * 16 + b1 / 16) as u8) % 16) * 16 + (((b1 % 16) * 4) as u8) / 4) as u8
        == b1) by (bit_vector);
    assert(((b0 / 4) * 4 + (((b0 % 4) * 16) as u8) / 16) as u8 == b0) by (bit_vector);
}

proof fn lemma_decode_encoded(b: Seq<u8>)
    ensures
        bytes_of_sextets(encoded_sextets(b)) == b,
    decreases b.len(),
{
    if b.len() == 0 {
        assert(b =~= Seq::<u8>::empty());
    } else if b.len() == 1 {
        lemma_group(b[0], 0, 0);
        let e = encoded_sextets(b);
        assert(e.drop_last().drop_last() =~= Seq::<u8>::empty());
        assert(bytes_of_sextets(Seq::<u8>::empty()) =~= Seq::<u8>::empty());
        assert(bytes_of_sextets(e.drop_last()) =~= Seq::<u8>::empty());
        assert(bytes_of_sextets(e) =~= b);
    } else if b.len() == 2 {
        lemma_group(b[0], b[1], 0);
        let e = encoded_sextets(b);
        assert(e.drop_last().drop_last().drop_last() =~= Seq::<u8>::empty());
        assert(bytes_of_sextets(Seq::<u8>::empty()) =~= Seq::<u8>::empty());
        assert(bytes_of_sextets(e.drop_last().drop_last()) =~= Seq::<u8>::empty());
        assert(bytes_of_sextets(e.drop_last()) =~= seq![b[0]]);
        assert(bytes_of_sextets(e) =~= b);
    } else {
        let t = b.subrange(3, b.len() as int);
        lemma_decode_encoded(t);
        lemma_group(b[0], b[1], b[2]);
        let h = seq![
            b[0] / 4,
            ((b[0] % 4) * 16 + b[1] / 16) as u8,
            ((b[1] % 16) * 4 + b[2] / 64) as u8,
            b[2] % 64,
        ];
        lemma_bytes_of_sextets_concat(h, encoded_sextets(t));
        assert(h.drop_last().drop_last().drop_last().drop_last() =~= Seq::<u8>::empty());
        assert(bytes_of_sextets(Seq::<u8>::empty()) =~= Seq::<u8>::empty());
        assert(bytes_of_sextets(h.drop_last().drop_last().drop_last()) =~= Seq::<u8>::empty());
        assert(bytes_of_sextets(h.drop_last().drop_last()) =~= seq![b[0]]);
        assert(bytes_of_sextets(h.drop_last()) =~= seq![b[0], b[1]]);
        assert(bytes_of_sextets(h) =~= b.subrange(0, 3));
        assert(b.subrange(0, 3) + t =~= b);
    }
}

proof fn lemma_without_dropped_keeps(s: Seq<char>)
    requires
        forall|i: int| 0 <= i < s.len() ==> !is_dropped(#[trigger] s[i]),
    ensures
        without_dropped(s) == s,
    decreases s.len(),
{
    if s.len() > 0 {
        lemma_without_dropped_keeps(s.drop_last());
        assert(s.drop_last().push(s.last()) =~= s);
    }
}

proof fn lemma_trim_keeps(s: Seq<char>)
    requires
        all_sextets(s),
    ensures
        trimmed(s) == s,
{
    if s.len() > 0 {
        assert(sextet(s[0]) is Some);
        assert(sextet(s[s.len() - 1]) is Some);
    }
    assert(skip_space(s, 0) == 0);
    assert(skip_space_back(s, 0, s.len() as int) == s.len());
    assert(s.subrange(0, s.len() as int) =~= s);
}

proof fn lemma_trim_padded(s: Seq<char>, pad: Seq<char>)
    requires
        all_sextets(s),
        s.len() > 0,
        forall|i: int| 0 <= i < pad.len() ==> #[trigger] pad[i] == '=',
    ensures
        trimmed(s + pad) == s + pad,
{
    let t = s + pad;
    assert(t[0] == s[0]);
    assert(sextet(s[0]) is Some);
    assert(skip_space(t, 0) == 0);
    if pad.len() > 0 {
        assert(t[t.len() - 1] == pad[pad.len() - 1]);
    } else {
        assert(t[t.len() - 1] == s[s.len() - 1]);
        assert(sextet(s[s.len() - 1]) is Some);
    }
    assert(skip_space_back(t, 0, t.len() as int) == t.len());
    assert(t.subrange(0, t.len() as int) =~= t);
}

/// Decoding the base64 of any byte sequence, padded or not, gives the bytes back.
pub proof fn lemma_base64_round_trip(b: Seq<u8>)
    ensures
        base64_decoded(base64_unpadded(b)) == Some(b),
        base64_decoded(base64_padded(b)) == Some(b),
{
    let u = base64_unpadded(b);
    lemma_sextets_of_unpadded(b);
    lemma_decode_encoded(b);
    lemma_encoded_sextets_small(b);
    assert forall|i: int| 0 <= i < u.len() implies !is_dropped(#[trigger] u[i]) by {
        assert(sextet(u[i]) is Some);
    }
    lemma_without_dropped_keeps(u);
    lemma_trim_keeps(u);
    if b.len() % 3 != 0 {
        let pad = if b.len() % 3 == 1 {
            seq!['=', '=']
        } else {
            seq!['=']
        };
        lemma_trim_padded(u, pad);
        assert(base64_padded(b) == u + pad);
        let t = u + pad;
        if pad.len() == 2 {
            assert(t.drop_last().drop_last() =~= u);
            assert(t.drop_last().last() == '=');
            assert(t.last() == '=');
            assert(without_dropped(t.drop_last()) == without_dropped(u));
            assert(without_dropped(t) == without_dropped(t.drop_last()));
        } else {
            assert(t.drop_last() =~= u);
            assert(t.last() == '=');
            assert(without_dropped(t) == without_dropped(u));
        }
        assert(without_dropped(u + pad) == u);
    }
}

proof fn lemma_skip_space_stops(s: Seq<char>, start: int, i: int)
    requires
        0 <= start <= i < s.len(),
        !is_white_space(s[i]),
    ensures
        start <= skip_space(s, start) <= i,
    decreases i - start,
{
    if is_white_space(s[start]) {
        lemma_skip_space_stops(s, start + 1, i);
    }
}

proof fn lemma_skip_space_back_stops(s: Seq<char>, start: int, end: int, i: int)
    requires
        0 <= start <= i < end <= s.len(),
        !is_white_space(s[i]),
    ensures
        i < skip_space_back(s, start, end) <= end,
    decreases end - start,
{
    if is_white_space(s[end - 1]) {
        lemma_skip_space_back_stops(s, start, end - 1, i);
    }
}

proof fn lemma_without_dropped_keeps_char(t: Seq<char>, k: int)
    requires
        0 <= k < t.len(),
        !is_dropped(t[k]),
    ensures
        exists|j: int| 0 <= j < without_dropped(t).len() && without_dropped(t)[j] == t[k],
    decreases t.len(),
{
    if k == t.len() - 1 {
        let w = without_dropped(t);
        assert(w == without_dropped(t.drop_last()).push(t.last()));
        assert(w[w.len() - 1] == t[k]);
    } else {
        lemma_without_dropped_keeps_char(t.drop_last(), k);
        let p = without_dropped(t.drop_last());
        let j = choose|j: int| 0 <= j < p.len() && p[j] == t.drop_last()[k];
        if is_dropped(t.last()) {
            assert(without_dropped(t) == p);
        } else {
            assert(without_dropped(t)[j] == p[j]);
        }
    }
}

/// Text that holds a character outside the alphabet which is neither white
/// space, a line break nor padding (such as `!`) does not decode.
pub proof fn lemma_foreign_character_rejected(s: Seq<char>, i: int)
    requires
        0 <= i < s.len(),
        sextet(s[i]) is None,
        !is_white_space(s[i]),
        !is_dropped(s[i]),
    ensures
        base64_decoded(s) is None,
{
    lemma_skip_space_stops(s, 0, i);
    let a = skip_space(s, 0);
    lemma_skip_space_back_stops(s, a, s.len() as int, i);
    let t = trimmed(s);
    assert(t[i - a] == s[i]);
    lemma_without_dropped_keeps_char(t, i - a);
    let w = without_dropped(t);
    let j = choose|j: int| 0 <= j < w.len() && w[j] == t[i - a];
    assert(sextet(w[j]) is None);
}

/// Exec counterpart of `sextet`.
fn sextet_value(c: char) -> (r: Option<u8>)
    ensures
        r == sextet(c),
{
    if 'A' <= c && c <= 'Z' {
        Some(((c as u32) - ('A' as u32)) as u8)
    } else if 'a' <= c && c <= 'z' {
        Some(((c as u32) - ('a' as u32) + 26) as u8)
    } else if '0' <= c && c <= '9' {
        Some(((c as u32) - ('0' as u32) + 52) as u8)
    } else if c == '+' {
        Some(62)
    } else if c == '/' {
        Some(63)
    } else {
        None
    }
}

/// The decoder of base64 payloads.
pub struct Base64Decoder;

impl Base64Decoder {
    /// Decodes base64 text. Surrounding white space, line breaks and `=`
    /// padding are ignored; the length need not be a multiple of four. Any
    /// other character outside the alphabet is a `ParseError`.
    pub fn decode(input: &str) -> (r: Result<Vec<u8>, GcpError>)
        ensures
            match base64_decoded(input@) {
                Some(b) => r is Ok && r->Ok_0@ == b,
                None => r is Err && r->Err_0 is ParseError,
            },
    {
        let s = chars_of(input);
        let (a, e) = trim_bounds(&s);
        let ghost t = s@.subrange(a as int, e as int);
        let mut c: Vec<char> = Vec::new();
        let mut i = a;
        while i < e
            invariant
                a <= i <= e <= s@.len(),
                t == s@.subrange(a as int, e as int),
                c@ == without_dropped(s@.subrange(a as int, i as int)),
            decreases e - i,
        {
            proof {
                assert(s@.subrange(a as int, i + 1).drop_last() =~= s@.subrange(a as int, i as int));
            }
            let ch = s[i];
            if !(ch == '\n' || ch == '\r' || ch == '=') {
                c.push(ch);
            }
            i = i + 1;
        }
        assert(t =~= s@.subrange(a as int, e as int));
        let mut out: Vec<u8> = Vec::new();
        let mut prev: u8 = 0;
        let mut j: usize = 0;
        while j < c.len()
            invariant
                j <= c@.len(),
                c@ == without_dropped(trimmed(input@)),
                all_sextets(c@.subrange(0, j as int)),
                out@ == bytes_of_sextets(sextets_of(c@.subrange(0, j as int))),
                j > 0 ==> prev == sextets_of(c@.subrange(0, j as int))[j - 1],
            decreases c@.len() - j,
        {
            let ghost p = c@.subrange(0, j as int);
            let ghost q = c@.subrange(0, j + 1);
            let v = match sextet_value(c[j]) {
                Some(v) => v,
                None => {
                    proof {
                        assert(sextet(c@[j as int]) is None);
                        assert(!all_sextets(c@));
                    }
                    return Err(GcpError::ParseError("Invalid base64 character".to_string()));
                },
            };
            proof {
                assert(sextets_of(q).drop_last() =~= sextets_of(p));
                assert(sextets_of(q)[j as int] == v);
                assert forall|k: int| 0 <= k < q.len() implies (#[trigger] sextet(q[k])) is Some by {
                    if k < j {
                        assert(q[k] == p[k]);
                    }
                }
                if j > 0 {
                    assert(sextets_of(q)[j - 1] == sextets_of(p)[j - 1]);
                }
            }
            if j % 4 == 1 {
                out.push(prev * 4 + v / 16);
            } else if j % 4 == 2 {
                out.push((prev % 16) * 16 + v / 4);
            } else if j % 4 == 3 {
                out.push((prev % 4) * 64 + v);
            }
            prev = v;
            j = j + 1;
        }
        assert(c@.subrange(0, c@.len() as int) =~= c@);
        Ok(out)
    }
}

} // verus!
