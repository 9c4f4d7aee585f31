//! Scanning a byte buffer: finding a byte or a byte pattern, and telling
//! whitespace from tokens. Offsets are counted in bytes from the start of the
//! buffer.

use vstd::prelude::*;
use vstd::slice::*;
use vstd::utf8::*;
use crate::text::{is_cut, lead_width, lemma_cut_after_char};

verus! {

/// The ASCII bytes that are whitespace: tab, line feed, vertical tab, form
/// feed, carriage return and space.
pub open spec fn is_ascii_whitespace(b: u8) -> bool {
    (0x09 <= b <= 0x0d) || b == 0x20
}

/// The two-byte encodings of whitespace: U+0085 and U+00A0.
pub open spec fn is_whitespace_pair(a: u8, b: u8) -> bool {
    a == 0xc2 && (b == 0x85 || b == 0xa0)
}

/// The three-byte encodings of whitespace: U+1680, U+2000 to U+200A, U+2028,
/// U+2029, U+202F, U+205F and U+3000.
pub open spec fn is_whitespace_triple(a: u8, b: u8, c: u8) -> bool {
    ||| (a == 0xe1 && b == 0x9a && c == 0x80)
    ||| (a == 0xe2 && b == 0x80 && ((0x80 <= c <= 0x8a) || c == 0xa8 || c == 0xa9 || c == 0xaf))
    ||| (a == 0xe2 && b == 0x81 && c == 0x9f)
    ||| (a == 0xe3 && b == 0x80 && c == 0x80)
}

/// The length of the whitespace character whose encoding starts at offset
/// `i`, or 0 where none starts there.
pub open spec fn spec_whitespace_width(s: Seq<u8>, i: int) -> int {
    if i < 0 || i >= s.len() {
        0
    } else if is_ascii_whitespace(s[i]) {
        1
    } else if i + 1 < s.len() && is_whitespace_pair(s[i], s[i + 1]) {
        2
    } else if i + 2 < s.len() && is_whitespace_triple(s[i], s[i + 1], s[i + 2]) {
        3
    } else {
        0
    }
}

/// The length of the whitespace character whose encoding ends just before
/// offset `e`, or 0 where none ends there.
pub open spec fn spec_whitespace_width_before(s: Seq<u8>, e: int) -> int {
    if spec_whitespace_width(s, e - 1) == 1 {
        1
    } else if spec_whitespace_width(s, e - 2) == 2 {
        2
    } else if spec_whitespace_width(s, e - 3) == 3 {
        3
    } else {
        0
    }
}

/// The first offset at or after `i` at which no whitespace character starts.
pub open spec fn spec_skip_whitespace(s: Seq<u8>, i: int) -> int
    decreases s.len() - i,
{
    let w = spec_whitespace_width(s, i);
    if w > 0 {
        spec_skip_whitespace(s, i + w)
    } else {
        i
    }
}

/// The first offset at or after `i` at which a whitespace character starts,
/// or the end of the buffer.
pub open spec fn spec_token_end(s: Seq<u8>, i: int) -> int
    decreases s.len() - i,
{
    if i < 0 || i >= s.len() || spec_whitespace_width(s, i) > 0 {
        i
    } else {
        spec_token_end(s, i + 1)
    }
}

/// The last offset at or before `e` just before which no whitespace
/// character ends.
pub open spec fn spec_trim_end(s: Seq<u8>, e: int) -> int
    decreases e,
{
    let w = spec_whitespace_width_before(s, e);
    if e > 0 && w > 0 {
        spec_trim_end(s, e - w)
    } else {
        e
    }
}

/// The buffer without the whitespace characters at its start and at its end.
pub open spec fn spec_trim(s: Seq<u8>) -> Seq<u8> {
    let lo = spec_skip_whitespace(s, 0);
    let hi = spec_trim_end(s, s.len() as int);
    if lo < hi {
        s.subrange(lo, hi)
    } else {
        Seq::empty()
    }
}

/// The first offset at or after `i` that holds the byte `b`, or the end of
/// the buffer.
pub open spec fn spec_find_byte(s: Seq<u8>, b: u8, i: int) -> int
    decreases s.len() - i,
{
    if i < 0 || i >= s.len() {
        s.len() as int
    } else if s[i] == b {
        i
    } else {
        spec_find_byte(s, b, i + 1)
    }
}

/// Whether the bytes of `pat` stand in `s` from offset `i` on.
pub open spec fn matches_at(s: Seq<u8>, pat: Seq<u8>, i: int) -> bool {
    0 <= i && i + pat.len() <= s.len() && s.subrange(i, i + pat.len()) == pat
}

/// The first offset at or after `i` from which the bytes of `pat` stand in
/// `s`, if there is one.
pub open spec fn spec_find_pattern(s: Seq<u8>, pat: Seq<u8>, i: int) -> Option<int>
    decreases s.len() - i + 1,
{
    if i < 0 || i + pat.len() > s.len() {
        None
    } else if matches_at(s, pat, i) {
        Some(i)
    } else {
        spec_find_pattern(s, pat, i + 1)
    }
}

/// The characters that count as whitespace: those with the Unicode property
/// `White_Space`.
pub open spec fn is_whitespace_char(c: char) -> bool {
    let n = c as u32;
    ||| (0x09 <= n <= 0x0d)
    ||| n == 0x20
    ||| n == 0x85
    ||| n == 0xa0
    ||| n == 0x1680
    ||| (0x2000 <= n <= 0x200a)
    ||| n == 0x2028
    ||| n == 0x2029
    ||| n == 0x202f
    ||| n == 0x205f
    ||| n == 0x3000
}

/// Of a scalar that is encoded in one byte, that byte is ASCII whitespace
/// exactly if the scalar is whitespace.
proof fn lemma_whitespace_in_one_byte(n: u32)
    by (bit_vector)
    requires
        n <= 0x7f,
    ensures
        ({
            let a = (n & 0x7f) as u8;
            &&& a <= 0x7f
            &&& ((0x09 <= a && a <= 0x0d) || a == 0x20) <==> ((0x09 <= n && n <= 0x0d) || n
                == 0x20)
        }),
{
}

/// Of a scalar that is encoded in two bytes, the bytes are a whitespace pair
/// exactly if the scalar is whitespace.
proof fn lemma_whitespace_in_two_bytes(n: u32)
    by (bit_vector)
    requires
        0x80 <= n && n <= 0x7ff,
    ensures
        ({
            let a = 0xc0 | ((n >> 6) & 0x1f) as u8;
            let b = 0x80 | (n & 0x3f) as u8;
            &&& 0xc0 <= a && a <= 0xdf
            &&& (a == 0xc2 && (b == 0x85 || b == 0xa0)) <==> (n == 0x85 || n == 0xa0)
        }),
{
}

/// Of a scalar that is encoded in three bytes, the bytes are a whitespace
/// triple exactly if the scalar is whitespace.
proof fn lemma_whitespace_in_three_bytes(n: u32)
    by (bit_vector)
    requires
        0x800 <= n && n <= 0xffff,
    ensures
        ({
            let a = 0xe0 | ((n >> 12) & 0x0f) as u8;
            let b = 0x80 | ((n >> 6) & 0x3f) as u8;
            let c = 0x80 | (n & 0x3f) as u8;
            &&& 0xe0 <= a
            &&& (a == 0xe1 && b == 0x9a && c == 0x80) <==> n == 0x1680
            &&& (a == 0xe2 && b == 0x80 && ((0x80 <= c && c <= 0x8a) || c == 0xa8 || c == 0xa9
                || c == 0xaf)) <==> ((0x2000 <= n && n <= 0x200a) || n == 0x2028 || n == 0x2029
                || n == 0x202f)
            &&& (a == 0xe2 && b == 0x81 && c == 0x9f) <==> n == 0x205f
            &&& (a == 0xe3 && b == 0x80 && c == 0x80) <==> n == 0x3000
        }),
{
}

/// Of a scalar that is encoded in four bytes, the first byte starts no
/// whitespace.
proof fn lemma_whitespace_in_four_bytes(n: u32)
    by (bit_vector)
    ensures
        0xf0 <= (0xf0 | ((n >> 18) & 0x7) as u8),
{
}

/// Where the encoding of a character starts a text, a whitespace character
/// starts the text exactly if that character is whitespace, and it is as long
/// as the encoding.
pub proof fn lemma_whitespace_width_of_char(c: char, rest: Seq<u8>)
    ensures
        spec_whitespace_width(encode_scalar(c as u32) + rest, 0) == if is_whitespace_char(c) {
            encode_scalar(c as u32).len() as int
        } else {
            0
        },
{
    let n = c as u32;
    let s = encode_scalar(n) + rest;
    char_is_scalar(c);
    if has_width_1_encoding(n) {
        lemma_whitespace_in_one_byte(n);
        assert(s[0] == leading_byte_width_1(n));
    } else if has_width_2_encoding(n) {
        lemma_whitespace_in_two_bytes(n);
        assert(s[0] == leading_byte_width_2(n));
        assert(s[1] == last_continuation_byte(n));
    } else if has_width_3_encoding(n) {
        lemma_whitespace_in_three_bytes(n);
        assert(s[0] == leading_byte_width_3(n));
        assert(s[1] == second_last_continuation_byte(n));
        assert(s[2] == last_continuation_byte(n));
    } else {
        lemma_whitespace_in_four_bytes(n);
        assert(s[0] == leading_byte_width_4(n));
    }
}

/// The offsets that `spec_find_byte` returns lie between `i` and the end.
pub proof fn lemma_find_byte_bounds(s: Seq<u8>, b: u8, i: int)
    requires
        0 <= i <= s.len(),
    ensures
        i <= spec_find_byte(s, b, i) <= s.len(),
        spec_find_byte(s, b, i) < s.len() ==> s[spec_find_byte(s, b, i)] == b,
        forall|k: int| i <= k < spec_find_byte(s, b, i) ==> s[k] != b,
    decreases s.len() - i,
{
    if i < s.len() && s[i] != b {
        lemma_find_byte_bounds(s, b, i + 1);
    }
}

/// The offset that `spec_find_byte` returns is the only one in the buffer
/// that holds `b` with no `b` before it.
pub proof fn lemma_find_byte_unique(s: Seq<u8>, b: u8, at: int)
    requires
        0 <= at < s.len(),
        s[at] == b,
        forall|k: int| 0 <= k < at ==> s[k] != b,
    ensures
        spec_find_byte(s, b, 0) == at,
{
    lemma_find_byte_bounds(s, b, 0);
}

/// What `spec_find_pattern` returns is the first offset from `i` on at which
/// the pattern stands; it returns none only where the pattern stands at no
/// offset from `i` on.
pub proof fn lemma_find_pattern_first(s: Seq<u8>, pat: Seq<u8>, i: int)
    requires
        0 <= i,
    ensures
        match spec_find_pattern(s, pat, i) {
            Some(p) => i <= p && matches_at(s, pat, p) && forall|j: int|
                i <= j < p ==> !matches_at(s, pat, j),
            None => forall|j: int| i <= j ==> !matches_at(s, pat, j),
        },
    decreases s.len() - i + 1,
{
    if i + pat.len() <= s.len() && !matches_at(s, pat, i) {
        lemma_find_pattern_first(s, pat, i + 1);
    }
}

/// Whether byte `b` is ASCII whitespace.
pub fn is_ascii_space(b: u8) -> (yes: bool)
    ensures
        yes == is_ascii_whitespace(b),
{
    (0x09 <= b && b <= 0x0d) || b == 0x20
}

/// The length of the whitespace character that starts at offset `i`, or 0.
pub fn whitespace_width(s: &[u8], i: usize) -> (w: usize)
    ensures
        w == spec_whitespace_width(s@, i as int),
        w <= 3,
        w > 0 ==> i + w <= s.len() && w == lead_width(s@[i as int]) && !is_continuation_byte(
            s@[i as int],
        ),
{
    let n = s.len();
    if i >= n {
        return 0;
    }
    let a = s[i];
    if is_ascii_space(a) {
        return 1;
    }
    if n - i < 2 {
        return 0;
    }
    let b = s[i + 1];
    if a == 0xc2 && (b == 0x85 || b == 0xa0) {
        return 2;
    }
    if n - i < 3 {
        return 0;
    }
    let c = s[i + 2];
    if (a == 0xe1 && b == 0x9a && c == 0x80) || (a == 0xe2 && b == 0x80 && ((0x80 <= c && c
        <= 0x8a) || c == 0xa8 || c == 0xa9 || c == 0xaf)) || (a == 0xe2 && b == 0x81 && c == 0x9f)
        || (a == 0xe3 && b == 0x80 && c == 0x80) {
        return 3;
    }
    0
}

/// The length of the whitespace character that ends just before offset `e`,
/// or 0.
pub fn whitespace_width_before(s: &[u8], e: usize) -> (w: usize)
    ensures
        w == spec_whitespace_width_before(s@, e as int),
        w <= e,
        w > 0 ==> e <= s.len() && !is_continuation_byte(s@[e - w]),
{
    if e >= 1 && whitespace_width(s, e - 1) == 1 {
        1
    } else if e >= 2 && whitespace_width(s, e - 2) == 2 {
        2
    } else if e >= 3 && whitespace_width(s, e - 3) == 3 {
        3
    } else {
        0
    }
}

/// The first offset at or after `i` at which no whitespace character starts.
pub fn skip_whitespace(s: &[u8], i: usize) -> (j: usize)
    ensures
        j == spec_skip_whitespace(s@, i as int),
        i <= j,
        i <= s.len() ==> j <= s.len(),
        valid_utf8(s@) && is_cut(s@, i as int) ==> is_cut(s@, j as int),
{
    let mut j = i;
    loop
        invariant
            i <= j,
            i <= s.len() ==> j <= s.len(),
            spec_skip_whitespace(s@, j as int) == spec_skip_whitespace(s@, i as int),
            valid_utf8(s@) && is_cut(s@, i as int) ==> is_cut(s@, j as int),
        decreases s.len() - j,
    {
        let w = whitespace_width(s, j);
        if w == 0 {
            return j;
        }
        proof {
            if valid_utf8(s@) && is_cut(s@, i as int) {
                lemma_cut_after_char(s@, j as int);
            }
        }
        j = j + w;
    }
}

/// The first offset at or after `i` at which a whitespace character starts,
/// or the end of the buffer.
pub fn token_end(s: &[u8], i: usize) -> (j: usize)
    ensures
        j == spec_token_end(s@, i as int),
        i <= j,
        i <= s.len() ==> j <= s.len() && is_cut(s@, j as int),
{
    let mut j = i;
    while j < s.len() && whitespace_width(s, j) == 0
        invariant
            i <= j,
            i <= s.len() ==> j <= s.len(),
            spec_token_end(s@, j as int) == spec_token_end(s@, i as int),
        decreases s.len() - j,
    {
        j = j + 1;
    }
    j
}

/// The last offset at or before `e` just before which no whitespace
/// character ends.
pub fn trim_end(s: &[u8], e: usize) -> (j: usize)
    ensures
        j == spec_trim_end(s@, e as int),
        j <= e,
        is_cut(s@, e as int) ==> is_cut(s@, j as int),
{
    let mut j = e;
    loop
        invariant
            j <= e,
            spec_trim_end(s@, j as int) == spec_trim_end(s@, e as int),
            is_cut(s@, e as int) ==> is_cut(s@, j as int),
        decreases j,
    {
        let w = whitespace_width_before(s, j);
        if w == 0 {
            return j;
        }
        j = j - w;
    }
}

/// The first offset at or after `i` that holds the byte `b`, or the end of
/// the buffer.
pub fn find_byte(s: &[u8], b: u8, i: usize) -> (j: usize)
    ensures
        j == spec_find_byte(s@, b, i as int),
        j <= s.len(),
        i <= s.len() ==> i <= j,
{
    if i >= s.len() {
        return s.len();
    }
    let mut j = i;
    while j < s.len() && s[j] != b
        invariant
            i <= j <= s.len(),
            spec_find_byte(s@, b, j as int) == spec_find_byte(s@, b, i as int),
        decreases s.len() - j,
    {
        j = j + 1;
    }
    j
}

/// Whether the bytes of `pat` stand in `s` from offset `i` on.
pub fn starts_at(s: &[u8], pat: &[u8], i: usize) -> (yes: bool)
    ensures
        yes == matches_at(s@, pat@, i as int),
{
    if i > s.len() || pat.len() > s.len() - i {
        return false;
    }
    let mut k: usize = 0;
    while k < pat.len()
        invariant
            i + pat.len() <= s.len(),
            k <= pat.len(),
            s@.subrange(i as int, i + k) == pat@.subrange(0, k as int),
        decreases pat.len() - k,
    {
        if s[i + k] != pat[k] {
            assert(s@.subrange(i as int, i + pat.len())[k as int] != pat@[k as int]);
            return false;
        }
        assert(s@.subrange(i as int, i + k + 1) =~= s@.subrange(i as int, i + k).push(
            s@[i + k],
        ));
        assert(pat@.subrange(0, k + 1) =~= pat@.subrange(0, k as int).push(pat@[k as int]));
        k = k + 1;
    }
    assert(pat@ =~= pat@.subrange(0, k as int));
    true
}

/// The first offset from which the bytes of `pat` stand in `s`, if any.
pub fn find_pattern(s: &[u8], pat: &[u8]) -> (found: Option<usize>)
    ensures
        found is Some <==> spec_find_pattern(s@, pat@, 0) is Some,
        found matches Some(p) ==> spec_find_pattern(s@, pat@, 0) == Some(p as int) && p
            + pat.len() <= s.len(),
{
    if pat.len() > s.len() {
        return None;
    }
    let last = s.len() - pat.len();
    let mut i: usize = 0;
    loop
        invariant
            last + pat.len() == s.len(),
            i <= last,
            spec_find_pattern(s@, pat@, i as int) == spec_find_pattern(s@, pat@, 0),
        decreases last - i,
    {
        if starts_at(s, pat, i) {
            return Some(i);
        }
        if i == last {
            assert(spec_find_pattern(s@, pat@, i + 1) is None);
            return None;
        }
        i = i + 1;
    }
}

} // verus!
