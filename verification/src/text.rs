//! Text held as UTF-8: decoding a byte buffer, cutting a string slice at byte
//! offsets, and comparing string slices.

use vstd::prelude::*;
use vstd::utf8::*;
use vstd::string::*;
use crate::scan::{matches_at, skip_whitespace, spec_trim, starts_at, trim_end};

verus! {

/// The error type of `core::str::from_utf8`, carried through opaquely.
#[verifier::external_type_specification]
#[verifier::external_body]
pub struct ExUtf8Error(core::str::Utf8Error);

/// `core::str::from_utf8` succeeds exactly on well-formed UTF-8, and the
/// string it returns is laid over the very bytes it was given.
pub assume_specification<'a>[ core::str::from_utf8 ](v: &'a [u8]) -> (res: Result<
    &'a str,
    core::str::Utf8Error,
>)
    ensures
        res is Ok <==> valid_utf8(v@),
        res matches Ok(s) ==> s.spec_bytes() == v@,
;

/// An offset at which a UTF-8 text may be cut: its end, or the first byte of
/// a character.
pub open spec fn is_cut(bytes: Seq<u8>, i: int) -> bool {
    0 <= i <= bytes.len() && (i < bytes.len() ==> !is_continuation_byte(bytes[i]))
}

/// In well-formed UTF-8 the cut offsets are the character boundaries.
pub proof fn lemma_cut_is_char_boundary(bytes: Seq<u8>, i: int)
    requires
        valid_utf8(bytes),
        is_cut(bytes, i),
    ensures
        is_char_boundary(bytes, i),
{
    if i < bytes.len() {
        is_char_boundary_iff_not_is_continuation_byte(bytes, i);
    } else {
        is_char_boundary_start_end_of_seq(bytes);
    }
}

/// The number of bytes in the encoding of a character whose first byte is `b`.
pub open spec fn lead_width(b: u8) -> int {
    if b <= 0x7f {
        1
    } else if b <= 0xdf {
        2
    } else if b <= 0xef {
        3
    } else {
        4
    }
}

/// In well-formed UTF-8, the offset just behind a whole character is a cut.
pub proof fn lemma_cut_after_char(bytes: Seq<u8>, i: int)
    requires
        valid_utf8(bytes),
        is_cut(bytes, i),
        i < bytes.len(),
    ensures
        is_cut(bytes, i + lead_width(bytes[i])),
{
    lemma_cut_is_char_boundary(bytes, i);
    valid_utf8_split(bytes, i);
    let rest = bytes.subrange(i, bytes.len() as int);
    assert(rest[0] == bytes[i]);
    assert(valid_first_scalar(rest) && valid_utf8(pop_first_scalar(rest)));
    let width = length_of_first_scalar(rest);
    assert(width == lead_width(bytes[i]));
    assert(width <= rest.len());
    let tail = pop_first_scalar(rest);
    if tail.len() > 0 {
        assert(valid_first_scalar(tail));
        assert(tail[0] == bytes[i + width]);
    }
}

/// The start and the end of well-formed UTF-8 are cuts.
pub proof fn lemma_ends_are_cuts(bytes: Seq<u8>)
    requires
        valid_utf8(bytes),
    ensures
        is_cut(bytes, 0),
        is_cut(bytes, bytes.len() as int),
{
    if bytes.len() > 0 {
        is_char_boundary_iff_not_is_continuation_byte(bytes, 0);
    }
}

/// Where well-formed UTF-8 starts with well-formed UTF-8, the end of that
/// start is a cut.
pub proof fn lemma_cut_after_prefix(bytes: Seq<u8>, prefix: Seq<u8>)
    requires
        valid_utf8(bytes),
        valid_utf8(prefix),
        matches_at(bytes, prefix, 0),
    ensures
        is_cut(bytes, prefix.len() as int),
    decreases prefix.len(),
{
    let k = prefix.len() as int;
    assert forall|j: int| 0 <= j < k implies bytes[j] == prefix[j] by {
        assert(bytes.subrange(0, k)[j] == prefix[j]);
    }
    if 0 < k < bytes.len() {
        let width = length_of_first_scalar(prefix);
        assert(valid_first_scalar(prefix));
        assert(width == length_of_first_scalar(bytes));
        let rest = pop_first_scalar(bytes);
        let prefix_rest = pop_first_scalar(prefix);
        assert(rest.subrange(0, prefix_rest.len() as int) =~= prefix_rest);
        lemma_cut_after_prefix(rest, prefix_rest);
        assert(rest[k - width] == bytes[k]);
    }
}

/// The part of `text` between the byte offsets `lo` and `hi`.
pub(crate) fn substr<'a>(text: &'a str, lo: usize, hi: usize) -> (piece: &'a str)
    requires
        lo <= hi,
        is_cut(text.spec_bytes(), lo as int),
        is_cut(text.spec_bytes(), hi as int),
    ensures
        piece.spec_bytes() == text.spec_bytes().subrange(lo as int, hi as int),
{
    let ghost bytes = text.spec_bytes();
    proof {
        encode_utf8_valid_utf8(text@);
        lemma_cut_is_char_boundary(bytes, hi as int);
    }
    let (head, _) = text.split_at(hi);
    proof {
        valid_utf8_split(bytes, hi as int);
        assert(head.spec_bytes() == bytes.subrange(0, hi as int));
        lemma_cut_is_char_boundary(head.spec_bytes(), lo as int);
    }
    let (_, piece) = head.split_at(lo);
    assert(piece.spec_bytes() =~= bytes.subrange(lo as int, hi as int));
    piece
}

/// `text` without the whitespace characters at its start and at its end.
pub fn trim_text<'a>(text: &'a str) -> (piece: &'a str)
    ensures
        piece.spec_bytes() == spec_trim(text.spec_bytes()),
{
    let bytes = text.as_bytes();
    proof {
        encode_utf8_valid_utf8(text@);
        lemma_ends_are_cuts(bytes@);
    }
    let lo = skip_whitespace(bytes, 0);
    let hi = trim_end(bytes, bytes.len());
    if lo < hi {
        substr(text, lo, hi)
    } else {
        let piece = substr(text, 0, 0);
        assert(piece.spec_bytes() =~= Seq::<u8>::empty());
        piece
    }
}

/// What follows `prefix` in `text`, where `text` starts with it.
pub fn strip_prefix<'a>(text: &'a str, prefix: &str) -> (rest: Option<&'a str>)
    ensures
        rest is Some <==> matches_at(text.spec_bytes(), prefix.spec_bytes(), 0),
        rest matches Some(piece) ==> piece.spec_bytes() == text.spec_bytes().skip(
            prefix.spec_bytes().len() as int,
        ),
{
    let bytes = text.as_bytes();
    let start = prefix.as_bytes();
    if !starts_at(bytes, start, 0) {
        return None;
    }
    proof {
        encode_utf8_valid_utf8(text@);
        encode_utf8_valid_utf8(prefix@);
        lemma_cut_after_prefix(bytes@, start@);
        lemma_ends_are_cuts(bytes@);
    }
    Some(substr(text, start.len(), bytes.len()))
}

/// Appends `bytes` to `dest`.
pub fn append_bytes(dest: &mut Vec<u8>, bytes: &[u8])
    ensures
        final(dest)@ == old(dest)@ + bytes@,
{
    let mut i: usize = 0;
    while i < bytes.len()
        invariant
            i <= bytes.len(),
            dest@ == old(dest)@ + bytes@.subrange(0, i as int),
        decreases bytes.len() - i,
    {
        dest.push(bytes[i]);
        assert(bytes@.subrange(0, i + 1) =~= bytes@.subrange(0, i as int).push(bytes@[i as int]));
        i = i + 1;
    }
    assert(bytes@.subrange(0, i as int) =~= bytes@);
}

/// Bytes that are all ASCII are UTF-8.
pub proof fn lemma_ascii_is_text(bytes: Seq<u8>)
    requires
        forall|i: int| 0 <= i < bytes.len() ==> bytes[i] <= 0x7f,
    ensures
        valid_utf8(bytes),
{
    let chars = Seq::new(bytes.len(), |i: int| bytes[i] as char);
    assert(is_ascii_chars(chars));
    is_ascii_chars_encode_utf8(chars);
    assert(encode_utf8(chars) =~= bytes);
    encode_utf8_valid_utf8(chars);
}

/// The text that some bytes hold, where they are UTF-8.
pub fn text_of(bytes: &[u8]) -> (text: Option<String>)
    ensures
        text is Some <==> valid_utf8(bytes@),
        text matches Some(t) ==> encode_utf8(t@) == bytes@,
{
    match core::str::from_utf8(bytes) {
        Ok(text) => Some(String::from_str(text)),
        Err(_) => None,
    }
}

/// The lower-case form of an ASCII letter; any other byte as it is.
pub open spec fn spec_ascii_lowercase(b: u8) -> u8 {
    if 0x41 <= b <= 0x5a {
        (b + 0x20) as u8
    } else {
        b
    }
}

/// Whether two byte sequences are the same once their ASCII letters are
/// brought to lower case.
pub open spec fn same_ignoring_ascii_case(a: Seq<u8>, b: Seq<u8>) -> bool {
    a.len() == b.len() && forall|i: int|
        0 <= i < a.len() ==> spec_ascii_lowercase(#[trigger] a[i]) == spec_ascii_lowercase(b[i])
}

/// The lower-case form of an ASCII letter; any other byte as it is.
pub fn ascii_lowercase(b: u8) -> (lower: u8)
    ensures
        lower == spec_ascii_lowercase(b),
{
    if 0x41 <= b && b <= 0x5a {
        b + 0x20
    } else {
        b
    }
}

/// Whether two string slices are the same but for the case of their ASCII
/// letters.
pub fn same_text_ignoring_ascii_case(a: &str, b: &str) -> (same: bool)
    ensures
        same == same_ignoring_ascii_case(a.spec_bytes(), b.spec_bytes()),
{
    let x = a.as_bytes();
    let y = b.as_bytes();
    if x.len() != y.len() {
        return false;
    }
    let mut i: usize = 0;
    while i < x.len()
        invariant
            x@ == a.spec_bytes(),
            y@ == b.spec_bytes(),
            x.len() == y.len(),
            0 <= i <= x.len(),
            forall|k: int|
                0 <= k < i ==> spec_ascii_lowercase(#[trigger] x@[k]) == spec_ascii_lowercase(
                    y@[k],
                ),
        decreases x.len() - i,
    {
        if ascii_lowercase(x[i]) != ascii_lowercase(y[i]) {
            assert(spec_ascii_lowercase(x@[i as int]) != spec_ascii_lowercase(y@[i as int]));
            return false;
        }
        i = i + 1;
    }
    true
}

/// Whether two string slices hold the same bytes.
pub fn same_text(a: &str, b: &str) -> (same: bool)
    ensures
        same == (a.spec_bytes() == b.spec_bytes()),
{
    let x = a.as_bytes();
    let y = b.as_bytes();
    if x.len() != y.len() {
        return false;
    }
    let mut i: usize = 0;
    while i < x.len()
        invariant
            x@ == a.spec_bytes(),
            y@ == b.spec_bytes(),
            x.len() == y.len(),
            0 <= i <= x.len(),
            x@.subrange(0, i as int) == y@.subrange(0, i as int),
        decreases x.len() - i,
    {
        if x[i] != y[i] {
            assert(x@[i as int] != y@[i as int]);
            return false;
        }
        assert(x@.subrange(0, i + 1) =~= x@.subrange(0, i as int).push(x@[i as int]));
        assert(y@.subrange(0, i + 1) =~= y@.subrange(0, i as int).push(y@[i as int]));
        i = i + 1;
    }
    assert(x@ =~= x@.subrange(0, i as int));
    assert(y@ =~= y@.subrange(0, i as int));
    true
}

} // verus!
