//! Request parsing: the request line, the header lines, the body, and the
//! `Range` header.

use vstd::prelude::*;
use vstd::slice::*;
use vstd::string::*;
use vstd::utf8::*;
use vstd::std_specs::convert::FromSpecImpl;
use crate::number::{
    is_digit, lemma_decimal_round_trip, parse_u64, push_decimal, spec_decimal, spec_parse_u64,
};
use crate::scan::{
    find_byte, find_pattern, lemma_find_byte_bounds, matches_at, skip_whitespace, spec_find_byte,
    spec_find_pattern, spec_skip_whitespace, spec_token_end, spec_trim, token_end,
};
use crate::text::{
    append_bytes, is_cut, lemma_ascii_is_text, lemma_cut_after_char, lemma_ends_are_cuts,
    same_ignoring_ascii_case, same_text_ignoring_ascii_case, strip_prefix, substr, text_of,
    trim_text,
};

verus! {

/// An HTTP request, laid over the buffer it was parsed from.
#[derive(Debug, Clone, PartialEq, Eq)]
pub struct Request<'a> {
    /// The request method.
    pub method: &'a str,
    /// The request path.
    pub path: &'a str,
    /// The HTTP version, without the `HTTP/` in front of it.
    pub version: &'a str,
    /// The headers, in the order in which they arrived.
    pub headers: Vec<(&'a str, &'a str)>,
    /// The body.
    pub body: &'a [u8],
}

/// Range header representation.
#[derive(Debug, Clone, Copy, PartialEq, Eq, Structural)]
pub enum RangeHeader {
    /// A valid range with start and end, each of which may be left out.
    Bytes(Option<u64>, Option<u64>),
    /// Invalid or unsupported range format.
    Invalid,
    /// No range specified.
    Absent,
}

/// Possible errors when parsing an HTTP packet.
#[derive(Debug, Clone, Copy, PartialEq, Eq, Structural)]
pub enum ParseRequestError {
    /// The packet does not contain a valid HTTP request line.
    InvalidRequestLine,
    /// The packet header is not properly encoded in UTF-8.
    InvalidUtf8,
    /// IO error while reading lines.
    IoError,
}

/// What a request holds, as bytes: each text field by its UTF-8 encoding.
pub struct RequestView {
    pub method: Seq<u8>,
    pub path: Seq<u8>,
    pub version: Seq<u8>,
    pub headers: Seq<(Seq<u8>, Seq<u8>)>,
    pub body: Seq<u8>,
}

/// The bytes of one header: its name and its value.
pub open spec fn header_view(header: (&str, &str)) -> (Seq<u8>, Seq<u8>) {
    (header.0.spec_bytes(), header.1.spec_bytes())
}

/// The bytes of each header of a list.
pub open spec fn headers_view(headers: Seq<(&str, &str)>) -> Seq<(Seq<u8>, Seq<u8>)> {
    Seq::new(headers.len(), |i: int| header_view(headers[i]))
}

impl<'a> View for Request<'a> {
    type V = RequestView;

    open spec fn view(&self) -> RequestView {
        RequestView {
            method: self.method.spec_bytes(),
            path: self.path.spec_bytes(),
            version: self.version.spec_bytes(),
            headers: headers_view(self.headers@),
            body: self.body@,
        }
    }
}

/// The line feed byte, which ends a line.
pub open spec fn line_feed() -> u8 {
    0x0a
}

/// The colon byte, which parts a header's name from its value.
pub open spec fn colon() -> u8 {
    0x3a
}

/// The offset at which the body starts: just behind the first blank line
/// written with carriage returns, else just behind the first one written
/// without, else the end of the buffer.
pub open spec fn spec_header_end(bytes: Seq<u8>) -> int {
    let long = "\r\n\r\n".spec_bytes();
    let short = "\n\n".spec_bytes();
    match spec_find_pattern(bytes, long, 0) {
        Some(p) => p + long.len(),
        None => match spec_find_pattern(bytes, short, 0) {
            Some(p) => p + short.len(),
            None => bytes.len() as int,
        },
    }
}

/// The token of `line` that starts at or after offset `from`: the offsets
/// at which it starts and ends. It is empty where only whitespace is left.
pub open spec fn spec_next_token(line: Seq<u8>, from: int) -> (int, int) {
    let start = spec_skip_whitespace(line, from);
    (start, spec_token_end(line, start))
}

/// The first three tokens of a request line: method, path and version. The
/// line must hold at least three tokens parted by whitespace, the third
/// starting with `HTTP/`, which is left out of the version. What follows the
/// third token is passed over.
pub open spec fn spec_request_line(line: Seq<u8>) -> Option<(Seq<u8>, Seq<u8>, Seq<u8>)> {
    let prefix = "HTTP/".spec_bytes();
    let method = spec_next_token(line, 0);
    let path = spec_next_token(line, method.1);
    let version = spec_next_token(line, path.1);
    if method.0 < method.1 && path.0 < path.1 && version.0 < version.1 && matches_at(
        line.subrange(version.0, version.1),
        prefix,
        0,
    ) {
        Some(
            (
                line.subrange(method.0, method.1),
                line.subrange(path.0, path.1),
                line.subrange(version.0 + prefix.len(), version.1),
            ),
        )
    } else {
        None
    }
}

/// The header that a line holds: the trimmed text before its first colon and
/// the trimmed text behind it. A line without a colon holds none.
pub open spec fn spec_header_line(line: Seq<u8>) -> Option<(Seq<u8>, Seq<u8>)> {
    let at = spec_find_byte(line, colon(), 0);
    if at < line.len() {
        Some(
            (spec_trim(line.subrange(0, at)), spec_trim(line.subrange(at + 1, line.len() as int))),
        )
    } else {
        None
    }
}

/// The first line of `text`: what comes before its first line feed.
pub open spec fn first_line(text: Seq<u8>) -> Seq<u8> {
    text.subrange(0, spec_find_byte(text, line_feed(), 0))
}

/// What follows the first line of `text` and the line feed that ends it.
pub open spec fn after_first_line(text: Seq<u8>) -> Seq<u8> {
    let eol = spec_find_byte(text, line_feed(), 0);
    if eol < text.len() {
        text.subrange(eol + 1, text.len() as int)
    } else {
        Seq::empty()
    }
}

/// The headers held by the lines of `text`, in their order, up to the first
/// line that is blank once trimmed. A line without a colon is passed over.
pub open spec fn spec_headers(text: Seq<u8>) -> Seq<(Seq<u8>, Seq<u8>)>
    decreases text.len(),
{
    if text.len() == 0 {
        Seq::empty()
    } else {
        proof {
            lemma_find_byte_bounds(text, line_feed(), 0);
        }
        let line = spec_trim(first_line(text));
        if line.len() == 0 {
            Seq::empty()
        } else {
            match spec_header_line(line) {
                Some(header) => seq![header] + spec_headers(after_first_line(text)),
                None => spec_headers(after_first_line(text)),
            }
        }
    }
}

/// What parsing a buffer gives: the request, or why there is none.
pub open spec fn spec_parse(bytes: Seq<u8>) -> Result<RequestView, ParseRequestError> {
    let end = spec_header_end(bytes);
    let head = bytes.subrange(0, end);
    if !valid_utf8(head) {
        Err(ParseRequestError::InvalidUtf8)
    } else {
        match spec_request_line(first_line(head)) {
            None => Err(ParseRequestError::InvalidRequestLine),
            Some((method, path, version)) => Ok(
                RequestView {
                    method,
                    path,
                    version,
                    headers: spec_headers(after_first_line(head)),
                    body: bytes.subrange(end, bytes.len() as int),
                },
            ),
        }
    }
}

/// The hyphen byte, which parts the start of a range from its end.
pub open spec fn hyphen() -> u8 {
    0x2d
}

/// One end of a range: left out where the text is empty, else the number
/// that the text writes. Text that writes no number is an error.
pub open spec fn spec_parse_optional(s: Seq<u8>) -> Result<Option<u64>, ()> {
    if s.len() == 0 {
        Ok(None)
    } else {
        match spec_parse_u64(s) {
            Some(n) => Ok(Some(n)),
            None => Err(()),
        }
    }
}

/// The range that the value of a `Range` header asks for: `bytes=`, then
/// the start, a hyphen and the end, where the start and the end are numbers
/// and each may be left out. Any other value is invalid.
pub open spec fn spec_range_value(value: Seq<u8>) -> RangeHeader {
    let unit = "bytes=".spec_bytes();
    if !matches_at(value, unit, 0) {
        RangeHeader::Invalid
    } else {
        let range = value.skip(unit.len() as int);
        let at = spec_find_byte(range, hyphen(), 0);
        if at >= range.len() {
            RangeHeader::Invalid
        } else {
            match (
                spec_parse_optional(range.subrange(0, at)),
                spec_parse_optional(range.subrange(at + 1, range.len() as int)),
            ) {
                (Ok(start), Ok(end)) => RangeHeader::Bytes(start, end),
                _ => RangeHeader::Invalid,
            }
        }
    }
}

/// Whether a header is named `Range`, whatever the case of its letters.
pub open spec fn is_range_name(name: Seq<u8>) -> bool {
    same_ignoring_ascii_case(name, "Range".spec_bytes())
}

/// The range that a list of headers asks for: that of the first header named
/// `Range`, if there is one.
pub open spec fn spec_range_header(headers: Seq<(Seq<u8>, Seq<u8>)>) -> RangeHeader
    decreases headers.len(),
{
    if headers.len() == 0 {
        RangeHeader::Absent
    } else if is_range_name(headers[0].0) {
        spec_range_value(headers[0].1)
    } else {
        spec_range_header(headers.drop_first())
    }
}

/// The range that the value of a `Range` header asks for.
pub fn parse_range_value(value: &str) -> (range: RangeHeader)
    ensures
        range == spec_range_value(value.spec_bytes()),
{
    let Some(rest) = strip_prefix(value, "bytes=") else {
        return RangeHeader::Invalid;
    };
    let bytes = rest.as_bytes();
    let at = find_byte(bytes, 0x2d, 0);
    if at >= bytes.len() {
        return RangeHeader::Invalid;
    }
    let start = Request::parse_optional(slice_subrange(bytes, 0, at));
    let end = Request::parse_optional(slice_subrange(bytes, at + 1, bytes.len()));
    match (start, end) {
        (Ok(start), Ok(end)) => RangeHeader::Bytes(start, end),
        _ => RangeHeader::Invalid,
    }
}

/// The lines that show some headers: of each its name, a colon and a space,
/// its value and a line feed.
pub open spec fn spec_headers_text(headers: Seq<(Seq<u8>, Seq<u8>)>) -> Seq<u8>
    decreases headers.len(),
{
    if headers.len() == 0 {
        Seq::empty()
    } else {
        spec_headers_text(headers.drop_last()) + headers.last().0 + ": ".spec_bytes()
            + headers.last().1 + "\n".spec_bytes()
    }
}

/// The text that shows a request: its request line, its headers, a blank
/// line and the length of its body.
pub open spec fn spec_text(request: RequestView) -> Seq<u8> {
    request.method + " ".spec_bytes() + request.path + " HTTP/".spec_bytes() + request.version
        + "\n".spec_bytes() + spec_headers_text(request.headers) + "\n[Body: ".spec_bytes()
        + spec_decimal(request.body.len()) + " bytes]\n".spec_bytes()
}

/// The offset at which the body starts.
pub fn header_end(bytes: &[u8]) -> (end: usize)
    ensures
        end == spec_header_end(bytes@),
        end <= bytes.len(),
{
    let long = "\r\n\r\n".as_bytes();
    let short = "\n\n".as_bytes();
    match find_pattern(bytes, long) {
        Some(p) => p + long.len(),
        None => match find_pattern(bytes, short) {
            Some(p) => p + short.len(),
            None => bytes.len(),
        },
    }
}

/// The first line of `text`, and what follows the line feed that ends it.
pub fn split_line<'a>(text: &'a str) -> (parts: (&'a str, &'a str))
    ensures
        parts.0.spec_bytes() == first_line(text.spec_bytes()),
        parts.1.spec_bytes() == after_first_line(text.spec_bytes()),
        text.spec_bytes().len() > 0 ==> parts.1.spec_bytes().len() < text.spec_bytes().len(),
{
    let bytes = text.as_bytes();
    let eol = find_byte(bytes, 0x0a, 0);
    proof {
        encode_utf8_valid_utf8(text@);
        lemma_ends_are_cuts(bytes@);
        lemma_find_byte_bounds(bytes@, line_feed(), 0);
    }
    let line = substr(text, 0, eol);
    if eol < bytes.len() {
        proof {
            lemma_cut_after_char(bytes@, eol as int);
        }
        (line, substr(text, eol + 1, bytes.len()))
    } else {
        let rest = substr(text, eol, eol);
        assert(rest.spec_bytes() =~= Seq::<u8>::empty());
        (line, rest)
    }
}

/// The header that a trimmed line holds, if it holds one.
pub fn parse_header_line<'a>(line: &'a str) -> (header: Option<(&'a str, &'a str)>)
    ensures
        match header {
            Some(h) => spec_header_line(line.spec_bytes()) == Some(header_view(h)),
            None => spec_header_line(line.spec_bytes()) is None,
        },
{
    let bytes = line.as_bytes();
    let at = find_byte(bytes, 0x3a, 0);
    if at >= bytes.len() {
        return None;
    }
    proof {
        encode_utf8_valid_utf8(line@);
        lemma_ends_are_cuts(bytes@);
        lemma_find_byte_bounds(bytes@, colon(), 0);
        lemma_cut_after_char(bytes@, at as int);
    }
    let name = trim_text(substr(line, 0, at));
    let value = trim_text(substr(line, at + 1, bytes.len()));
    Some((name, value))
}

/// The token of `line` that starts at or after offset `from`: the offsets
/// at which it starts and ends.
pub fn next_token(line: &str, from: usize) -> (token: (usize, usize))
    ensures
        (token.0 as int, token.1 as int) == spec_next_token(line.spec_bytes(), from as int),
        from <= token.0 <= token.1,
        is_cut(line.spec_bytes(), from as int) ==> {
            &&& token.1 <= line.spec_bytes().len()
            &&& is_cut(line.spec_bytes(), token.0 as int)
            &&& is_cut(line.spec_bytes(), token.1 as int)
        },
{
    let bytes = line.as_bytes();
    proof {
        encode_utf8_valid_utf8(line@);
    }
    let start = skip_whitespace(bytes, from);
    (start, token_end(bytes, start))
}

/// The method, path and version of a request line: its first three tokens.
pub fn parse_request_line<'a>(line: &'a str) -> (tokens: Option<(&'a str, &'a str, &'a str)>)
    ensures
        match tokens {
            Some(t) => spec_request_line(line.spec_bytes()) == Some(
                (t.0.spec_bytes(), t.1.spec_bytes(), t.2.spec_bytes()),
            ),
            None => spec_request_line(line.spec_bytes()) is None,
        },
{
    proof {
        encode_utf8_valid_utf8(line@);
        lemma_ends_are_cuts(line.spec_bytes());
    }
    let method = next_token(line, 0);
    let path = next_token(line, method.1);
    let version = next_token(line, path.1);
    if !(method.0 < method.1 && path.0 < path.1 && version.0 < version.1) {
        return None;
    }
    match strip_prefix(substr(line, version.0, version.1), "HTTP/") {
        Some(number) => {
            assert(number.spec_bytes() =~= line.spec_bytes().subrange(
                version.0 + "HTTP/".spec_bytes().len(),
                version.1 as int,
            ));
            Some((substr(line, method.0, method.1), substr(line, path.0, path.1), number))
        },
        None => None,
    }
}

impl<'a> Request<'a> {
    /// Parses a raw HTTP request.
    ///
    /// The header section ends with the first blank line; what follows it is
    /// the body. The header section must be UTF-8, and its first line must
    /// start with a method, a path and `HTTP/` with a version.
    pub fn parse(request: &'a [u8]) -> (parsed: Result<Self, ParseRequestError>)
        ensures
            match parsed {
                Ok(r) => spec_parse(request@) == Ok::<RequestView, ParseRequestError>(r@),
                Err(e) => spec_parse(request@) == Err::<RequestView, ParseRequestError>(e),
            },
    {
        let end = header_end(request);
        let head = slice_subrange(request, 0, end);
        let body = slice_subrange(request, end, request.len());
        let text = match core::str::from_utf8(head) {
            Ok(text) => text,
            Err(error) => {
                return Err(ParseRequestError::from(error));
            },
        };
        let (line, rest) = split_line(text);
        match parse_request_line(line) {
            None => Err(ParseRequestError::InvalidRequestLine),
            Some((method, path, version)) => {
                let headers = Self::parse_headers(rest);
                let parsed = Request { method, path, version, headers, body };
                assert(parsed@.headers =~= spec_headers(after_first_line(head@)));
                Ok(parsed)
            },
        }
    }

    /// Parse the `Range` header, if present.
    pub fn parse_range_header(&self) -> (range: RangeHeader)
        ensures
            range == spec_range_header(self@.headers),
    {
        let mut i: usize = 0;
        assert(self@.headers.skip(0) =~= self@.headers);
        while i < self.headers.len()
            invariant
                i <= self.headers@.len(),
                spec_range_header(self@.headers.skip(i as int)) == spec_range_header(
                    self@.headers,
                ),
            decreases self.headers@.len() - i,
        {
            let (name, value) = self.headers[i];
            let ghost rest = self@.headers.skip(i as int);
            assert(rest[0] == header_view((name, value)));
            assert(rest.drop_first() =~= self@.headers.skip(i + 1));
            if same_text_ignoring_ascii_case(name, "Range") {
                return parse_range_value(value);
            }
            i = i + 1;
        }
        assert(self@.headers.skip(i as int) =~= Seq::empty());
        RangeHeader::Absent
    }

    /// Reads one end of a range: nothing where the text is empty, else a
    /// number.
    pub fn parse_optional(s: &[u8]) -> (end: Result<Option<u64>, ()>)
        ensures
            end == spec_parse_optional(s@),
    {
        if s.len() == 0 {
            Ok(None)
        } else {
            match parse_u64(s) {
                Some(n) => Ok(Some(n)),
                None => Err(()),
            }
        }
    }

    /// The request as text, for a log or a message: the request line, the
    /// headers, a blank line and the length of the body.
    pub fn to_text(&self) -> (text: String)
        ensures
            encode_utf8(text@) == spec_text(self@),
    {
        let mut out: Vec<u8> = Vec::new();
        proof {
            encode_utf8_valid_utf8(self.method@);
            encode_utf8_valid_utf8(" "@);
            encode_utf8_valid_utf8(self.path@);
            encode_utf8_valid_utf8(" HTTP/"@);
            encode_utf8_valid_utf8(self.version@);
            encode_utf8_valid_utf8("\n"@);
            encode_utf8_valid_utf8(": "@);
            encode_utf8_valid_utf8("\n[Body: "@);
            encode_utf8_valid_utf8(" bytes]\n"@);
        }
        append_bytes(&mut out, self.method.as_bytes());
        append_bytes(&mut out, " ".as_bytes());
        append_bytes(&mut out, self.path.as_bytes());
        append_bytes(&mut out, " HTTP/".as_bytes());
        append_bytes(&mut out, self.version.as_bytes());
        append_bytes(&mut out, "\n".as_bytes());
        let ghost line = out@;
        proof {
            valid_utf8_concat(self.method.spec_bytes(), " ".spec_bytes());
            valid_utf8_concat(self.method.spec_bytes() + " ".spec_bytes(), self.path.spec_bytes());
            valid_utf8_concat(
                self.method.spec_bytes() + " ".spec_bytes() + self.path.spec_bytes(),
                " HTTP/".spec_bytes(),
            );
            valid_utf8_concat(
                self.method.spec_bytes() + " ".spec_bytes() + self.path.spec_bytes()
                    + " HTTP/".spec_bytes(),
                self.version.spec_bytes(),
            );
            valid_utf8_concat(
                self.method.spec_bytes() + " ".spec_bytes() + self.path.spec_bytes()
                    + " HTTP/".spec_bytes() + self.version.spec_bytes(),
                "\n".spec_bytes(),
            );
            assert(self@.headers.take(0) =~= Seq::empty());
            assert(line + spec_headers_text(self@.headers.take(0)) =~= line);
        }
        let mut i: usize = 0;
        while i < self.headers.len()
            invariant
                i <= self.headers@.len(),
                valid_utf8(out@),
                valid_utf8(": ".spec_bytes()),
                valid_utf8("\n".spec_bytes()),
                out@ == line + spec_headers_text(self@.headers.take(i as int)),
            decreases self.headers@.len() - i,
        {
            let (name, value) = self.headers[i];
            let ghost before = out@;
            proof {
                encode_utf8_valid_utf8(name@);
                encode_utf8_valid_utf8(value@);
                valid_utf8_concat(before, name.spec_bytes());
                valid_utf8_concat(before + name.spec_bytes(), ": ".spec_bytes());
                valid_utf8_concat(
                    before + name.spec_bytes() + ": ".spec_bytes(),
                    value.spec_bytes(),
                );
                valid_utf8_concat(
                    before + name.spec_bytes() + ": ".spec_bytes() + value.spec_bytes(),
                    "\n".spec_bytes(),
                );
                let shown = self@.headers.take(i + 1);
                assert(shown.drop_last() =~= self@.headers.take(i as int));
                assert(shown.last() == header_view((name, value)));
            }
            append_bytes(&mut out, name.as_bytes());
            append_bytes(&mut out, ": ".as_bytes());
            append_bytes(&mut out, value.as_bytes());
            append_bytes(&mut out, "\n".as_bytes());
            assert(out@ =~= line + spec_headers_text(self@.headers.take(i + 1)));
            i = i + 1;
        }
        assert(self@.headers.take(i as int) =~= self@.headers);
        let ghost lines = out@;
        append_bytes(&mut out, "\n[Body: ".as_bytes());
        push_decimal(self.body.len(), &mut out);
        append_bytes(&mut out, " bytes]\n".as_bytes());
        proof {
            let digits = spec_decimal(self.body@.len());
            lemma_decimal_round_trip(self.body@.len());
            assert forall|k: int| 0 <= k < digits.len() implies digits[k] <= 0x7f by {
                assert(is_digit(digits[k]));
            }
            lemma_ascii_is_text(digits);
            valid_utf8_concat(lines, "\n[Body: ".spec_bytes());
            valid_utf8_concat(lines + "\n[Body: ".spec_bytes(), digits);
            valid_utf8_concat(lines + "\n[Body: ".spec_bytes() + digits, " bytes]\n".spec_bytes());
            assert(out@ =~= spec_text(self@));
        }
        match text_of(out.as_slice()) {
            Some(text) => text,
            None => String::new(),
        }
    }

    /// Parses the header lines that follow the request line.
    pub fn parse_headers(lines: &'a str) -> (headers: Vec<(&'a str, &'a str)>)
        ensures
            headers_view(headers@) == spec_headers(lines.spec_bytes()),
    {
        let mut headers: Vec<(&'a str, &'a str)> = Vec::new();
        let mut rest = lines;
        while rest.as_bytes().len() > 0
            invariant
                headers_view(headers@) + spec_headers(rest.spec_bytes()) == spec_headers(
                    lines.spec_bytes(),
                ),
            decreases rest.spec_bytes().len(),
        {
            let (raw, next) = split_line(rest);
            let line = trim_text(raw);
            if line.as_bytes().len() == 0 {
                assert(spec_headers(rest.spec_bytes()) =~= Seq::empty());
                assert(headers_view(headers@) + Seq::empty() =~= headers_view(headers@));
                return headers;
            }
            let ghost before = headers_view(headers@);
            match parse_header_line(line) {
                Some(header) => {
                    headers.push(header);
                    assert(headers_view(headers@) =~= before + seq![header_view(header)]);
                    assert(before + (seq![header_view(header)] + spec_headers(next.spec_bytes()))
                        =~= (before + seq![header_view(header)]) + spec_headers(
                        next.spec_bytes(),
                    ));
                },
                None => {},
            }
            rest = next;
        }
        assert(spec_headers(rest.spec_bytes()) =~= Seq::empty());
        assert(headers_view(headers@) + Seq::empty() =~= headers_view(headers@));
        headers
    }
}

impl From<core::str::Utf8Error> for ParseRequestError {
    fn from(error: core::str::Utf8Error) -> (kind: Self) {
        ParseRequestError::InvalidUtf8
    }
}

impl FromSpecImpl<core::str::Utf8Error> for ParseRequestError {
    open spec fn obeys_from_spec() -> bool {
        true
    }

    open spec fn from_spec(error: core::str::Utf8Error) -> Self {
        ParseRequestError::InvalidUtf8
    }
}

impl ParseRequestError {
    /// What went wrong, in words.
    pub open spec fn spec_description(self) -> Seq<char> {
        match self {
            ParseRequestError::InvalidRequestLine => "Invalid request line"@,
            ParseRequestError::InvalidUtf8 => "Invalid UTF-8 in request"@,
            ParseRequestError::IoError => "IO error while reading request"@,
        }
    }

    /// Get a description of the error.
    pub fn description(self) -> (text: &'static str)
        ensures
            text@ == self.spec_description(),
    {
        match self {
            ParseRequestError::InvalidRequestLine => "Invalid request line",
            ParseRequestError::InvalidUtf8 => "Invalid UTF-8 in request",
            ParseRequestError::IoError => "IO error while reading request",
        }
    }
}

} // verus!
