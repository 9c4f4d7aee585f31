//! What holds of the parser and of the response model, whatever the input.

use vstd::prelude::*;
use vstd::string::*;
use vstd::utf8::*;
use crate::request::{
    after_first_line, first_line, hyphen, is_range_name, line_feed, spec_header_end,
    spec_header_line, spec_headers, spec_next_token, spec_parse, spec_parse_optional,
    spec_range_header, spec_range_value, spec_request_line, ParseRequestError, RangeHeader,
    RequestView,
};
use crate::response::{
    spec_body_bytes, spec_handle, spec_refusal, spec_serve, static_response, BodyView,
    ResponseCode, ResponseView,
};
use crate::scan::{
    is_ascii_whitespace, lemma_find_byte_bounds, lemma_find_byte_unique, lemma_find_pattern_first,
    matches_at, spec_find_byte, spec_find_pattern, spec_skip_whitespace, spec_token_end, spec_trim,
    spec_trim_end, spec_whitespace_width, spec_whitespace_width_before,
};

verus! {

/// Whether `p` is the first offset at which `pat` stands in `s`.
pub open spec fn is_first_match(s: Seq<u8>, pat: Seq<u8>, p: int) -> bool {
    matches_at(s, pat, p) && forall|j: int| 0 <= j < p ==> !matches_at(s, pat, j)
}

/// Whether `pat` stands somewhere in `s`.
pub open spec fn occurs(s: Seq<u8>, pat: Seq<u8>) -> bool {
    exists|p: int| matches_at(s, pat, p)
}

/// The body of a parsed request is exactly what follows the first blank line
/// in the buffer: the first one written with carriage returns where there is
/// one, else the first one written without; without any, the body is empty.
pub proof fn lemma_body_follows_first_separator(bytes: Seq<u8>)
    ensures
        0 <= spec_header_end(bytes) <= bytes.len(),
        spec_parse(bytes) matches Ok(request) ==> request.body == bytes.skip(
            spec_header_end(bytes),
        ),
        occurs(bytes, "\r\n\r\n".spec_bytes()) ==> is_first_match(
            bytes,
            "\r\n\r\n".spec_bytes(),
            spec_header_end(bytes) - "\r\n\r\n".spec_bytes().len(),
        ),
        !occurs(bytes, "\r\n\r\n".spec_bytes()) && occurs(bytes, "\n\n".spec_bytes())
            ==> is_first_match(
            bytes,
            "\n\n".spec_bytes(),
            spec_header_end(bytes) - "\n\n".spec_bytes().len(),
        ),
        !occurs(bytes, "\r\n\r\n".spec_bytes()) && !occurs(bytes, "\n\n".spec_bytes())
            ==> spec_header_end(bytes) == bytes.len(),
{
    lemma_find_pattern_first(bytes, "\r\n\r\n".spec_bytes(), 0);
    lemma_find_pattern_first(bytes, "\n\n".spec_bytes(), 0);
}

/// The two ways to end a line: a line feed, alone or behind a carriage
/// return.
pub open spec fn is_line_ending(ending: Seq<u8>) -> bool {
    ending == seq![line_feed()] || ending == seq![carriage_return(), line_feed()]
}

/// The text of some lines, each followed by `ending`.
pub open spec fn join_lines(lines: Seq<Seq<u8>>, ending: Seq<u8>) -> Seq<u8>
    decreases lines.len(),
{
    if lines.len() == 0 {
        Seq::empty()
    } else {
        lines[0] + ending + join_lines(lines.drop_first(), ending)
    }
}

/// Whether a line has no line feed in it.
pub open spec fn has_no_line_feed(line: Seq<u8>) -> bool {
    forall|k: int| 0 <= k < line.len() ==> line[k] != line_feed()
}

/// Whether a line holds a header: it has no line feed in it, is not blank,
/// and has a colon.
pub open spec fn is_header_line(line: Seq<u8>) -> bool {
    &&& has_no_line_feed(line)
    &&& spec_trim(line).len() > 0
    &&& spec_header_line(spec_trim(line)) is Some
}

/// The headers that some header lines hold, one for one and in their order.
pub open spec fn headers_of_lines(lines: Seq<Seq<u8>>) -> Seq<(Seq<u8>, Seq<u8>)> {
    Seq::new(lines.len(), |i: int| spec_header_line(spec_trim(lines[i])).unwrap())
}

/// The first line of a line that is followed by a line ending and more text
/// is that line, with the carriage return of its ending if it has one, and
/// what follows it is that text.
pub proof fn lemma_first_line_of_joined(line: Seq<u8>, ending: Seq<u8>, rest: Seq<u8>)
    requires
        has_no_line_feed(line),
        is_line_ending(ending),
    ensures
        first_line(line + ending + rest) == line + ending.drop_last(),
        after_first_line(line + ending + rest) == rest,
{
    let text = line + ending + rest;
    let at = line.len() + ending.len() - 1;
    assert(text[at] == line_feed());
    assert forall|k: int| 0 <= k < at implies text[k] != line_feed() by {
        if k < line.len() {
            assert(text[k] == line[k]);
        } else {
            assert(text[k] == carriage_return());
        }
    }
    lemma_find_byte_unique(text, line_feed(), at);
    assert(first_line(text) =~= line + ending.drop_last());
    assert(after_first_line(text) =~= rest);
}

/// Trimming a line that is not blank gives the same with what its ending
/// leaves behind it.
pub proof fn lemma_trim_of_ended_line(line: Seq<u8>, ending: Seq<u8>)
    requires
        is_line_ending(ending),
        spec_trim(line).len() > 0,
    ensures
        spec_trim(line + ending.drop_last()) == spec_trim(line),
{
    if ending.len() == 1 {
        assert(line + ending.drop_last() =~= line);
    } else {
        assert(line + ending.drop_last() =~= line.push(carriage_return()));
        lemma_trim_with_tail(line, carriage_return());
    }
}

/// Headers keep the order of the wire: the headers of a text that starts
/// with header lines are the headers of those lines, one for one and in their
/// order, and then those of the rest of the text.
pub proof fn lemma_headers_keep_wire_order(
    lines: Seq<Seq<u8>>,
    ending: Seq<u8>,
    rest: Seq<u8>,
)
    requires
        is_line_ending(ending),
        forall|i: int| 0 <= i < lines.len() ==> is_header_line(#[trigger] lines[i]),
    ensures
        spec_headers(join_lines(lines, ending) + rest) == headers_of_lines(lines) + spec_headers(
            rest,
        ),
    decreases lines.len(),
{
    let text = join_lines(lines, ending) + rest;
    if lines.len() == 0 {
        assert(text =~= rest);
        assert(headers_of_lines(lines) + spec_headers(rest) =~= spec_headers(rest));
    } else {
        let later = lines.drop_first();
        assert forall|i: int| 0 <= i < later.len() implies is_header_line(#[trigger] later[i]) by {
            assert(later[i] == lines[i + 1]);
        }
        lemma_headers_keep_wire_order(later, ending, rest);
        let behind = join_lines(later, ending) + rest;
        assert(text =~= lines[0] + ending + behind);
        assert(is_header_line(lines[0]));
        lemma_first_line_of_joined(lines[0], ending, behind);
        lemma_trim_of_ended_line(lines[0], ending);
        assert(headers_of_lines(lines) =~= seq![headers_of_lines(lines)[0]] + headers_of_lines(
            later,
        ));
        assert(spec_headers(text) =~= headers_of_lines(lines) + spec_headers(rest));
    }
}

/// A text whose first line is blank holds no headers.
pub proof fn lemma_no_headers_behind_blank_line(text: Seq<u8>)
    requires
        spec_trim(first_line(text)).len() == 0,
    ensures
        spec_headers(text) == Seq::<(Seq<u8>, Seq<u8>)>::empty(),
{
}

/// A header section that is not UTF-8 is rejected as such, and nothing else
/// is.
pub proof fn lemma_parse_rejects_non_text(bytes: Seq<u8>)
    ensures
        spec_parse(bytes) == Err::<RequestView, ParseRequestError>(ParseRequestError::InvalidUtf8)
            <==> !valid_utf8(bytes.subrange(0, spec_header_end(bytes))),
        !(spec_parse(bytes) matches Err(ParseRequestError::IoError)),
{
}

/// Each way in which parsing fails, and on which buffers: on a header section
/// that is not UTF-8; else on a first line that lacks one of its three
/// tokens, or whose third token does not start with `HTTP/`. On every other
/// buffer parsing succeeds.
pub proof fn lemma_parse_errors(bytes: Seq<u8>)
    ensures
        ({
            let head = bytes.subrange(0, spec_header_end(bytes));
            let line = first_line(head);
            let method = spec_next_token(line, 0);
            let path = spec_next_token(line, method.1);
            let version = spec_next_token(line, path.1);
            let incomplete = method.0 >= method.1 || path.0 >= path.1 || version.0 >= version.1;
            let versioned = matches_at(
                line.subrange(version.0, version.1),
                "HTTP/".spec_bytes(),
                0,
            );
            &&& spec_parse(bytes) == Err::<RequestView, ParseRequestError>(
                ParseRequestError::InvalidUtf8,
            ) <==> !valid_utf8(head)
            &&& spec_parse(bytes) == Err::<RequestView, ParseRequestError>(
                ParseRequestError::InvalidRequestLine,
            ) <==> valid_utf8(head) && (incomplete || !versioned)
            &&& spec_parse(bytes) is Ok <==> valid_utf8(head) && !incomplete && versioned
        }),
{
}

/// What follows the third token of a request line, behind an ASCII
/// whitespace byte, changes nothing of what the line reads as.
pub proof fn lemma_request_line_ignores_rest(line: Seq<u8>, c: u8, rest: Seq<u8>)
    requires
        is_ascii_whitespace(c),
        spec_request_line(line) is Some,
    ensures
        spec_request_line(line.push(c) + rest) == spec_request_line(line),
{
    let longer = line.push(c) + rest;
    let method = spec_next_token(line, 0);
    let path = spec_next_token(line, method.1);
    let version = spec_next_token(line, path.1);
    lemma_skip_whitespace_before_rest(line, c, rest, 0);
    lemma_token_end_before_rest(line, c, rest, method.0);
    lemma_skip_whitespace_before_rest(line, c, rest, method.1);
    lemma_token_end_before_rest(line, c, rest, path.0);
    lemma_skip_whitespace_before_rest(line, c, rest, path.1);
    lemma_token_end_before_rest(line, c, rest, version.0);
    assert(spec_next_token(longer, 0) == method);
    assert(spec_next_token(longer, method.1) == path);
    assert(spec_next_token(longer, path.1) == version);
    assert(longer.subrange(method.0, method.1) =~= line.subrange(method.0, method.1));
    assert(longer.subrange(path.0, path.1) =~= line.subrange(path.0, path.1));
    assert(longer.subrange(version.0, version.1) =~= line.subrange(version.0, version.1));
    let prefix = "HTTP/".spec_bytes();
    assert(longer.subrange(version.0 + prefix.len(), version.1) =~= line.subrange(
        version.0 + prefix.len(),
        version.1,
    ));
}

/// An ASCII whitespace byte and more text behind a text change no
/// whitespace within the text.
pub proof fn lemma_whitespace_width_before_rest(s: Seq<u8>, c: u8, rest: Seq<u8>, i: int)
    requires
        is_ascii_whitespace(c),
    ensures
        i < s.len() ==> spec_whitespace_width(s.push(c) + rest, i) == spec_whitespace_width(s, i),
        spec_whitespace_width(s.push(c) + rest, s.len() as int) == 1,
{
    let longer = s.push(c) + rest;
    assert(longer[s.len() as int] == c);
    if 0 <= i < s.len() {
        assert(longer[i] == s[i]);
        if i + 1 < s.len() {
            assert(longer[i + 1] == s[i + 1]);
        }
        if i + 2 < s.len() {
            assert(longer[i + 2] == s[i + 2]);
        }
    }
}

/// An ASCII whitespace byte and more text behind a text move no token's end
/// within the text.
pub proof fn lemma_token_end_before_rest(s: Seq<u8>, c: u8, rest: Seq<u8>, i: int)
    requires
        is_ascii_whitespace(c),
        0 <= i <= s.len(),
    ensures
        spec_token_end(s.push(c) + rest, i) == spec_token_end(s, i),
        i <= spec_token_end(s, i) <= s.len(),
    decreases s.len() - i,
{
    lemma_whitespace_width_before_rest(s, c, rest, i);
    if i < s.len() && spec_whitespace_width(s, i) == 0 {
        lemma_token_end_before_rest(s, c, rest, i + 1);
    }
}

/// An ASCII whitespace byte and more text behind a text move no token's
/// start within the text.
pub proof fn lemma_skip_whitespace_before_rest(s: Seq<u8>, c: u8, rest: Seq<u8>, i: int)
    requires
        is_ascii_whitespace(c),
        0 <= i <= s.len(),
    ensures
        i <= spec_skip_whitespace(s, i) <= s.len(),
        spec_skip_whitespace(s, i) < s.len() ==> spec_skip_whitespace(s.push(c) + rest, i)
            == spec_skip_whitespace(s, i),
    decreases s.len() - i,
{
    lemma_whitespace_width_before_rest(s, c, rest, i);
    let w = spec_whitespace_width(s, i);
    if w > 0 {
        lemma_skip_whitespace_before_rest(s, c, rest, i + w);
    }
}

/// A buffer whose first line is empty or blank has no request line. That
/// holds of the empty buffer.
pub proof fn lemma_parse_rejects_blank_request_line(bytes: Seq<u8>)
    requires
        valid_utf8(bytes.subrange(0, spec_header_end(bytes))),
        spec_skip_whitespace(first_line(bytes.subrange(0, spec_header_end(bytes))), 0)
            >= first_line(bytes.subrange(0, spec_header_end(bytes))).len(),
    ensures
        spec_parse(bytes) == Err::<RequestView, ParseRequestError>(
            ParseRequestError::InvalidRequestLine,
        ),
{
}

/// Where no header is named `Range`, no range is asked for.
pub proof fn lemma_no_range_header(headers: Seq<(Seq<u8>, Seq<u8>)>)
    requires
        forall|i: int| 0 <= i < headers.len() ==> !is_range_name((#[trigger] headers[i]).0),
    ensures
        spec_range_header(headers) == RangeHeader::Absent,
    decreases headers.len(),
{
    if headers.len() > 0 {
        let rest = headers.drop_first();
        assert forall|i: int| 0 <= i < rest.len() implies !is_range_name((#[trigger] rest[i]).0) by {
            assert(rest[i] == headers[i + 1]);
        }
        lemma_no_range_header(rest);
        assert(!is_range_name(headers[0].0));
    }
}

/// The first header named `Range` decides, whatever follows it.
pub proof fn lemma_first_range_header_decides(headers: Seq<(Seq<u8>, Seq<u8>)>, at: int)
    requires
        0 <= at < headers.len(),
        is_range_name(headers[at].0),
        forall|i: int| 0 <= i < at ==> !is_range_name((#[trigger] headers[i]).0),
    ensures
        spec_range_header(headers) == spec_range_value(headers[at].1),
    decreases at,
{
    if at > 0 {
        let rest = headers.drop_first();
        assert forall|i: int| 0 <= i < at - 1 implies !is_range_name((#[trigger] rest[i]).0) by {
            assert(rest[i] == headers[i + 1]);
        }
        assert(rest[at - 1] == headers[at]);
        lemma_first_range_header_decides(rest, at - 1);
        assert(!is_range_name(headers[0].0));
    }
}

/// The range of a value written as `bytes=`, a start without a hyphen in it,
/// a hyphen and an end: the two numbers where both ends are numbers or left
/// out, else invalid.
pub proof fn lemma_range_value_of_parts(start: Seq<u8>, end: Seq<u8>)
    requires
        forall|k: int| 0 <= k < start.len() ==> start[k] != hyphen(),
    ensures
        spec_range_value("bytes=".spec_bytes() + start + seq![hyphen()] + end) == match (
            spec_parse_optional(start),
            spec_parse_optional(end),
        ) {
            (Ok(first), Ok(last)) => RangeHeader::Bytes(first, last),
            _ => RangeHeader::Invalid,
        },
{
    let unit = "bytes=".spec_bytes();
    let value = unit + start + seq![hyphen()] + end;
    assert(value.subrange(0, unit.len() as int) =~= unit);
    let range = value.skip(unit.len() as int);
    assert(range =~= start + seq![hyphen()] + end);
    assert(range[start.len() as int] == hyphen());
    assert forall|k: int| 0 <= k < start.len() implies range[k] != hyphen() by {
        assert(range[k] == start[k]);
    }
    lemma_find_byte_unique(range, hyphen(), start.len() as int);
    assert(range.subrange(0, start.len() as int) =~= start);
    assert(range.subrange(start.len() as int + 1, range.len() as int) =~= end);
}

/// A value asks for a range only if it is written as `bytes=`, a start, a
/// hyphen and an end, and both ends are numbers or left out; any other value
/// is invalid.
pub proof fn lemma_range_value_shape(value: Seq<u8>)
    ensures
        spec_range_value(value) != RangeHeader::Absent,
        spec_range_value(value) matches RangeHeader::Bytes(first, last) ==> exists|
            start: Seq<u8>,
            end: Seq<u8>,
        |
            {
                &&& value == "bytes=".spec_bytes() + start + seq![hyphen()] + end
                &&& spec_parse_optional(start) == Ok::<Option<u64>, ()>(first)
                &&& spec_parse_optional(end) == Ok::<Option<u64>, ()>(last)
            },
{
    if let RangeHeader::Bytes(first, last) = spec_range_value(value) {
        let unit = "bytes=".spec_bytes();
        let range = value.skip(unit.len() as int);
        let at = spec_find_byte(range, hyphen(), 0);
        lemma_find_byte_bounds(range, hyphen(), 0);
        let start = range.subrange(0, at);
        let end = range.subrange(at + 1, range.len() as int);
        assert(value =~= unit + start + seq![hyphen()] + end) by {
            assert(value.subrange(0, unit.len() as int) == unit);
        }
    }
}

/// A range that ends where the file ends is served; one that ends beyond it
/// is not, nor is one that starts where it ends or behind that.
pub proof fn lemma_range_boundaries(start: u64, end: u64, size: u64)
    ensures
        start < end && end == size ==> spec_serve(
            RangeHeader::Bytes(Some(start), Some(end)),
            size,
        ).code == ResponseCode::PartialContent,
        start < end <= size ==> spec_serve(RangeHeader::Bytes(Some(start), Some(end)), size)
            == (ResponseView {
            code: ResponseCode::PartialContent,
            body: BodyView::PartialFile { start, end },
        }),
        end > size ==> spec_serve(RangeHeader::Bytes(Some(start), Some(end)), size)
            == static_response(ResponseCode::RangeNotSatisfiable, "End byte exceeds file size"@),
        start >= end && end <= size ==> spec_serve(
            RangeHeader::Bytes(Some(start), Some(end)),
            size,
        ) == static_response(
            ResponseCode::RangeNotSatisfiable,
            "Start byte must be less than end byte"@,
        ),
{
}

/// No request is answered with an internal server error: a file that cannot
/// be had counts as not found.
pub proof fn lemma_no_internal_server_error(request: RequestView, file_size: Option<u64>)
    ensures
        spec_handle(request, file_size).code != ResponseCode::InternalServerError,
        file_size is None && spec_refusal(request) is None ==> spec_handle(request, file_size)
            == static_response(ResponseCode::NotFound, "404 Not Found"@),
{
}

/// A request that is turned away is turned away whatever file it names.
pub proof fn lemma_refusal_ignores_file(request: RequestView, file_size: Option<u64>)
    requires
        spec_refusal(request) is Some,
    ensures
        spec_handle(request, file_size) == spec_refusal(request).unwrap(),
{
}

/// Round trip: the body of the response to a valid range `[start, end)` of a
/// file is `end - start` bytes long and is that slice of the file.
pub proof fn lemma_round_trip(file: Seq<u8>, start: u64, end: u64)
    requires
        start < end <= file.len() <= u64::MAX,
    ensures
        spec_serve(RangeHeader::Bytes(Some(start), Some(end)), file.len() as u64).code
            == ResponseCode::PartialContent,
        spec_body_bytes(
            spec_serve(RangeHeader::Bytes(Some(start), Some(end)), file.len() as u64).body,
            file,
        ) == file.subrange(start as int, end as int),
        file.subrange(start as int, end as int).len() == end - start,
{
}

/// The carriage return byte.
pub open spec fn carriage_return() -> u8 {
    0x0d
}

/// The bytes of the two blank lines that end a header section.
pub proof fn lemma_separator_bytes()
    ensures
        "\r\n\r\n".spec_bytes() == seq![
            carriage_return(),
            line_feed(),
            carriage_return(),
            line_feed(),
        ],
        "\n\n".spec_bytes() == seq![line_feed(), line_feed()],
{
    reveal_strlit("\r\n\r\n");
    reveal_strlit("\n\n");
    is_ascii_chars_encode_utf8("\r\n\r\n"@);
    is_ascii_chars_encode_utf8("\n\n"@);
    assert("\r\n\r\n".spec_bytes() =~= seq![
        carriage_return(),
        line_feed(),
        carriage_return(),
        line_feed(),
    ]);
    assert("\n\n".spec_bytes() =~= seq![line_feed(), line_feed()]);
}

/// An ASCII whitespace byte behind a text is whitespace, and changes no
/// whitespace within the text.
pub proof fn lemma_whitespace_width_with_tail(s: Seq<u8>, c: u8, i: int)
    requires
        is_ascii_whitespace(c),
    ensures
        i < s.len() ==> spec_whitespace_width(s.push(c), i) == spec_whitespace_width(s, i),
        spec_whitespace_width(s.push(c), s.len() as int) == 1,
{
}

/// An ASCII whitespace byte behind a text is skipped with the whitespace that
/// ends the text, and moves no token's start.
pub proof fn lemma_skip_whitespace_with_tail(s: Seq<u8>, c: u8, i: int)
    requires
        is_ascii_whitespace(c),
        0 <= i <= s.len(),
    ensures
        i <= spec_skip_whitespace(s, i) <= s.len(),
        spec_skip_whitespace(s, i) < s.len() ==> spec_skip_whitespace(s.push(c), i)
            == spec_skip_whitespace(s, i),
        spec_skip_whitespace(s, i) == s.len() ==> spec_skip_whitespace(s.push(c), i) == s.len()
            + 1,
    decreases s.len() - i,
{
    lemma_whitespace_width_with_tail(s, c, i);
    let w = spec_whitespace_width(s, i);
    if w > 0 {
        lemma_skip_whitespace_with_tail(s, c, i + w);
    } else if i == s.len() {
        assert(spec_whitespace_width(s.push(c), i + 1) == 0);
        assert(spec_skip_whitespace(s.push(c), i + 1) == i + 1);
    }
}

/// An ASCII whitespace byte behind a text is trimmed away with the
/// whitespace that ends the text.
pub proof fn lemma_trim_end_with_tail(s: Seq<u8>, c: u8, e: int)
    requires
        is_ascii_whitespace(c),
        0 <= e <= s.len(),
    ensures
        spec_trim_end(s.push(c), e) == spec_trim_end(s, e),
        0 <= spec_trim_end(s, e) <= e,
    decreases e,
{
    lemma_whitespace_width_with_tail(s, c, e - 1);
    lemma_whitespace_width_with_tail(s, c, e - 2);
    lemma_whitespace_width_with_tail(s, c, e - 3);
    let w = spec_whitespace_width_before(s, e);
    assert(w == spec_whitespace_width_before(s.push(c), e));
    if e > 0 && w > 0 {
        lemma_trim_end_with_tail(s, c, e - w);
    }
}

/// Trimming a text that is not blank gives the same with an ASCII whitespace
/// byte behind it.
pub proof fn lemma_trim_with_tail(s: Seq<u8>, c: u8)
    requires
        is_ascii_whitespace(c),
        spec_trim(s).len() > 0,
    ensures
        spec_trim(s.push(c)) == spec_trim(s),
{
    lemma_skip_whitespace_with_tail(s, c, 0);
    lemma_trim_end_with_tail(s, c, s.len() as int);
    lemma_whitespace_width_with_tail(s, c, s.len() as int);
    let longer = s.push(c);
    assert(spec_trim_end(longer, longer.len() as int) == spec_trim_end(longer, s.len() as int));
    assert(spec_trim(longer) =~= spec_trim(s));
}

/// The line ending of the wire: a carriage return and a line feed.
pub open spec fn crlf() -> Seq<u8> {
    seq![carriage_return(), line_feed()]
}

/// Whether a line can stand in a header section: it is UTF-8, has no line
/// feed in it and is not empty.
pub open spec fn is_sent_line(line: Seq<u8>) -> bool {
    valid_utf8(line) && has_no_line_feed(line) && line.len() > 0
}

/// In lines that are sent with carriage returns, no two line feeds stand two
/// bytes apart: there is no blank line among them.
pub proof fn lemma_no_blank_line_in_joined(lines: Seq<Seq<u8>>)
    requires
        forall|i: int| 0 <= i < lines.len() ==> is_sent_line(#[trigger] lines[i]),
    ensures
        valid_utf8(join_lines(lines, crlf())),
        lines.len() > 0 ==> {
            let text = join_lines(lines, crlf());
            &&& text.len() >= 3
            &&& text[0] != line_feed()
            &&& text[1] != line_feed()
            &&& text[text.len() - 2] == carriage_return()
            &&& text[text.len() - 1] == line_feed()
        },
        forall|a: int, b: int|
            0 <= a && b == a + 2 && b < join_lines(lines, crlf()).len() && #[trigger] join_lines(
                lines,
                crlf(),
            )[a] == line_feed() ==> #[trigger] join_lines(lines, crlf())[b] != line_feed(),
    decreases lines.len(),
{
    let text = join_lines(lines, crlf());
    if lines.len() > 0 {
        let line = lines[0];
        let later = lines.drop_first();
        assert forall|i: int| 0 <= i < later.len() implies is_sent_line(#[trigger] later[i]) by {
            assert(later[i] == lines[i + 1]);
        }
        lemma_no_blank_line_in_joined(later);
        let behind = join_lines(later, crlf());
        let n = line.len() as int;
        assert(is_sent_line(line));
        assert(text =~= line + crlf() + behind);
        assert(text[0] == line[0]);
        assert(text[n] == carriage_return());
        assert(text[n + 1] == line_feed());
        if n > 1 {
            assert(text[1] == line[1]);
        }
        lemma_crlf_is_text();
        valid_utf8_concat(line, crlf());
        valid_utf8_concat(line + crlf(), behind);
        assert forall|a: int, b: int|
            0 <= a && b == a + 2 && b < text.len() && #[trigger] text[a]
                == line_feed() implies #[trigger] text[b] != line_feed() by {
            if a < n {
                assert(text[a] == line[a]);
            } else if a == n {
                assert(text[a] == carriage_return());
            } else if a == n + 1 {
                assert(behind.len() > 1);
                assert(later.len() > 0);
                assert(text[b] == behind[1]);
            } else {
                assert(text[a] == behind[a - n - 2]);
                assert(text[b] == behind[b - n - 2]);
            }
        }
    }
}

/// A carriage return and a line feed are UTF-8.
pub proof fn lemma_crlf_is_text()
    ensures
        valid_utf8(crlf()),
{
    reveal_strlit("\r\n");
    is_ascii_chars_encode_utf8("\r\n"@);
    encode_utf8_valid_utf8("\r\n"@);
    assert("\r\n".spec_bytes() =~= crlf());
}

/// A request as it is sent is parsed into what was sent: where the request
/// line and the header lines are each followed by a carriage return and a
/// line feed, and a blank line and the body follow them, parsing gives the
/// tokens of the request line, the headers of the header lines, one for one
/// and in their order, and the body, byte for byte.
pub proof fn lemma_parse_of_sent_request(line: Seq<u8>, headers: Seq<Seq<u8>>, body: Seq<u8>)
    requires
        valid_utf8(line),
        has_no_line_feed(line),
        spec_request_line(line) is Some,
        forall|i: int|
            0 <= i < headers.len() ==> valid_utf8(#[trigger] headers[i]) && is_header_line(
                headers[i],
            ),
    ensures
        spec_parse(line + crlf() + join_lines(headers, crlf()) + crlf() + body) == Ok::<
            RequestView,
            ParseRequestError,
        >(
            RequestView {
                method: spec_request_line(line).unwrap().0,
                path: spec_request_line(line).unwrap().1,
                version: spec_request_line(line).unwrap().2,
                headers: headers_of_lines(headers),
                body,
            },
        ),
{
    let lines = seq![line] + headers;
    let text = join_lines(lines, crlf());
    let bytes = line + crlf() + join_lines(headers, crlf()) + crlf() + body;
    let long = "\r\n\r\n".spec_bytes();
    lemma_separator_bytes();
    assert(lines.drop_first() =~= headers);
    assert(text =~= line + crlf() + join_lines(headers, crlf()));
    assert(bytes =~= text + crlf() + body);
    assert(line.len() > 0) by {
        lemma_skip_whitespace_with_tail(line, carriage_return(), 0);
    }
    assert forall|i: int| 0 <= i < lines.len() implies is_sent_line(#[trigger] lines[i]) by {
        if i > 0 {
            assert(lines[i] == headers[i - 1]);
            assert(is_header_line(headers[i - 1]));
            assert(spec_trim(headers[i - 1]).len() > 0);
        }
    }
    lemma_no_blank_line_in_joined(lines);
    // The first blank line is the one behind the last line.
    let at = text.len() - 2;
    assert(bytes.subrange(at, at + 4) =~= long);
    assert(matches_at(bytes, long, at));
    assert forall|j: int| 0 <= j < at implies !matches_at(bytes, long, j) by {
        if matches_at(bytes, long, j) {
            assert(bytes.subrange(j, j + 4)[1] == line_feed());
            assert(bytes.subrange(j, j + 4)[3] == line_feed());
            if j + 3 < text.len() {
                assert(text[j + 1] == bytes[j + 1]);
                assert(text[j + 3] == bytes[j + 3]);
            } else {
                assert(bytes[j + 3] == carriage_return());
            }
        }
    }
    lemma_find_pattern_first(bytes, long, 0);
    assert(spec_find_pattern(bytes, long, 0) == Some(at));
    assert(spec_header_end(bytes) == text.len() + 2);
    let end = text.len() as int + 2;
    let head = bytes.subrange(0, end);
    assert(head =~= text + crlf());
    assert(bytes.subrange(end, bytes.len() as int) =~= body);
    lemma_crlf_is_text();
    valid_utf8_concat(text, crlf());
    // The request line.
    let behind = join_lines(headers, crlf()) + crlf();
    assert(head =~= line + crlf() + behind);
    lemma_first_line_of_joined(line, crlf(), behind);
    assert(line + crlf().drop_last() =~= line.push(carriage_return()));
    lemma_request_line_ignores_rest(line, carriage_return(), Seq::<u8>::empty());
    assert(line.push(carriage_return()) + Seq::<u8>::empty() =~= line.push(carriage_return()));
    // The header lines, and the blank line behind them.
    lemma_headers_keep_wire_order(headers, crlf(), crlf());
    assert(crlf() =~= Seq::<u8>::empty() + crlf() + Seq::<u8>::empty());
    lemma_first_line_of_joined(Seq::<u8>::empty(), crlf(), Seq::<u8>::empty());
    assert(first_line(crlf()) =~= seq![carriage_return()]);
    lemma_blank_line_is_blank();
    lemma_no_headers_behind_blank_line(crlf());
    assert(headers_of_lines(headers) + Seq::<(Seq<u8>, Seq<u8>)>::empty() =~= headers_of_lines(
        headers,
    ));
}

/// A carriage return alone is a blank line.
pub proof fn lemma_blank_line_is_blank()
    ensures
        spec_trim(seq![carriage_return()]).len() == 0,
{
    let s = seq![carriage_return()];
    assert(spec_whitespace_width(s, 0) == 1);
    assert(spec_whitespace_width(s, 1) == 0);
    assert(spec_skip_whitespace(s, 1) == 1);
    assert(spec_skip_whitespace(s, 0) == 1);
    assert(spec_whitespace_width_before(s, 1) == 1);
    assert(spec_trim_end(s, 0) == 0);
    assert(spec_trim_end(s, 1) == 0);
}

} // verus!
