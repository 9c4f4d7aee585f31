//! The response model: status codes, body sources and the rules that pick a
//! response for a request.

use vstd::prelude::*;
use vstd::slice::*;
use vstd::string::*;
use vstd::utf8::*;
use crate::request::{spec_range_header, RangeHeader, Request, RequestView};
use crate::scan::matches_at;
use crate::text::{append_bytes, same_text, strip_prefix};
use crate::transfer::{min, Transfer};

verus! {

/// The status codes that the server produces.
#[derive(Debug, Clone, Copy, PartialEq, Eq, Structural)]
pub enum ResponseCode {
    /// 200 OK
    Success,
    /// 206 Partial Content
    PartialContent,
    /// 400 Bad Request
    BadRequest,
    /// 404 Not Found
    NotFound,
    /// 405 Method Not Allowed
    MethodNotAllowed,
    /// 416 Range Not Satisfiable
    RangeNotSatisfiable,
    /// 500 Internal Server Error. Kept in reserve: no response carries it.
    InternalServerError,
}

impl ResponseCode {
    /// The three-digit status number.
    pub open spec fn spec_number(self) -> u16 {
        match self {
            ResponseCode::Success => 200,
            ResponseCode::PartialContent => 206,
            ResponseCode::BadRequest => 400,
            ResponseCode::NotFound => 404,
            ResponseCode::MethodNotAllowed => 405,
            ResponseCode::RangeNotSatisfiable => 416,
            ResponseCode::InternalServerError => 500,
        }
    }

    /// The text that follows `HTTP/1.1 ` on the status line.
    pub open spec fn spec_description(self) -> Seq<char> {
        match self {
            ResponseCode::Success => "200 OK"@,
            ResponseCode::PartialContent => "206 Partial Content"@,
            ResponseCode::BadRequest => "400 Bad Request"@,
            ResponseCode::NotFound => "404 Not Found"@,
            ResponseCode::MethodNotAllowed => "405 Method Not Allowed"@,
            ResponseCode::RangeNotSatisfiable => "416 Range Not Satisfiable"@,
            ResponseCode::InternalServerError => "500 Internal Server Error"@,
        }
    }

    /// The three-digit status number.
    pub fn number(self) -> (n: u16)
        ensures
            n == self.spec_number(),
    {
        match self {
            ResponseCode::Success => 200,
            ResponseCode::PartialContent => 206,
            ResponseCode::BadRequest => 400,
            ResponseCode::NotFound => 404,
            ResponseCode::MethodNotAllowed => 405,
            ResponseCode::RangeNotSatisfiable => 416,
            ResponseCode::InternalServerError => 500,
        }
    }

    /// Get description of the response code.
    pub fn description(self) -> (text: &'static str)
        ensures
            text@ == self.spec_description(),
    {
        match self {
            ResponseCode::Success => "200 OK",
            ResponseCode::PartialContent => "206 Partial Content",
            ResponseCode::BadRequest => "400 Bad Request",
            ResponseCode::NotFound => "404 Not Found",
            ResponseCode::MethodNotAllowed => "405 Method Not Allowed",
            ResponseCode::RangeNotSatisfiable => "416 Range Not Satisfiable",
            ResponseCode::InternalServerError => "500 Internal Server Error",
        }
    }
}

impl Default for ResponseCode {
    fn default() -> (code: Self)
        ensures
            code == ResponseCode::Success,
    {
        ResponseCode::Success
    }
}

/// Where the body of a response comes from.
#[derive(Debug, Clone, Copy, PartialEq, Eq)]
pub enum ResponseBody {
    /// A fixed text.
    Static(&'static str),
    /// A whole file of `size` bytes.
    File { size: u64 },
    /// The bytes of a file from offset `start` up to, not including, `end`.
    PartialFile { start: u64, end: u64 },
}

/// An HTTP response.
#[derive(Debug, Clone, Copy, PartialEq, Eq)]
pub struct Response {
    /// The response code.
    pub code: ResponseCode,
    /// The response body.
    pub body: ResponseBody,
}

/// What a body source holds, a fixed text by its characters.
pub enum BodyView {
    Static(Seq<char>),
    File { size: u64 },
    PartialFile { start: u64, end: u64 },
}

/// What a response holds.
pub struct ResponseView {
    pub code: ResponseCode,
    pub body: BodyView,
}

impl View for ResponseBody {
    type V = BodyView;

    open spec fn view(&self) -> BodyView {
        match *self {
            ResponseBody::Static(text) => BodyView::Static(text@),
            ResponseBody::File { size } => BodyView::File { size },
            ResponseBody::PartialFile { start, end } => BodyView::PartialFile { start, end },
        }
    }
}

impl View for Response {
    type V = ResponseView;

    open spec fn view(&self) -> ResponseView {
        ResponseView { code: self.code, body: self.body@ }
    }
}

/// A response with a fixed text as its body.
pub open spec fn static_response(code: ResponseCode, text: Seq<char>) -> ResponseView {
    ResponseView { code, body: BodyView::Static(text) }
}

impl BodyView {
    /// The window `[start, end)` of the file that the body is read from; a
    /// fixed text reads none.
    pub open spec fn window(self) -> Option<(u64, u64)> {
        match self {
            BodyView::Static(_) => None,
            BodyView::File { size } => Some((0, size)),
            BodyView::PartialFile { start, end } => Some((start, end)),
        }
    }

    /// Whether the body can be read from a file of `size` bytes: a window
    /// into it is not empty and ends within the file.
    pub open spec fn fits(self, size: u64) -> bool {
        match self {
            BodyView::Static(_) => true,
            BodyView::File { size: whole } => whole == size,
            BodyView::PartialFile { start, end } => start < end <= size,
        }
    }
}

impl ResponseBody {
    /// The window `[start, end)` of the file that the body is read from: the
    /// whole of a file from 0 to its size. A fixed text reads none.
    pub fn window(&self) -> (window: Option<(u64, u64)>)
        ensures
            window == self@.window(),
    {
        match *self {
            ResponseBody::Static(_) => None,
            ResponseBody::File { size } => Some((0, size)),
            ResponseBody::PartialFile { start, end } => Some((start, end)),
        }
    }
}

/// The response to a request for a regular file of `size` bytes, by the
/// range that the request asks for.
pub open spec fn spec_serve(range: RangeHeader, size: u64) -> ResponseView {
    match range {
        RangeHeader::Absent => ResponseView {
            code: ResponseCode::Success,
            body: BodyView::File { size },
        },
        RangeHeader::Invalid => static_response(ResponseCode::BadRequest, "Invalid Range Header"@),
        RangeHeader::Bytes(first, last) => {
            let start = match first {
                Some(n) => n,
                None => 0,
            };
            let end = match last {
                Some(n) => n,
                None => size,
            };
            if end > size {
                static_response(ResponseCode::RangeNotSatisfiable, "End byte exceeds file size"@)
            } else if start >= end {
                static_response(
                    ResponseCode::RangeNotSatisfiable,
                    "Start byte must be less than end byte"@,
                )
            } else {
                ResponseView {
                    code: ResponseCode::PartialContent,
                    body: BodyView::PartialFile { start, end },
                }
            }
        },
    }
}

/// The response that turns a request away before any file is looked up: one
/// whose version is not `1.1`, or else whose method is not `GET`.
pub open spec fn spec_refusal(request: RequestView) -> Option<ResponseView> {
    if request.version != "1.1".spec_bytes() {
        Some(static_response(ResponseCode::BadRequest, "Unsupported HTTP Version"@))
    } else if request.method != "GET".spec_bytes() {
        Some(static_response(ResponseCode::MethodNotAllowed, "405 Method Not Allowed"@))
    } else {
        None
    }
}

/// The response to a request. `file_size` is the size of the regular file
/// that the request's path names, or nothing where there is no such file or
/// it cannot be opened.
pub open spec fn spec_handle(request: RequestView, file_size: Option<u64>) -> ResponseView {
    match spec_refusal(request) {
        Some(refusal) => refusal,
        None => match file_size {
            None => static_response(ResponseCode::NotFound, "404 Not Found"@),
            Some(size) => spec_serve(spec_range_header(request.headers), size),
        },
    }
}

/// The path of a file below the document root: the request path without one
/// leading slash. No more is taken away: a path that starts with two slashes
/// keeps one, and `..` stays where it is.
pub open spec fn spec_relative_path(path: Seq<u8>) -> Seq<u8> {
    let slash = "/".spec_bytes();
    if matches_at(path, slash, 0) {
        path.skip(slash.len() as int)
    } else {
        path
    }
}

impl<'a> Request<'a> {
    /// The path of the requested file below the document root: the request
    /// path without one leading slash. The path is not made safe: what is
    /// left may start with a slash or hold `..`, and whoever joins it onto a
    /// root decides what to make of that.
    pub fn relative_path(&self) -> (path: &'a str)
        ensures
            path.spec_bytes() == spec_relative_path(self@.path),
    {
        match strip_prefix(self.path, "/") {
            Some(rest) => rest,
            None => self.path,
        }
    }
}

/// The status line and the header lines of a response, with the blank line
/// that ends them.
pub open spec fn spec_head(code: ResponseCode) -> Seq<u8> {
    "HTTP/1.1 ".spec_bytes() + encode_utf8(code.spec_description())
        + "\r\nAccept-Ranges: bytes\r\n\r\n".spec_bytes()
}

/// The bytes of `file` from offset `start` up to, not including, `end`, as
/// far as the file has them.
pub open spec fn file_window(file: Seq<u8>, start: u64, end: u64) -> Seq<u8> {
    if start < end && start < file.len() {
        file.subrange(start as int, min(end as int, file.len() as int))
    } else {
        Seq::empty()
    }
}

/// The bytes of a body: the fixed text, or the window of `file` that the
/// body names.
pub open spec fn spec_body_bytes(body: BodyView, file: Seq<u8>) -> Seq<u8> {
    match body {
        BodyView::Static(text) => encode_utf8(text),
        BodyView::File { size } => file_window(file, 0, size),
        BodyView::PartialFile { start, end } => file_window(file, start, end),
    }
}

impl Response {
    /// The status line and the header lines of the response, with the blank
    /// line that ends them.
    pub fn head(&self) -> (head: Vec<u8>)
        ensures
            head@ == spec_head(self.code),
    {
        let mut head: Vec<u8> = Vec::new();
        append_bytes(&mut head, "HTTP/1.1 ".as_bytes());
        append_bytes(&mut head, self.code.description().as_bytes());
        append_bytes(&mut head, "\r\nAccept-Ranges: bytes\r\n\r\n".as_bytes());
        assert(head@ =~= spec_head(self.code));
        head
    }

    /// Writes the bytes of `file` from offset `start` up to, not including,
    /// `end` to `dest`, a chunk at a time, as far as the file has them.
    pub fn write_file_range(file: &[u8], dest: &mut Vec<u8>, start: u64, end: u64)
        ensures
            final(dest)@ == old(dest)@ + file_window(file@, start, end),
    {
        let mut transfer = Transfer::new(start, end);
        assert(dest@ =~= old(dest)@ + Seq::<u8>::empty());
        loop
            invariant
                transfer.end == end,
                start <= transfer.position,
                transfer.position > start ==> transfer.position <= end && transfer.position
                    <= file.len(),
                dest@ == old(dest)@ + (if transfer.position > start {
                    file@.subrange(start as int, transfer.position as int)
                } else {
                    Seq::<u8>::empty()
                }),
            decreases end - transfer.position,
        {
            let Some(offset) = transfer.next_offset() else {
                return ;
            };
            let available: usize = if offset >= file.len() as u64 {
                0
            } else {
                file.len() - offset as usize
            };
            let sent = transfer.accept(available);
            if sent == 0 {
                return ;
            }
            let at = offset as usize;
            let ghost before = dest@;
            append_bytes(dest, slice_subrange(file, at, at + sent));
            assert(dest@ =~= old(dest)@ + file@.subrange(start as int, at + sent));
        }
    }

    /// Write this response to the given destination. A body that is read
    /// from a file is read from `file`, which holds the file's bytes.
    pub fn write_to(self, file: &[u8], dest: &mut Vec<u8>)
        ensures
            final(dest)@ == old(dest)@ + spec_head(self.code) + spec_body_bytes(
                self@.body,
                file@,
            ),
    {
        let head = self.head();
        append_bytes(dest, head.as_slice());
        if let ResponseBody::Static(text) = self.body {
            append_bytes(dest, text.as_bytes());
        } else if let Some((start, end)) = self.body.window() {
            Response::write_file_range(file, dest, start, end);
        }
    }

    /// Create a new response with the given response code and static message.
    pub fn new(code: ResponseCode, body: &'static str) -> (response: Response)
        ensures
            response@ == static_response(code, body@),
    {
        Response { code, body: ResponseBody::Static(body) }
    }

    /// Construct a new bad-request response with the given body.
    pub fn bad_request(body: &'static str) -> (response: Response)
        ensures
            response@ == static_response(ResponseCode::BadRequest, body@),
    {
        Response::new(ResponseCode::BadRequest, body)
    }

    /// Construct a new not-found response.
    pub fn not_found() -> (response: Response)
        ensures
            response@ == static_response(ResponseCode::NotFound, "404 Not Found"@),
    {
        Response::new(ResponseCode::NotFound, "404 Not Found")
    }

    /// The response that turns a request away before any file is looked up,
    /// if it is to be turned away.
    pub fn refusal(request: &Request<'_>) -> (response: Option<Response>)
        ensures
            match response {
                Some(r) => spec_refusal(request@) == Some(r@),
                None => spec_refusal(request@) is None,
            },
    {
        if !same_text(request.version, "1.1") {
            Some(Response::new(ResponseCode::BadRequest, "Unsupported HTTP Version"))
        } else if !same_text(request.method, "GET") {
            Some(Response::new(ResponseCode::MethodNotAllowed, "405 Method Not Allowed"))
        } else {
            None
        }
    }

    /// The response to a request for a regular file of `size` bytes, by the
    /// range that the request asks for.
    pub fn serve(range: RangeHeader, size: u64) -> (response: Response)
        ensures
            response@ == spec_serve(range, size),
            response@.body.fits(size),
    {
        match range {
            RangeHeader::Absent => Response {
                code: ResponseCode::Success,
                body: ResponseBody::File { size },
            },
            RangeHeader::Invalid => Response::new(ResponseCode::BadRequest, "Invalid Range Header"),
            RangeHeader::Bytes(first, last) => {
                let start = match first {
                    Some(n) => n,
                    None => 0,
                };
                let end = match last {
                    Some(n) => n,
                    None => size,
                };
                if end > size {
                    Response::new(ResponseCode::RangeNotSatisfiable, "End byte exceeds file size")
                } else if start >= end {
                    Response::new(
                        ResponseCode::RangeNotSatisfiable,
                        "Start byte must be less than end byte",
                    )
                } else {
                    Response {
                        code: ResponseCode::PartialContent,
                        body: ResponseBody::PartialFile { start, end },
                    }
                }
            },
        }
    }

    /// Handles a well-formed request. `file_size` is the size of the regular
    /// file that the request's path names below the document root, or
    /// nothing where there is no such file or it cannot be opened.
    pub fn handle(request: &Request<'_>, file_size: Option<u64>) -> (response: Response)
        ensures
            response@ == spec_handle(request@, file_size),
            file_size matches Some(size) ==> response@.body.fits(size),
    {
        if let Some(refusal) = Response::refusal(request) {
            return refusal;
        }
        match file_size {
            None => Response::not_found(),
            Some(size) => Response::serve(request.parse_range_header(), size),
        }
    }
}

} // verus!
