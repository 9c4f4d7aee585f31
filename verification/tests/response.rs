use nanoserve::connection::{plan, Plan, REQUEST_LEN};
use nanoserve::transfer::{Transfer, CHUNK_LEN};
use nanoserve::{
    NanoserveError, ParseRequestError, RangeHeader, Request, Response, ResponseBody, ResponseCode,
};

const HEAD_TAIL: &str = "\r\nAccept-Ranges: bytes\r\n\r\n";

fn file_of(len: usize) -> Vec<u8> {
    (0..len).map(|i| (i % 251) as u8).collect()
}

fn wire(response: Response, file: &[u8]) -> Vec<u8> {
    let mut out = Vec::new();
    response.write_to(file, &mut out);
    out
}

fn expected(status: &str, body: &[u8]) -> Vec<u8> {
    let mut out = format!("HTTP/1.1 {status}{HEAD_TAIL}").into_bytes();
    out.extend_from_slice(body);
    out
}

#[test]
fn status_descriptions() {
    assert_eq!(ResponseCode::Success.description(), "200 OK");
    assert_eq!(ResponseCode::PartialContent.description(), "206 Partial Content");
    assert_eq!(ResponseCode::BadRequest.description(), "400 Bad Request");
    assert_eq!(ResponseCode::NotFound.description(), "404 Not Found");
    assert_eq!(ResponseCode::MethodNotAllowed.description(), "405 Method Not Allowed");
    assert_eq!(ResponseCode::RangeNotSatisfiable.description(), "416 Range Not Satisfiable");
    assert_eq!(ResponseCode::InternalServerError.description(), "500 Internal Server Error");
}

#[test]
fn status_numbers_lead_the_descriptions() {
    let codes = [
        ResponseCode::Success,
        ResponseCode::PartialContent,
        ResponseCode::BadRequest,
        ResponseCode::NotFound,
        ResponseCode::MethodNotAllowed,
        ResponseCode::RangeNotSatisfiable,
        ResponseCode::InternalServerError,
    ];
    let numbers = [200u16, 206, 400, 404, 405, 416, 500];
    for (code, number) in codes.iter().zip(numbers) {
        assert_eq!(code.number(), number);
        assert!(code.description().starts_with(&format!("{number} ")));
    }
    assert_eq!(ResponseCode::default(), ResponseCode::Success);
}

#[test]
fn constructors() {
    let r = Response::new(ResponseCode::NotFound, "gone");
    assert_eq!(r.code, ResponseCode::NotFound);
    assert_eq!(r.body, ResponseBody::Static("gone"));
    assert_eq!(Response::bad_request("why"), Response::new(ResponseCode::BadRequest, "why"));
    assert_eq!(Response::not_found(), Response::new(ResponseCode::NotFound, "404 Not Found"));
}

#[test]
fn missing_file_is_not_found() {
    let request = Request::parse(b"GET /missing.txt HTTP/1.1\r\n\r\n").unwrap();
    assert_eq!(request.relative_path(), "missing.txt");
    assert!(Response::refusal(&request).is_none());
    let response = Response::handle(&request, None);
    assert_eq!(response.code, ResponseCode::NotFound);
    assert_eq!(response.body, ResponseBody::Static("404 Not Found"));
    assert_eq!(wire(response, b""), expected("404 Not Found", b"404 Not Found"));
}

#[test]
fn post_is_not_allowed_whatever_the_path() {
    for raw in [&b"POST / HTTP/1.1\r\n\r\n"[..], &b"POST /file.bin HTTP/1.1\r\n\r\n"[..]] {
        let request = Request::parse(raw).unwrap();
        for size in [None, Some(0), Some(100)] {
            let response = Response::handle(&request, size);
            assert_eq!(response.code, ResponseCode::MethodNotAllowed);
            assert_eq!(response.body, ResponseBody::Static("405 Method Not Allowed"));
        }
        assert_eq!(Response::refusal(&request), Some(Response::handle(&request, None)));
    }
}

#[test]
fn method_is_matched_exactly() {
    let request = Request::parse(b"get / HTTP/1.1\r\n\r\n").unwrap();
    assert_eq!(Response::handle(&request, Some(1)).code, ResponseCode::MethodNotAllowed);
}

#[test]
fn other_versions_are_refused_first() {
    for raw in [
        &b"GET / HTTP/1.0\r\n\r\n"[..],
        &b"POST / HTTP/2\r\n\r\n"[..],
        &b"GET / HTTP/\r\n\r\n"[..],
        &b"GET / HTTP/1.10\r\n\r\n"[..],
    ] {
        let request = Request::parse(raw).unwrap();
        let response = Response::handle(&request, Some(10));
        assert_eq!(response.code, ResponseCode::BadRequest);
        assert_eq!(response.body, ResponseBody::Static("Unsupported HTTP Version"));
    }
}

#[test]
fn range_inside_file_is_partial_content() {
    let file = file_of(100);
    let request =
        Request::parse(b"GET /file.bin HTTP/1.1\r\nRange: bytes=10-19\r\n\r\n").unwrap();
    assert_eq!(request.relative_path(), "file.bin");
    let response = Response::handle(&request, Some(100));
    assert_eq!(response.code, ResponseCode::PartialContent);
    assert_eq!(response.body, ResponseBody::PartialFile { start: 10, end: 19 });
    assert_eq!(wire(response, &file), expected("206 Partial Content", &file[10..19]));
}

#[test]
fn range_beyond_file_is_not_satisfiable() {
    let request =
        Request::parse(b"GET /file.bin HTTP/1.1\r\nRange: bytes=0-200\r\n\r\n").unwrap();
    let response = Response::handle(&request, Some(100));
    assert_eq!(response.code, ResponseCode::RangeNotSatisfiable);
    assert_eq!(response.body, ResponseBody::Static("End byte exceeds file size"));
    assert_eq!(
        wire(response, &file_of(100)),
        expected("416 Range Not Satisfiable", b"End byte exceeds file size")
    );
}

#[test]
fn whole_file_without_range() {
    let file = file_of(20000);
    let request = Request::parse(b"GET /file.bin HTTP/1.1\r\nHost: x\r\n\r\n").unwrap();
    let response = Response::handle(&request, Some(20000));
    assert_eq!(response.code, ResponseCode::Success);
    assert_eq!(response.body, ResponseBody::File { size: 20000 });
    assert_eq!(wire(response, &file), expected("200 OK", &file));
}

#[test]
fn malformed_range_is_bad_request() {
    let request = Request::parse(b"GET /f HTTP/1.1\r\nRange: lines=1-2\r\n\r\n").unwrap();
    let response = Response::handle(&request, Some(100));
    assert_eq!(response.code, ResponseCode::BadRequest);
    assert_eq!(response.body, ResponseBody::Static("Invalid Range Header"));
}

#[test]
fn missing_file_wins_over_range() {
    let request = Request::parse(b"GET /f HTTP/1.1\r\nRange: lines=1-2\r\n\r\n").unwrap();
    assert_eq!(Response::handle(&request, None), Response::not_found());
}

#[test]
fn range_boundaries() {
    let size = 100u64;
    let ok = |start, end| Response {
        code: ResponseCode::PartialContent,
        body: ResponseBody::PartialFile { start, end },
    };
    let too_long =
        Response::new(ResponseCode::RangeNotSatisfiable, "End byte exceeds file size");
    let empty = Response::new(
        ResponseCode::RangeNotSatisfiable,
        "Start byte must be less than end byte",
    );
    assert_eq!(Response::serve(RangeHeader::Bytes(Some(0), Some(100)), size), ok(0, 100));
    assert_eq!(Response::serve(RangeHeader::Bytes(Some(99), Some(100)), size), ok(99, 100));
    assert_eq!(Response::serve(RangeHeader::Bytes(Some(0), Some(101)), size), too_long);
    assert_eq!(Response::serve(RangeHeader::Bytes(Some(500), Some(101)), size), too_long);
    assert_eq!(Response::serve(RangeHeader::Bytes(Some(50), Some(50)), size), empty);
    assert_eq!(Response::serve(RangeHeader::Bytes(Some(51), Some(50)), size), empty);
    assert_eq!(Response::serve(RangeHeader::Bytes(Some(100), None), size), empty);
    assert_eq!(Response::serve(RangeHeader::Bytes(Some(101), None), size), empty);
    assert_eq!(Response::serve(RangeHeader::Bytes(None, Some(0)), size), empty);
    assert_eq!(Response::serve(RangeHeader::Bytes(Some(40), None), size), ok(40, 100));
    assert_eq!(Response::serve(RangeHeader::Bytes(None, Some(60)), size), ok(0, 60));
    assert_eq!(Response::serve(RangeHeader::Bytes(None, None), size), ok(0, 100));
    assert_eq!(Response::serve(RangeHeader::Bytes(None, None), 0), empty);
    assert_eq!(
        Response::serve(RangeHeader::Absent, 0),
        Response { code: ResponseCode::Success, body: ResponseBody::File { size: 0 } }
    );
}

#[test]
fn relative_path_loses_one_slash() {
    let path_of = |raw: &'static [u8]| Request::parse(raw).unwrap().relative_path();
    assert_eq!(path_of(b"GET / HTTP/1.1\r\n\r\n"), "");
    assert_eq!(path_of(b"GET /a/b.txt HTTP/1.1\r\n\r\n"), "a/b.txt");
    assert_eq!(path_of(b"GET //a HTTP/1.1\r\n\r\n"), "/a");
    assert_eq!(path_of(b"GET a/b HTTP/1.1\r\n\r\n"), "a/b");
    assert_eq!(path_of(b"GET /../up HTTP/1.1\r\n\r\n"), "../up");
}

#[test]
fn head_of_each_status() {
    let response = Response::new(ResponseCode::Success, "");
    assert_eq!(response.head(), b"HTTP/1.1 200 OK\r\nAccept-Ranges: bytes\r\n\r\n");
    let response = Response::bad_request("x");
    assert_eq!(response.head(), b"HTTP/1.1 400 Bad Request\r\nAccept-Ranges: bytes\r\n\r\n");
}

#[test]
fn parse_failure_becomes_bad_request() {
    let error = Request::parse(b"\xff\xff\r\n\r\n").unwrap_err();
    let response = Response::bad_request(error.description());
    assert_eq!(
        wire(response, b""),
        expected("400 Bad Request", b"Invalid UTF-8 in request")
    );
}

#[test]
fn write_to_appends_to_what_is_there() {
    let mut out = b"before".to_vec();
    Response::not_found().write_to(b"", &mut out);
    assert_eq!(out, [&b"before"[..], &expected("404 Not Found", b"404 Not Found")].concat());
}

#[test]
fn round_trip_of_ranges_across_chunks() {
    let file = file_of(3 * CHUNK_LEN + 17);
    let size = file.len() as u64;
    let cases: [(u64, u64); 8] = [
        (0, 1),
        (0, 8192),
        (1, 8193),
        (8191, 8193),
        (5, 16389),
        (8192, 16384),
        (0, size),
        (size - 1, size),
    ];
    for (a, b) in cases {
        let response = Response::serve(RangeHeader::Bytes(Some(a), Some(b)), size);
        assert_eq!(response.code, ResponseCode::PartialContent);
        let out = wire(response, &file);
        let head = response.head();
        assert_eq!(&out[..head.len()], &head[..]);
        let body = &out[head.len()..];
        assert_eq!(body.len() as u64, b - a);
        assert_eq!(body, &file[a as usize..b as usize]);
    }
}

#[test]
fn window_is_cut_where_the_file_ends() {
    let file = file_of(10);
    let mut out = Vec::new();
    Response::write_file_range(&file, &mut out, 4, 50);
    assert_eq!(out, &file[4..]);
    out.clear();
    Response::write_file_range(&file, &mut out, 10, 50);
    assert!(out.is_empty());
    Response::write_file_range(&file, &mut out, 7, 7);
    assert!(out.is_empty());
    Response::write_file_range(&file, &mut out, 8, 3);
    assert!(out.is_empty());
    Response::write_file_range(&file, &mut out, u64::MAX - 1, u64::MAX);
    assert!(out.is_empty());
}

#[test]
fn transfer_takes_no_more_than_chunk_or_window() {
    let mut t = Transfer::new(10, 20000);
    assert_eq!(t.next_offset(), Some(10));
    assert_eq!(t.accept(100000), CHUNK_LEN);
    assert_eq!(t.next_offset(), Some(10 + 8192));
    assert_eq!(t.accept(100), 100);
    assert_eq!(t.next_offset(), Some(10 + 8192 + 100));
    assert_eq!(t.accept(8192), 8192);
    assert_eq!(t.accept(8192), 20000 - 10 - 8192 - 100 - 8192);
    assert_eq!(t, Transfer { position: 20000, end: 20000 });
    assert_eq!(t.next_offset(), None);
    assert_eq!(t.accept(8192), 0);
    assert_eq!(t.position, 20000);
}

#[test]
fn transfer_stops_at_end_of_file() {
    let mut t = Transfer::new(5, 9);
    assert_eq!(t.accept(0), 0);
    assert_eq!(t.next_offset(), Some(5));
    let mut t = Transfer::new(9, 5);
    assert_eq!(t.next_offset(), None);
    assert_eq!(t.accept(3), 0);
    assert_eq!(t.position, 9);
    let mut t = Transfer::new(u64::MAX - 3, u64::MAX);
    assert_eq!(t.accept(usize::MAX), 3);
    assert_eq!(t.next_offset(), None);
}

#[test]
fn transfer_with_short_reads_sends_the_window() {
    let file = file_of(30000);
    let (start, end) = (123u64, 29000u64);
    let reads = [1usize, 8192, 7, 9000, 3, 8192, 8192, 8192, 8192];
    let mut t = Transfer::new(start, end);
    let mut out = Vec::new();
    let mut turn = 0;
    while let Some(offset) = t.next_offset() {
        let at = offset as usize;
        let got = reads[turn % reads.len()].min(file.len() - at);
        turn += 1;
        let sent = t.accept(got);
        if sent == 0 {
            break;
        }
        out.extend_from_slice(&file[at..at + sent]);
    }
    assert_eq!(out, &file[start as usize..end as usize]);
}

#[test]
fn error_messages() {
    let e = NanoserveError::from(ParseRequestError::InvalidRequestLine);
    assert!(matches!(e, NanoserveError::ParseRequest(ParseRequestError::InvalidRequestLine)));
    assert_eq!(e.message(), "Parse request error: Invalid request line");
    let io = std::io::Error::new(std::io::ErrorKind::Other, "boom");
    let e = NanoserveError::from(io);
    assert!(matches!(e, NanoserveError::Io(_)));
    assert_eq!(e.message(), "IO error: boom");
}

#[test]
fn plan_for_a_connection() {
    assert_eq!(REQUEST_LEN, 1024);
    assert_eq!(
        plan(b"POST / HTTP/1.1\r\n\r\n"),
        Plan::Answer(Response::new(ResponseCode::MethodNotAllowed, "405 Method Not Allowed"))
    );
    assert_eq!(
        plan(b"GET / HTTP/1.0\r\n\r\n"),
        Plan::Answer(Response::bad_request("Unsupported HTTP Version"))
    );
    assert_eq!(plan(b"nonsense"), Plan::Answer(Response::bad_request("Invalid request line")));
    assert_eq!(plan(b""), Plan::Answer(Response::bad_request("Invalid request line")));
    assert_eq!(
        plan(b"GET /\xfe HTTP/1.1\r\n\r\n"),
        Plan::Answer(Response::bad_request("Invalid UTF-8 in request"))
    );
    let raw = b"GET /missing.txt HTTP/1.1\r\n\r\n";
    match plan(raw) {
        Plan::Lookup(request) => {
            assert_eq!(request, Request::parse(raw).unwrap());
            assert_eq!(request.relative_path(), "missing.txt");
        }
        other => panic!("{other:?}"),
    }
}

#[test]
fn long_request_is_cut_off() {
    let mut raw = b"GET /a HTTP/1.1\r\nX-Fill: ".to_vec();
    raw.resize(2000, b'x');
    raw.extend_from_slice(b"\r\nRange: bytes=0-1\r\n\r\nbody");
    let read = &raw[..REQUEST_LEN];
    match plan(read) {
        Plan::Lookup(request) => {
            assert_eq!(request.headers.len(), 1);
            assert_eq!(request.headers[0].1.len(), REQUEST_LEN - 25);
            assert_eq!(request.parse_range_header(), RangeHeader::Absent);
            assert!(request.body.is_empty());
        }
        other => panic!("{other:?}"),
    }
    let mut raw = vec![b'G'; 2000];
    raw.extend_from_slice(b" / HTTP/1.1\r\n\r\n");
    assert_eq!(
        plan(&raw[..REQUEST_LEN]),
        Plan::Answer(Response::bad_request("Invalid request line"))
    );
}

#[test]
fn window_of_each_body() {
    assert_eq!(ResponseBody::Static("text").window(), None);
    assert_eq!(ResponseBody::File { size: 0 }.window(), Some((0, 0)));
    assert_eq!(ResponseBody::File { size: 77 }.window(), Some((0, 77)));
    assert_eq!(ResponseBody::PartialFile { start: 3, end: 9 }.window(), Some((3, 9)));
    let response = Response::serve(RangeHeader::Bytes(Some(10), None), 100);
    assert_eq!(response.body.window(), Some((10, 100)));
    let response = Response::serve(RangeHeader::Absent, 100);
    assert_eq!(response.body.window(), Some((0, 100)));
    assert_eq!(Response::not_found().body.window(), None);
}

#[test]
fn utf8_error_becomes_parse_error() {
    let bytes = [0xffu8, 0xfe];
    let error = std::str::from_utf8(&bytes).unwrap_err();
    assert_eq!(ParseRequestError::from(error), ParseRequestError::InvalidUtf8);
    let wrapped = NanoserveError::from(ParseRequestError::from(error));
    assert_eq!(wrapped.message(), "Parse request error: Invalid UTF-8 in request");
}
