use kl_http::codec::{
    MAX_HEADERS, finish_request, finish_response, parse_into_request, parse_into_response,
    parse_request_head, parse_response_head, read_body,
};
use kl_http::content_length::{body_length, parse_decimal};
use kl_http::error::{ErrorKind, HttpRequestError};
use kl_http::head::{HeadReader, read_head};
use kl_http::message::{decimal_bytes, HeaderField, HttpSerialise, Request, Response};

fn field(name: &str, value: &str) -> HeaderField {
    HeaderField { name: name.as_bytes().to_vec(), value: value.as_bytes().to_vec() }
}

fn kind(r: Result<Request, HttpRequestError>) -> ErrorKind {
    r.err().expect("an error").error_kind()
}

#[test]
fn test_http_request() {
    let request = Request {
        method: b"GET".to_vec(),
        target: b"/".to_vec(),
        headers: vec![field("content-length", "12")],
        body: b"Hello, world".to_vec(),
    };
    let http = request.to_http();
    assert_eq!(http, b"GET / HTTP/1.1\r\ncontent-length: 12\r\n\r\nHello, world".to_vec());
}

#[test]
fn test_http_response() {
    let response = Response {
        code: 200,
        reason: b"OK".to_vec(),
        headers: vec![field("content-length", "12")],
        body: b"Hello, world".to_vec(),
    };
    let http = response.to_http();
    assert_eq!(http, b"HTTP/1.1 200 OK\r\ncontent-length: 12\r\n\r\nHello, world".to_vec());
}

#[test]
fn parses_request_scenario() {
    let input = b"GET / HTTP/1.1\r\ncontent-length: 11\r\n\r\nHello world";
    let r = parse_into_request(input).unwrap();
    assert_eq!(r.method, b"GET".to_vec());
    assert_eq!(r.target, b"/".to_vec());
    assert_eq!(r.headers.len(), 1);
    assert_eq!(r.headers[0].name, b"content-length".to_vec());
    assert_eq!(r.headers[0].value, b"11".to_vec());
    assert_eq!(r.body, b"Hello world".to_vec());
    assert_eq!(r.to_http(), input.to_vec());
}

#[test]
fn parses_response_scenario() {
    let input = b"HTTP/1.1 200 OK\r\ncontent-length: 12\r\n\r\nHello, world";
    let r = parse_into_response(input).unwrap();
    assert_eq!(r.code, 200);
    assert_eq!(r.reason, b"OK".to_vec());
    assert_eq!(r.body, b"Hello, world".to_vec());
    assert_eq!(r.to_http(), input.to_vec());
}

#[test]
fn serialises_response_with_injected_length() {
    let mut response =
        Response { code: 200, reason: b"OK".to_vec(), headers: vec![], body: b"hello me".to_vec() };
    assert!(!response.has_content_length());
    response.ensure_content_length();
    assert_eq!(
        response.to_http(),
        b"HTTP/1.1 200 OK\r\ncontent-length: 8\r\n\r\nhello me".to_vec()
    );
}

#[test]
fn injection_keeps_existing_header() {
    let mut response = Response {
        code: 200,
        reason: b"OK".to_vec(),
        headers: vec![field("Content-Length", "3")],
        body: b"hello me".to_vec(),
    };
    response.ensure_content_length();
    assert_eq!(response.headers.len(), 1);
    assert_eq!(response.headers[0].value, b"3".to_vec());
    response.ensure_content_length();
    assert_eq!(
        response.to_http(),
        b"HTTP/1.1 200 OK\r\nContent-Length: 3\r\n\r\nhello me".to_vec()
    );
}

#[test]
fn keeps_header_order_with_duplicates() {
    let input = b"GET /x HTTP/1.1\r\nA: 1\r\nB: 2\r\nA: 3\r\n\r\n";
    let r = parse_into_request(input).unwrap();
    let names: Vec<Vec<u8>> = r.headers.iter().map(|h| h.name.clone()).collect();
    assert_eq!(names, vec![b"A".to_vec(), b"B".to_vec(), b"A".to_vec()]);
    assert_eq!(r.headers[2].value, b"3".to_vec());
    assert_eq!(r.to_http(), input.to_vec());
}

#[test]
fn missing_content_length_gives_empty_body() {
    let input = b"GET / HTTP/1.1\r\nhost: a\r\n\r\ntrailing bytes";
    let r = parse_into_request(input).unwrap();
    assert!(r.body.is_empty());
}

#[test]
fn short_body_is_io_error() {
    let input = b"GET / HTTP/1.1\r\ncontent-length: 20\r\n\r\nHello world";
    assert_eq!(kind(parse_into_request(input)), ErrorKind::Io);
    let input = b"HTTP/1.1 200 OK\r\ncontent-length: 5\r\n\r\nabc";
    assert_eq!(parse_into_response(input).err().unwrap().error_kind(), ErrorKind::Io);
}

#[test]
fn content_length_is_case_insensitive_and_first_wins() {
    let input = b"GET / HTTP/1.1\r\nContent-Length: 2\r\ncontent-length: 5\r\n\r\nabcdef";
    let r = parse_into_request(input).unwrap();
    assert_eq!(r.body, b"ab".to_vec());
}

#[test]
fn malformed_content_length_is_error() {
    let input = b"GET / HTTP/1.1\r\ncontent-length: -1\r\n\r\n";
    assert_eq!(kind(parse_into_request(input)), ErrorKind::ContentLength);
    let input = b"GET / HTTP/1.1\r\ncontent-length: 1x\r\n\r\nab";
    assert_eq!(kind(parse_into_request(input)), ErrorKind::ContentLength);
    let e = parse_into_request(input).err().unwrap();
    assert_eq!(e.description(), "The content length failed parsing into an integer.");
}

#[test]
fn malformed_head_is_parsing_error() {
    let input = b"GET\r\n\r\n";
    assert_eq!(kind(parse_into_request(input)), ErrorKind::Parsing);
    let input = b"GET / HTTP/1.1\r\nno colon here\r\n\r\n";
    assert_eq!(kind(parse_into_request(input)), ErrorKind::Parsing);
    let input = b"GET / HTTP/1.1\r\nhost: a\r\n";
    assert_eq!(kind(parse_into_request(input)), ErrorKind::Parsing);
}

#[test]
fn too_many_headers_is_parsing_error() {
    let mut text = String::from("GET / HTTP/1.1\r\n");
    for i in 0..MAX_HEADERS {
        text.push_str(&format!("h{}: v\r\n", i));
    }
    let ok = format!("{}\r\n", text);
    assert_eq!(parse_into_request(ok.as_bytes()).unwrap().headers.len(), MAX_HEADERS);
    text.push_str("one-more: v\r\n\r\n");
    let e = parse_into_request(text.as_bytes()).err().unwrap();
    assert_eq!(e.error_kind(), ErrorKind::Parsing);
    assert_eq!(e.detail(), "too many headers");
}

#[test]
fn invalid_status_is_body_writing_error() {
    let input = b"HTTP/1.1 099 Odd\r\n\r\n";
    let e = parse_into_response(input).err().unwrap();
    assert_eq!(e.error_kind(), ErrorKind::BodyWriting);
    assert!(matches!(e, HttpRequestError::BodyWritingError(_)));
}

#[test]
fn finish_checks_with_http() {
    let head = Request { method: b"GET".to_vec(), target: b"/".to_vec(), headers: vec![], body: vec![] };
    let ok = finish_request(head, b"xy".to_vec()).unwrap();
    assert_eq!(ok.body, b"xy".to_vec());
    let bad_method =
        Request { method: b"G(T".to_vec(), target: b"/".to_vec(), headers: vec![], body: vec![] };
    assert_eq!(kind(finish_request(bad_method, vec![])), ErrorKind::BodyWriting);
    let bad_target =
        Request { method: b"GET".to_vec(), target: b"/a b".to_vec(), headers: vec![], body: vec![] };
    assert_eq!(kind(finish_request(bad_target, vec![])), ErrorKind::BodyWriting);
    let bad_name = Request {
        method: b"GET".to_vec(),
        target: b"/".to_vec(),
        headers: vec![field("a b", "v")],
        body: vec![],
    };
    assert_eq!(kind(finish_request(bad_name, vec![])), ErrorKind::BodyWriting);
    let bad_value = Request {
        method: b"GET".to_vec(),
        target: b"/".to_vec(),
        headers: vec![field("a", "v\u{7f}")],
        body: vec![],
    };
    assert_eq!(kind(finish_request(bad_value, vec![])), ErrorKind::BodyWriting);
    let status = Response { code: 1000, reason: vec![], headers: vec![], body: vec![] };
    assert_eq!(finish_response(status, vec![]).err().unwrap().error_kind(), ErrorKind::BodyWriting);
    let status = Response { code: 404, reason: b"Not Found".to_vec(), headers: vec![], body: vec![] };
    assert_eq!(finish_response(status, vec![]).unwrap().code, 404);
}

#[test]
fn head_parsers_report_fields_and_length() {
    let (m, n) = parse_request_head(b"POST /submit HTTP/1.1\r\nContent-Length: 4\r\n\r\n").unwrap();
    assert_eq!(m.method, b"POST".to_vec());
    assert_eq!(m.target, b"/submit".to_vec());
    assert_eq!(n, 4);
    let (r, n) = parse_response_head(b"HTTP/1.1 404 Not Found\r\n\r\n").unwrap();
    assert_eq!(r.code, 404);
    assert_eq!(r.reason, b"Not Found".to_vec());
    assert_eq!(n, 0);
}

#[test]
fn reads_head_up_to_blank_line() {
    let input = b"GET / HTTP/1.1\r\nhost: a\r\n\r\nbody";
    assert_eq!(read_head(input), b"GET / HTTP/1.1\r\nhost: a\r\n\r\n".to_vec());
    assert_eq!(read_head(b"GET / HTTP/1.1\r\nhost"), b"GET / HTTP/1.1\r\nhost".to_vec());
    assert_eq!(read_head(b"\r\n\r\nrest"), b"\r\n\r\n".to_vec());
    assert_eq!(read_head(b""), Vec::<u8>::new());
}

#[test]
fn head_reader_stops_at_blank_line_or_end() {
    let mut reader = HeadReader::new();
    assert!(!reader.push_line(b"\r\n"));
    assert!(!reader.push_line(b"GET / HTTP/1.1\r\n"));
    assert!(reader.push_line(b"\r\n"));
    assert_eq!(reader.into_head(), b"\r\nGET / HTTP/1.1\r\n\r\n".to_vec());
    let mut reader = HeadReader::new();
    assert!(!reader.push_line(b"GET"));
    assert!(reader.push_line(b""));
}

#[test]
fn decimal_parsing_follows_usize() {
    assert_eq!(parse_decimal(b"0"), Some(0));
    assert_eq!(parse_decimal(b"+12"), Some(12));
    assert_eq!(parse_decimal(b"18446744073709551615"), Some(usize::MAX));
    assert_eq!(parse_decimal(b"18446744073709551616"), None);
    assert_eq!(parse_decimal(b""), None);
    assert_eq!(parse_decimal(b"+"), None);
    assert_eq!(parse_decimal(b"-3"), None);
    assert_eq!(parse_decimal(b" 3"), None);
    assert_eq!(decimal_bytes(0), b"0".to_vec());
    assert_eq!(decimal_bytes(1230), b"1230".to_vec());
}

#[test]
fn body_length_defaults_to_zero() {
    assert_eq!(body_length(&vec![field("host", "a")]).unwrap(), 0);
    assert_eq!(body_length(&vec![field("CONTENT-LENGTH", "7")]).unwrap(), 7);
}

#[test]
fn round_trip_of_response_after_injection() {
    let mut response = Response {
        code: 201,
        reason: b"Created".to_vec(),
        headers: vec![field("X-A", "1"), field("X-B", "2")],
        body: b"made".to_vec(),
    };
    response.ensure_content_length();
    let back = parse_into_response(&response.to_http()).unwrap();
    assert_eq!(back.to_http(), response.to_http());
    assert_eq!(back.headers.len(), 3);
}

#[test]
fn with_status_takes_the_registered_reason() {
    let r = Response::with_status(200, b"hello me".to_vec()).unwrap();
    assert_eq!(r.reason, b"OK".to_vec());
    assert!(r.headers.is_empty());
    let r = Response::with_status(404, vec![]).unwrap();
    assert_eq!(r.reason, b"Not Found".to_vec());
    let r = Response::with_status(299, vec![]).unwrap();
    assert!(r.reason.is_empty());
    let e = Response::with_status(99, vec![]).err().unwrap();
    assert_eq!(e.error_kind(), ErrorKind::BodyWriting);
    assert_eq!(e.description(), "Failed to write http body.");
}

#[test]
fn round_trip_of_request() {
    let request = Request {
        method: b"PUT".to_vec(),
        target: b"/items/7?x=1".to_vec(),
        headers: vec![field("Host", "example.org"), field("content-length", "5"), field("X", "a")],
        body: b"12345".to_vec(),
    };
    let back = parse_into_request(&request.to_http()).unwrap();
    assert_eq!(back.method, request.method);
    assert_eq!(back.target, request.target);
    assert_eq!(back.headers.len(), 3);
    assert_eq!(back.headers[0].name, b"Host".to_vec());
    assert_eq!(back.headers[2].value, b"a".to_vec());
    assert_eq!(back.body, request.body);
}

#[test]
fn bytes_after_a_head_without_length_play_no_part() {
    let head = b"HTTP/1.1 204 No Content\r\nx: y\r\n\r\n".to_vec();
    let mut stream = head.clone();
    stream.extend_from_slice(b"whatever follows");
    let a = parse_into_response(&head).unwrap();
    let b = parse_into_response(&stream).unwrap();
    assert!(b.body.is_empty());
    assert_eq!(a.to_http(), b.to_http());
}

#[test]
fn read_body_takes_exactly_the_declared_bytes() {
    assert_eq!(read_body(b"headbody!", 4, 4).unwrap(), b"body".to_vec());
    assert_eq!(read_body(b"headbody", 4, 5).err().unwrap().error_kind(), ErrorKind::Io);
    assert_eq!(read_body(b"head", 9, 0).err().unwrap().error_kind(), ErrorKind::Io);
}
