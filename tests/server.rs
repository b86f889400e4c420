use std::io::Read;

use http_server::request::{HttpMethod, HttpRequest, ParseError};
use http_server::response::{decimal_bytes, Encoding, HttpResponse};
use http_server::router::{
    bad_request, file_target, handle_get, handle_post, next_read_step, respond, wants_close,
    ReadStep, CHUNK_SIZE,
};

fn parse(text: &str) -> HttpRequest {
    match HttpRequest::from_str(text) {
        Ok(r) => r,
        Err(e) => panic!("parse failed: {:?}", e),
    }
}

fn gunzip(data: &[u8]) -> Vec<u8> {
    let mut out = Vec::new();
    flate2::read::GzDecoder::new(data).read_to_end(&mut out).unwrap();
    out
}

/// Splits wire bytes into the head (status line and headers) and the body.
fn split_wire(bytes: &[u8]) -> (String, Vec<u8>) {
    let pos = bytes.windows(4).position(|w| w == b"\r\n\r\n").unwrap();
    (String::from_utf8(bytes[..pos + 4].to_vec()).unwrap(), bytes[pos + 4..].to_vec())
}

fn header_lines(head: &str) -> Vec<String> {
    head.split("\r\n").skip(1).filter(|l| !l.is_empty()).map(|l| l.to_string()).collect()
}

#[test]
fn parses_request_line_headers_and_body() {
    let r = parse("POST /files/a.txt HTTP/1.1\r\nHost: localhost\r\nContent-Length: 5\r\n\r\nhello");
    assert_eq!(r.method, HttpMethod::Post);
    assert_eq!(r.path, b"/files/a.txt".to_vec());
    assert_eq!(r.headers.get(b"Host").unwrap(), &b"localhost".to_vec());
    assert_eq!(r.headers.get(b"Content-Length").unwrap(), &b"5".to_vec());
    assert_eq!(r.body, b"hello".to_vec());
    assert_eq!(r.headers.len(), 2);
}

#[test]
fn request_line_round_trip() {
    let r = parse("GET /echo/abc HTTP/1.1\r\nHost: x\r\n\r\n");
    assert_eq!(r.method, HttpMethod::Get);
    assert_eq!(r.path, b"/echo/abc".to_vec());
    let r = parse("POST /files/x HTTP/1.1\r\n\r\n");
    assert_eq!(r.method, HttpMethod::Post);
    assert_eq!(r.path, b"/files/x".to_vec());
}

#[test]
fn other_methods_are_get() {
    let r = parse("PUT /x HTTP/1.1\r\n\r\n");
    assert_eq!(r.method, HttpMethod::Get);
    let r = parse("post /x HTTP/1.1\r\n\r\n");
    assert_eq!(r.method, HttpMethod::Get);
}

#[test]
fn malformed_request_line_is_an_error() {
    assert_eq!(HttpRequest::from_str("GET").err(), Some(ParseError::MalformedRequestLine));
    assert_eq!(HttpRequest::from_str("").err(), Some(ParseError::MalformedRequestLine));
    assert_eq!(HttpRequest::from_str("GET  HTTP/1.1\r\n\r\n").err(), Some(ParseError::MalformedRequestLine));
}

#[test]
fn header_without_separator_is_an_error() {
    assert_eq!(
        HttpRequest::from_str("GET / HTTP/1.1\r\nBroken\r\n\r\n").err(),
        Some(ParseError::MalformedHeader)
    );
}

#[test]
fn header_value_keeps_later_separators() {
    let r = parse("GET / HTTP/1.1\r\nX-Note: a: b\r\n\r\n");
    assert_eq!(r.headers.get(b"X-Note").unwrap(), &b"a: b".to_vec());
}

#[test]
fn duplicate_header_last_wins() {
    let r = parse("GET / HTTP/1.1\r\nA: 1\r\nB: 2\r\nA: 3\r\n\r\n");
    assert_eq!(r.headers.get(b"A").unwrap(), &b"3".to_vec());
    assert_eq!(r.headers.len(), 2);
    assert!(r.headers.get(b"a").is_none());
}

#[test]
fn body_lines_are_joined_without_separators() {
    let r = parse("POST /files/f HTTP/1.1\r\n\r\nab\r\ncd\r\n");
    assert_eq!(r.body, b"abcd".to_vec());
}

#[test]
fn no_blank_line_means_no_body() {
    let r = parse("GET / HTTP/1.1\r\nHost: x");
    assert_eq!(r.body, Vec::<u8>::new());
    assert_eq!(r.headers.get(b"Host").unwrap(), &b"x".to_vec());
}

#[test]
fn decimal_digits() {
    assert_eq!(decimal_bytes(0), b"0".to_vec());
    assert_eq!(decimal_bytes(7), b"7".to_vec());
    assert_eq!(decimal_bytes(1024), b"1024".to_vec());
    assert_eq!(decimal_bytes(u64::MAX), u64::MAX.to_string().into_bytes());
}

#[test]
fn response_wire_format() {
    let mut r = HttpResponse::new(200, "OK");
    r.set_content(b"abc".to_vec(), "text/plain");
    assert_eq!(
        r.to_bytes(),
        b"HTTP/1.1 200 OK\r\nContent-Type: text/plain\r\nContent-Length: 3\r\n\r\nabc".to_vec()
    );
}

#[test]
fn empty_response_wire_format() {
    let mut r = HttpResponse::new(404, "Not Found");
    assert_eq!(r.to_bytes(), b"HTTP/1.1 404 Not Found\r\nContent-Length: 0\r\n\r\n".to_vec());
    assert_eq!(r.status_code(), 404);
    assert_eq!(r.status(), &b"Not Found".to_vec());
}

#[test]
fn add_header_overwrites() {
    let mut r = HttpResponse::new(200, "OK");
    r.add_header("X", "1");
    r.add_header("Y", "2");
    r.add_header("X", "3");
    assert_eq!(r.header("X").unwrap(), &b"3".to_vec());
    assert_eq!(
        r.to_bytes(),
        b"HTTP/1.1 200 OK\r\nX: 3\r\nY: 2\r\nContent-Length: 0\r\n\r\n".to_vec()
    );
}

#[test]
fn gzip_encoding_compresses_and_recounts() {
    let mut r = HttpResponse::new(200, "OK");
    r.set_content(b"hello hello hello".to_vec(), "text/plain");
    r.set_encoding(Encoding::Gzip);
    assert_eq!(r.encoding(), Some(Encoding::Gzip));
    assert_eq!(r.header("Content-Encoding").unwrap(), &b"gzip".to_vec());
    let body = r.format_content();
    assert_ne!(body, b"hello hello hello".to_vec());
    assert_eq!(gunzip(&body), b"hello hello hello".to_vec());
    let bytes = r.to_bytes();
    let (_, wire_body) = split_wire(&bytes);
    assert_eq!(wire_body, body);
    assert_eq!(r.header("Content-Length").unwrap(), &body.len().to_string().into_bytes());
    assert_eq!(r.content(), &b"hello hello hello".to_vec());
}

#[test]
fn encoding_name() {
    assert_eq!(Encoding::Gzip.as_str(), "gzip");
    assert_eq!(Encoding::Gzip.to_string(), "gzip".to_string());
}

#[test]
fn root_is_ok_with_empty_body() {
    let r = parse("GET / HTTP/1.1\r\nHost: x\r\nUser-Agent: y\r\n\r\n");
    let (bytes, close) = respond(&r, None, true);
    assert_eq!(bytes, b"HTTP/1.1 200 OK\r\nContent-Length: 0\r\n\r\n".to_vec());
    assert!(!close);
}

#[test]
fn user_agent_is_echoed() {
    let r = parse("GET /user-agent HTTP/1.1\r\nUser-Agent: curl/8\r\n\r\n");
    let mut resp = handle_get(&r, None);
    assert_eq!(resp.status_code(), 200);
    let (head, body) = split_wire(&resp.to_bytes());
    assert_eq!(body, b"curl/8".to_vec());
    assert!(header_lines(&head).contains(&"Content-Type: text/plain".to_string()));
    assert!(header_lines(&head).contains(&"Content-Length: 6".to_string()));
}

#[test]
fn user_agent_missing_is_bad_request() {
    let r = parse("GET /user-agent HTTP/1.1\r\n\r\n");
    let resp = handle_get(&r, None);
    assert_eq!(resp.status_code(), 400);
}

#[test]
fn echo_plain() {
    let r = parse("GET /echo/abc HTTP/1.1\r\n\r\n");
    let (bytes, _) = respond(&r, None, true);
    assert_eq!(
        bytes,
        b"HTTP/1.1 200 OK\r\nContent-Type: text/plain\r\nContent-Length: 3\r\n\r\nabc".to_vec()
    );
}

#[test]
fn echo_strips_prefix_once() {
    let r = parse("GET /echo//echo/x HTTP/1.1\r\n\r\n");
    let resp = handle_get(&r, None);
    assert_eq!(resp.content(), &b"/echo/x".to_vec());
}

#[test]
fn echo_gzip() {
    let r = parse("GET /echo/abc HTTP/1.1\r\nAccept-Encoding: gzip\r\n\r\n");
    let (bytes, _) = respond(&r, None, true);
    let (head, body) = split_wire(&bytes);
    assert!(head.starts_with("HTTP/1.1 200 OK\r\n"));
    let lines = header_lines(&head);
    assert!(lines.contains(&"Content-Encoding: gzip".to_string()));
    assert!(lines.contains(&format!("Content-Length: {}", body.len())));
    assert_eq!(gunzip(&body), b"abc".to_vec());
}

#[test]
fn echo_gzip_among_several_encodings() {
    let r = parse("GET /echo/abc HTTP/1.1\r\nAccept-Encoding: deflate, gzip\r\n\r\n");
    let resp = handle_get(&r, None);
    assert_eq!(resp.encoding(), Some(Encoding::Gzip));
}

#[test]
fn echo_without_gzip_token() {
    let r = parse("GET /echo/abc HTTP/1.1\r\nAccept-Encoding: deflate, br\r\n\r\n");
    let resp = handle_get(&r, None);
    assert_eq!(resp.encoding(), None);
    let r = parse("GET /echo/abc HTTP/1.1\r\nAccept-Encoding: gzipx\r\n\r\n");
    assert_eq!(handle_get(&r, None).encoding(), None);
}

#[test]
fn post_then_get_file() {
    let post = parse("POST /files/report.txt HTTP/1.1\r\n\r\nhello");
    assert_eq!(file_target(&post), Some(b"report.txt".to_vec()));
    let created = handle_post(&post, true);
    assert_eq!(created.status_code(), 201);
    let get = parse("GET /files/report.txt HTTP/1.1\r\n\r\n");
    assert_eq!(file_target(&get), Some(b"report.txt".to_vec()));
    let (bytes, _) = respond(&get, Some(post.body.clone()), true);
    let (head, body) = split_wire(&bytes);
    assert!(head.starts_with("HTTP/1.1 200 OK\r\n"));
    assert_eq!(body, b"hello".to_vec());
    assert!(header_lines(&head).contains(&"Content-Type: application/octet-stream".to_string()));
}

#[test]
fn post_write_failure_is_server_error() {
    let post = parse("POST /files/x HTTP/1.1\r\n\r\nhi");
    assert_eq!(handle_post(&post, false).status_code(), 500);
    let other = parse("POST /other HTTP/1.1\r\n\r\nhi");
    assert_eq!(handle_post(&other, true).status_code(), 404);
    assert_eq!(file_target(&other), None);
}

#[test]
fn missing_file_is_not_found() {
    let r = parse("GET /files/missing.txt HTTP/1.1\r\n\r\n");
    let (bytes, _) = respond(&r, None, true);
    assert_eq!(bytes, b"HTTP/1.1 404 Not Found\r\nContent-Length: 0\r\n\r\n".to_vec());
}

#[test]
fn connection_close_is_echoed_and_closes() {
    let r = parse("GET / HTTP/1.1\r\nConnection: close\r\n\r\n");
    assert!(wants_close(&r));
    let (bytes, close) = respond(&r, None, true);
    assert!(close);
    let (head, _) = split_wire(&bytes);
    assert!(header_lines(&head).contains(&"Connection: close".to_string()));
}

#[test]
fn keep_alive_without_close() {
    let r = parse("GET / HTTP/1.1\r\nConnection: keep-alive\r\n\r\n");
    assert!(!wants_close(&r));
    let (bytes, close) = respond(&r, None, true);
    assert!(!close);
    assert!(!String::from_utf8(bytes).unwrap().contains("Connection"));
    let r = parse("GET / HTTP/1.1\r\nConnection: Close\r\n\r\n");
    assert!(!wants_close(&r));
}

#[test]
fn unknown_paths_are_not_found() {
    for text in [
        "GET /nope HTTP/1.1\r\n\r\n",
        "POST / HTTP/1.1\r\n\r\n",
        "POST /echo/x HTTP/1.1\r\n\r\n",
        "GET /files HTTP/1.1\r\n\r\n",
    ] {
        let r = parse(text);
        let (bytes, _) = respond(&r, Some(b"data".to_vec()), true);
        assert_eq!(bytes, b"HTTP/1.1 404 Not Found\r\nContent-Length: 0\r\n\r\n".to_vec());
    }
}

#[test]
fn bad_request_closes() {
    assert_eq!(
        bad_request(),
        b"HTTP/1.1 400 Bad Request\r\nConnection: close\r\nContent-Length: 0\r\n\r\n".to_vec()
    );
}

#[test]
fn read_steps() {
    assert_eq!(next_read_step(CHUNK_SIZE, CHUNK_SIZE), ReadStep::More);
    assert_eq!(next_read_step(10, 10), ReadStep::Complete);
    assert_eq!(next_read_step(2048, 0), ReadStep::Complete);
    assert_eq!(next_read_step(0, 0), ReadStep::Closed);
}
