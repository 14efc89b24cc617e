use mini_httpd::common::{Headers, HttpResponse};
use mini_httpd::handler::{greeting, mock_a_long_query, sample_response, Endpoint, Handler};
use mini_httpd::parser::parse_http_request;

fn any_request() -> mini_httpd::common::HttpRequest {
    parse_http_request(b"GET /hello HTTP/1.1\r\n\r\n").unwrap()
}

#[test]
fn ok_response_has_no_headers() {
    let r = HttpResponse::ok(b"hi".to_vec());
    assert_eq!(r.version, b"HTTP/1.1".to_vec());
    assert_eq!(r.status_code, 200);
    assert_eq!(r.status_message, b"OK".to_vec());
    assert_eq!(r.headers.len(), 0);
    assert_eq!(r.body, b"hi".to_vec());
    assert_eq!(r.plain_text(), b"HTTP/1.1 200 OK\r\n\r\nhi".to_vec());
}

#[test]
fn not_found_response_is_fixed() {
    let r = HttpResponse::NotFound();
    assert_eq!(r.status_code, 404);
    assert_eq!(r.status_message, b"Not Found".to_vec());
    assert_eq!(r.plain_text(), b"HTTP/1.1 404 Not Found\r\n\r\n404 Not Found".to_vec());
}

#[test]
fn bad_request_response_is_fixed() {
    let r = HttpResponse::BadRequest();
    assert_eq!(r.status_code, 400);
    assert_eq!(r.status_message, b"Bad Request".to_vec());
    assert_eq!(r.plain_text(), b"HTTP/1.1 400 Bad Request\r\n\r\n400 Bad Request".to_vec());
}

#[test]
fn headers_are_written_one_per_line() {
    let mut r = HttpResponse::ok(b"body".to_vec());
    r.headers.insert(b"A".to_vec(), b"1".to_vec());
    r.headers.insert(b"B".to_vec(), b"two words".to_vec());
    assert_eq!(r.plain_text(), b"HTTP/1.1 200 OK\r\nA: 1\r\nB: two words\r\n\r\nbody".to_vec());
}

#[test]
fn no_content_length_is_added() {
    let r = HttpResponse::ok(b"0123456789".to_vec());
    let text = r.plain_text();
    assert!(!text.windows(14).any(|w| w == b"Content-Length"));
}

#[test]
fn empty_body_still_ends_with_one_empty_line() {
    let mut r = HttpResponse::ok(Vec::new());
    assert_eq!(r.plain_text(), b"HTTP/1.1 200 OK\r\n\r\n".to_vec());
    r.headers.insert(b"K".to_vec(), b"v".to_vec());
    assert_eq!(r.plain_text(), b"HTTP/1.1 200 OK\r\nK: v\r\n\r\n".to_vec());
}

#[test]
fn status_code_is_written_in_decimal() {
    let r = HttpResponse {
        version: b"HTTP/1.0".to_vec(),
        status_code: 65535,
        status_message: b"Odd".to_vec(),
        headers: Headers::new(),
        body: Vec::new(),
    };
    assert_eq!(r.plain_text(), b"HTTP/1.0 65535 Odd\r\n\r\n".to_vec());
    let r = HttpResponse {
        version: b"HTTP/1.1".to_vec(),
        status_code: 7,
        status_message: b"Low".to_vec(),
        headers: Headers::new(),
        body: b"x".to_vec(),
    };
    assert_eq!(r.plain_text(), b"HTTP/1.1 7 Low\r\n\r\nx".to_vec());
}

#[test]
fn inserting_a_held_name_replaces_its_value() {
    let mut h = Headers::new();
    h.insert(b"A".to_vec(), b"1".to_vec());
    h.insert(b"B".to_vec(), b"2".to_vec());
    h.insert(b"A".to_vec(), b"3".to_vec());
    assert_eq!(h.len(), 2);
    assert_eq!(h.get(b"A"), Some(&b"3".to_vec()));
    assert_eq!(h.get(b"B"), Some(&b"2".to_vec()));
    assert_eq!(h.get(b"a"), None);
    let mut out = b">".to_vec();
    h.write_to(&mut out);
    assert_eq!(out, b">A: 3\r\nB: 2\r\n".to_vec());
}

#[test]
fn serialised_response_reads_back() {
    let mut r = HttpResponse::ok(b"line one\r\n\r\nline two".to_vec());
    r.headers.insert(b"Content-Type".to_vec(), b"text/plain".to_vec());
    r.headers.insert(b"X-Id".to_vec(), b"42".to_vec());
    let text = r.plain_text();
    let head_end = text.windows(4).position(|w| w == b"\r\n\r\n").unwrap();
    let body = text[head_end + 4..].to_vec();
    assert_eq!(body, r.body);
    let head = text[..head_end].to_vec();
    let mut lines = head.split(|b| *b == b'\n');
    let status = lines.next().unwrap();
    assert_eq!(status.to_vec(), b"HTTP/1.1 200 OK\r".to_vec());
    let mut seen = 0;
    for line in lines {
        let line = if line.ends_with(b"\r") { &line[..line.len() - 1] } else { line };
        let colon = line.iter().position(|b| *b == b':').unwrap();
        let name = line[..colon].to_vec();
        let value = line[colon + 2..].to_vec();
        assert_eq!(r.headers.get(&name), Some(&value));
        seen += 1;
    }
    assert_eq!(seen, r.headers.len());
}

#[test]
fn serialised_headers_read_back_through_the_request_reader() {
    let mut r = HttpResponse::ok(b"abcde".to_vec());
    r.headers.insert(b"Content-Length".to_vec(), b"5".to_vec());
    r.headers.insert(b"Server".to_vec(), b"s".to_vec());
    let mut text = b"PUT /x HTTP/1.1\r\n".to_vec();
    let wire = r.plain_text();
    let first = wire.iter().position(|b| *b == b'\n').unwrap();
    text.extend_from_slice(&wire[first + 1..]);
    let req = parse_http_request(&text).unwrap();
    assert_eq!(req.body, r.body);
    assert_eq!(req.headers.len(), 2);
    assert_eq!(req.headers.get(b"Content-Length"), Some(&b"5".to_vec()));
    assert_eq!(req.headers.get(b"Server"), Some(&b"s".to_vec()));
}

#[test]
fn greeting_says_hello() {
    let r = greeting(any_request()).unwrap();
    assert_eq!(r.status_code, 200);
    assert_eq!(r.body, b"Hello, World!".to_vec());
    assert_eq!(r.headers.len(), 8);
    assert_eq!(r.headers.get(b"Content-Type"), Some(&b"text/plain".to_vec()));
    assert_eq!(r.headers.get(b"Content-Length"), Some(&b"13".to_vec()));
    assert_eq!(r.headers.get(b"Connection"), Some(&b"close".to_vec()));
    assert_eq!(r.headers.get(b"Server"), Some(&b"Rust HTTP Server".to_vec()));
    assert_eq!(r.headers.get(b"Date"), Some(&b"Wed, 21 Oct 2015 07:28:00 GMT".to_vec()));
    assert_eq!(r.headers.get(b"Accept"), Some(&b"text/html".to_vec()));
    assert_eq!(r.headers.get(b"Accept-Encoding"), Some(&b"gzip, deflate".to_vec()));
    assert_eq!(r.headers.get(b"Accept-Language"), Some(&b"en-US,en;q=0.5".to_vec()));
}

#[test]
fn long_query_answers_with_its_own_body() {
    let r = mock_a_long_query(any_request()).unwrap();
    assert_eq!(r.status_code, 200);
    assert_eq!(r.body, b"Hello, World! After a long query.".to_vec());
    assert_eq!(r.headers.get(b"Content-Length"), Some(&b"33".to_vec()));
    assert_eq!(r.headers.len(), 8);
}

#[test]
fn sample_response_declares_the_length_of_its_body() {
    let r = sample_response(vec![b'x'; 120]);
    assert_eq!(r.headers.get(b"Content-Length"), Some(&b"120".to_vec()));
    let r = sample_response(Vec::new());
    assert_eq!(r.headers.get(b"Content-Length"), Some(&b"0".to_vec()));
}

#[test]
fn endpoints_call_the_sample_handlers() {
    let r = Endpoint::Greeting.handle(any_request()).ok().unwrap();
    assert_eq!(r.body, b"Hello, World!".to_vec());
    let r = Endpoint::LongQuery.handle(any_request()).ok().unwrap();
    assert_eq!(r.body, b"Hello, World! After a long query.".to_vec());
}

#[test]
fn sample_response_is_written_in_a_fixed_order() {
    let r = sample_response(b"ok".to_vec());
    let expected = b"HTTP/1.1 200 OK\r\n\
Content-Type: text/plain\r\n\
Content-Length: 2\r\n\
Connection: close\r\n\
Server: Rust HTTP Server\r\n\
Date: Wed, 21 Oct 2015 07:28:00 GMT\r\n\
Accept: text/html\r\n\
Accept-Encoding: gzip, deflate\r\n\
Accept-Language: en-US,en;q=0.5\r\n\
\r\n\
ok";
    assert_eq!(r.plain_text(), expected.to_vec());
}
