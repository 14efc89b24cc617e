use mini_httpd::parser::{parse_head, parse_http_request, ParseError};
use mini_httpd::text::{decimal_bytes, read_number, same_bytes, scan, scan_back, trim_range};
use mini_httpd::text::{ByteClass, Declared};

#[test]
fn request_without_body_is_read() {
    let req = parse_http_request(b"GET /hello HTTP/1.1\r\nHost: x\r\n\r\n").unwrap();
    assert_eq!(req.method, b"GET".to_vec());
    assert_eq!(req.path, b"/hello".to_vec());
    assert_eq!(req.version, b"HTTP/1.1".to_vec());
    assert_eq!(req.host, b"x".to_vec());
    assert_eq!(req.body, Vec::<u8>::new());
    assert_eq!(req.headers.len(), 1);
    assert_eq!(req.headers.get(b"Host"), Some(&b"x".to_vec()));
}

#[test]
fn body_of_declared_length_is_read() {
    let req = parse_http_request(b"POST /in HTTP/1.1\r\nContent-Length: 5\r\n\r\nabcde").unwrap();
    assert_eq!(req.body, b"abcde".to_vec());
    assert_eq!(req.host, Vec::<u8>::new());
}

#[test]
fn body_stops_at_declared_length() {
    let req = parse_http_request(b"POST /in HTTP/1.1\r\nContent-Length: 5\r\n\r\nabcdefgh").unwrap();
    assert_eq!(req.body, b"abcde".to_vec());
}

#[test]
fn short_body_is_an_error() {
    let r = parse_http_request(b"POST /in HTTP/1.1\r\nContent-Length: 5\r\n\r\nabc");
    assert_eq!(r.err(), Some(ParseError::TruncatedBody));
}

#[test]
fn huge_declared_length_is_a_short_body() {
    let r = parse_http_request(
        b"POST /in HTTP/1.1\r\nContent-Length: 99999999999999999999999999999999\r\n\r\nabc",
    );
    assert_eq!(r.err(), Some(ParseError::TruncatedBody));
}

#[test]
fn zero_length_body_is_empty() {
    let req = parse_http_request(b"POST /in HTTP/1.1\r\nContent-Length: 0\r\n\r\nabc").unwrap();
    assert_eq!(req.body, Vec::<u8>::new());
}

#[test]
fn length_that_is_no_number_gives_empty_body() {
    let req = parse_http_request(b"POST /in HTTP/1.1\r\nContent-Length: five\r\n\r\nabc").unwrap();
    assert_eq!(req.body, Vec::<u8>::new());
    let req = parse_http_request(b"POST /in HTTP/1.1\r\nContent-Length: -1\r\n\r\nabc").unwrap();
    assert_eq!(req.body, Vec::<u8>::new());
    let req = parse_http_request(b"POST /in HTTP/1.1\r\nContent-Length:\r\n\r\nabc").unwrap();
    assert_eq!(req.body, Vec::<u8>::new());
}

#[test]
fn length_with_plus_sign_is_read() {
    let req = parse_http_request(b"POST /in HTTP/1.1\r\nContent-Length: +2\r\n\r\nabc").unwrap();
    assert_eq!(req.body, b"ab".to_vec());
}

#[test]
fn request_line_needs_three_words() {
    assert_eq!(parse_http_request(b"GET /hello\r\n\r\n").err(), Some(ParseError::RequestLine));
    assert_eq!(
        parse_http_request(b"GET /hello HTTP/1.1 extra\r\n\r\n").err(),
        Some(ParseError::RequestLine)
    );
    assert_eq!(parse_http_request(b"").err(), Some(ParseError::RequestLine));
    assert_eq!(parse_http_request(b"\r\n").err(), Some(ParseError::RequestLine));
    assert_eq!(parse_http_request(b"GET\r\n/hello HTTP/1.1\r\n").err(), Some(ParseError::RequestLine));
}

#[test]
fn request_line_words_may_be_spaced_out() {
    let req = parse_http_request(b"  GET \t /a/b   HTTP/1.0  \r\n\r\n").unwrap();
    assert_eq!(req.method, b"GET".to_vec());
    assert_eq!(req.path, b"/a/b".to_vec());
    assert_eq!(req.version, b"HTTP/1.0".to_vec());
}

#[test]
fn header_line_without_colon_is_skipped() {
    let req = parse_http_request(b"GET / HTTP/1.1\r\nnonsense here\r\nA: 1\r\n\r\n").unwrap();
    assert_eq!(req.headers.len(), 1);
    assert_eq!(req.headers.get(b"A"), Some(&b"1".to_vec()));
    assert_eq!(req.headers.get(b"nonsense here"), None);
}

#[test]
fn later_header_of_same_name_wins() {
    let req = parse_http_request(b"GET / HTTP/1.1\r\nA: 1\r\nB: 2\r\nA: 3\r\n\r\n").unwrap();
    assert_eq!(req.headers.len(), 2);
    assert_eq!(req.headers.get(b"A"), Some(&b"3".to_vec()));
    assert_eq!(req.headers.get(b"B"), Some(&b"2".to_vec()));
}

#[test]
fn header_names_keep_their_case() {
    let req = parse_http_request(b"GET / HTTP/1.1\r\nhost: lower\r\n\r\n").unwrap();
    assert_eq!(req.host, Vec::<u8>::new());
    assert_eq!(req.headers.get(b"host"), Some(&b"lower".to_vec()));
    assert_eq!(req.headers.get(b"Host"), None);
}

#[test]
fn header_name_and_value_are_trimmed() {
    let req = parse_http_request(b"GET / HTTP/1.1\r\n  Key \t:   some value: here  \r\n\r\n").unwrap();
    assert_eq!(req.headers.get(b"Key"), Some(&b"some value: here".to_vec()));
}

#[test]
fn end_of_stream_ends_the_header_section() {
    let req = parse_http_request(b"GET / HTTP/1.1\r\nHost: y").unwrap();
    assert_eq!(req.host, b"y".to_vec());
    assert_eq!(req.body, Vec::<u8>::new());
    let req = parse_http_request(b"GET / HTTP/1.1").unwrap();
    assert_eq!(req.headers.len(), 0);
}

#[test]
fn bare_line_feeds_end_lines_too() {
    let req = parse_http_request(b"GET / HTTP/1.1\nContent-Length: 1\n\nzz").unwrap();
    assert_eq!(req.body, b"z".to_vec());
}

#[test]
fn head_reports_where_the_body_starts() {
    let input = b"POST /in HTTP/1.1\r\nContent-Length: 5\r\n\r\nabc";
    let head = parse_head(input).unwrap();
    assert_eq!(head.body_start, input.len() - 3);
    assert_eq!(head.body_len, Declared::Within(5));
    assert_eq!(head.request.body, Vec::<u8>::new());
    assert_eq!(head.request.method, b"POST".to_vec());
    let head = parse_head(b"GET / HTTP/1.1\r\n\r\n").unwrap();
    assert_eq!(head.body_len, Declared::Absent);
    assert_eq!(head.body_start, 18);
    assert!(parse_head(b"GET /\r\n").is_err());
}

#[test]
fn numbers_are_read_against_a_limit() {
    assert_eq!(read_number(b"0", 10), Declared::Within(0));
    assert_eq!(read_number(b"10", 10), Declared::Within(10));
    assert_eq!(read_number(b"11", 10), Declared::Beyond);
    assert_eq!(read_number(b"007", 10), Declared::Within(7));
    assert_eq!(read_number(b"+7", 10), Declared::Within(7));
    assert_eq!(read_number(b"+", 10), Declared::Absent);
    assert_eq!(read_number(b"", 10), Declared::Absent);
    assert_eq!(read_number(b"1x", 10), Declared::Absent);
    assert_eq!(read_number(b"99x", 10), Declared::Absent);
    assert_eq!(read_number(b"++1", 10), Declared::Absent);
    assert_eq!(read_number(b"18446744073709551615", usize::MAX), Declared::Within(usize::MAX));
    assert_eq!(read_number(b"18446744073709551616", usize::MAX), Declared::Beyond);
    assert_eq!(read_number(b"5", 0), Declared::Beyond);
}

#[test]
fn numbers_are_written_in_decimal() {
    assert_eq!(decimal_bytes(0), b"0".to_vec());
    assert_eq!(decimal_bytes(9), b"9".to_vec());
    assert_eq!(decimal_bytes(10), b"10".to_vec());
    assert_eq!(decimal_bytes(404), b"404".to_vec());
    assert_eq!(decimal_bytes(65535), b"65535".to_vec());
}

#[test]
fn written_numbers_read_back() {
    let mut n: usize = 0;
    while n < 2000 {
        assert_eq!(read_number(&decimal_bytes(n), usize::MAX), Declared::Within(n));
        n += 7;
    }
    assert_eq!(read_number(&decimal_bytes(usize::MAX), usize::MAX), Declared::Within(usize::MAX));
}

#[test]
fn scans_stop_at_the_first_byte_outside_the_class() {
    let s = b"  ab:cd \r\n";
    assert_eq!(scan(s, 0, s.len(), ByteClass::Space), 2);
    assert_eq!(scan(s, 2, s.len(), ByteClass::Word), 7);
    assert_eq!(scan(s, 0, s.len(), ByteClass::Except(b':')), 4);
    assert_eq!(scan(s, 0, s.len(), ByteClass::Except(b'#')), s.len());
    assert_eq!(scan(s, 3, 3, ByteClass::Word), 3);
    assert_eq!(scan_back(s, 0, s.len()), 7);
    assert_eq!(scan_back(s, 7, s.len()), 7);
    assert_eq!(trim_range(s, 0, s.len()), (2, 7));
    assert_eq!(trim_range(s, 7, s.len()), (10, 10));
}

#[test]
fn white_space_is_the_ascii_set() {
    for b in [b' ', b'\t', b'\n', 11u8, 12u8, b'\r'] {
        assert!(ByteClass::Space.holds(b));
        assert!(!ByteClass::Word.holds(b));
    }
    for b in [0u8, 8u8, 14u8, b'a', 0x85u8, 0xa0u8] {
        assert!(!ByteClass::Space.holds(b));
        assert!(ByteClass::Word.holds(b));
    }
}

#[test]
fn byte_strings_compare_by_content() {
    assert!(same_bytes(b"", b""));
    assert!(same_bytes(b"abc", b"abc"));
    assert!(!same_bytes(b"abc", b"abd"));
    assert!(!same_bytes(b"abc", b"ab"));
    assert!(!same_bytes(b"GET", b"get"));
}

#[test]
fn lines_end_after_their_line_feed() {
    let s = b"ab\r\ncd\n\nrest";
    assert_eq!(mini_httpd::parser::next_line(s, 0), 4);
    assert_eq!(mini_httpd::parser::next_line(s, 1), 4);
    assert_eq!(mini_httpd::parser::next_line(s, 4), 7);
    assert_eq!(mini_httpd::parser::next_line(s, 7), 8);
    assert_eq!(mini_httpd::parser::next_line(s, 8), s.len());
}

#[test]
fn request_line_splits_into_three_words() {
    let s = b"xxGET /p HTTP/1.1\r\nyy";
    let words = mini_httpd::parser::request_line_words(s, 2, 19).unwrap();
    assert_eq!(words.0, b"GET".to_vec());
    assert_eq!(words.1, b"/p".to_vec());
    assert_eq!(words.2, b"HTTP/1.1".to_vec());
    assert!(mini_httpd::parser::request_line_words(s, 2, 8).is_none());
    assert!(mini_httpd::parser::request_line_words(s, 0, s.len()).is_none());
    assert!(mini_httpd::parser::request_line_words(s, 5, 5).is_none());
}

#[test]
fn header_line_sets_one_field() {
    let mut headers = mini_httpd::common::Headers::new();
    let s = b"Name:  value  ";
    mini_httpd::parser::read_field(&mut headers, s, 0, 12);
    assert_eq!(headers.get(b"Name"), Some(&b"value".to_vec()));
    mini_httpd::parser::read_field(&mut headers, b"no colon", 0, 8);
    assert_eq!(headers.len(), 1);
    mini_httpd::parser::read_field(&mut headers, b":", 0, 1);
    assert_eq!(headers.get(b""), Some(&Vec::new()));
    mini_httpd::parser::read_field(&mut headers, b"a:b:c", 0, 5);
    assert_eq!(headers.get(b"a"), Some(&b"b:c".to_vec()));
    assert_eq!(headers.len(), 3);
}

#[test]
fn blank_lines_hold_only_white_space() {
    assert!(mini_httpd::text::is_blank(b""));
    assert!(mini_httpd::text::is_blank(b"\r\n"));
    assert!(mini_httpd::text::is_blank(b" \t \n"));
    assert!(!mini_httpd::text::is_blank(b"a\r\n"));
    assert!(!mini_httpd::text::is_blank(b" :"));
}

#[test]
fn ranges_are_copied_and_appended() {
    let s = b"0123456789";
    assert_eq!(mini_httpd::text::copy_range(s, 2, 5), b"234".to_vec());
    assert_eq!(mini_httpd::text::copy_range(s, 4, 4), Vec::<u8>::new());
    assert_eq!(mini_httpd::text::copy_range(s, 0, 10), s.to_vec());
    let mut out = b"ab".to_vec();
    mini_httpd::text::append_bytes(&mut out, b"cd");
    mini_httpd::text::append_bytes(&mut out, b"");
    assert_eq!(out, b"abcd".to_vec());
}

#[test]
fn fixed_byte_strings_spell_their_text() {
    assert_eq!(mini_httpd::literals::http_version_bytes(), b"HTTP/1.1".to_vec());
    assert_eq!(mini_httpd::literals::host_name_bytes(), b"Host".to_vec());
    assert_eq!(mini_httpd::literals::content_length_name_bytes(), b"Content-Length".to_vec());
    assert_eq!(
        mini_httpd::literals::bad_request_wire_bytes(),
        b"HTTP/1.1 400 Bad Request\r\n\r\n".to_vec()
    );
    assert_eq!(
        mini_httpd::literals::server_error_wire_bytes(),
        b"HTTP/1.1 500 Internal Server Error\r\n\r\n".to_vec()
    );
    assert_eq!(mini_httpd::literals::hello_key_bytes(), b"GET /hello".to_vec());
    assert_eq!(mini_httpd::literals::long_query_key_bytes(), b"GET /long-query".to_vec());
    assert_eq!(mini_httpd::literals::fixed_date_bytes(), b"Wed, 21 Oct 2015 07:28:00 GMT".to_vec());
    assert_eq!(mini_httpd::literals::languages_bytes(), b"en-US,en;q=0.5".to_vec());
    assert_eq!(mini_httpd::literals::encodings_bytes(), b"gzip, deflate".to_vec());
    assert_eq!(mini_httpd::literals::server_label_bytes(), b"Rust HTTP Server".to_vec());
}
