use minihttp::method::Method;
use minihttp::request::{
    content_length, parse_head, parse_header_line, parse_request_line, read_content, HttpError,
    RequestHeader,
};
use minihttp::text::{find_until, parse_decimal};

fn head(text: &str) -> RequestHeader {
    parse_head(text.as_bytes()).ok().unwrap().0
}

#[test]
fn every_verb_round_trips() {
    let all = [
        ("GET", Method::Get),
        ("HEAD", Method::Head),
        ("POST", Method::Post),
        ("PUT", Method::Put),
        ("DELETE", Method::Delete),
        ("CONNECT", Method::Connect),
        ("OPTIONS", Method::Options),
        ("TRACE", Method::Trace),
        ("PATCH", Method::Patch),
    ];
    for (text, m) in all {
        assert_eq!(Method::parse(text.as_bytes()), Some(m));
        assert_eq!(m.encode(), text.as_bytes().to_vec());
    }
}

#[test]
fn unknown_verbs_are_refused() {
    assert_eq!(Method::parse(b"get"), None);
    assert_eq!(Method::parse(b"GET "), None);
    assert_eq!(Method::parse(b""), None);
    assert_eq!(Method::parse(b"BREW"), None);
}

#[test]
fn head_keeps_verb_path_and_header_order() {
    let text = "POST /api/v2/interactions HTTP/1.1\r\nA: 1\r\nB: two words\r\nA: 3\r\n\r\nBODY";
    let (h, n) = parse_head(text.as_bytes()).ok().unwrap();
    assert_eq!(h.method, Method::Post);
    assert_eq!(h.path, b"/api/v2/interactions".to_vec());
    assert_eq!(
        h.headers,
        vec![
            (b"A".to_vec(), b"1".to_vec()),
            (b"B".to_vec(), b"two words".to_vec()),
            (b"A".to_vec(), b"3".to_vec()),
        ]
    );
    assert_eq!(&text.as_bytes()[n..], b"BODY");
}

#[test]
fn header_value_keeps_later_separators() {
    let r = parse_header_line(b"X: a: b\r\n").ok().unwrap();
    assert_eq!(r, Some((b"X".to_vec(), b"a: b".to_vec())));
}

#[test]
fn blank_line_ends_the_head() {
    assert_eq!(parse_header_line(b"\r\n").ok().unwrap(), None);
}

#[test]
fn header_without_crlf_is_malformed() {
    assert_eq!(parse_header_line(b"X: y\n").err(), Some(HttpError::MalformedRequest));
    assert_eq!(parse_header_line(b"X: y").err(), Some(HttpError::MalformedRequest));
    assert_eq!(parse_header_line(b"X: ").err(), Some(HttpError::MalformedRequest));
    assert_eq!(parse_header_line(b"no separator\r\n").err(), Some(HttpError::MalformedRequest));
    assert_eq!(parse_header_line(b"").err(), Some(HttpError::MalformedRequest));
}

#[test]
fn request_line_without_path_is_malformed() {
    assert_eq!(parse_request_line(b"GET\r\n").err(), Some(HttpError::MalformedRequest));
    assert_eq!(parse_request_line(b"GET").err(), Some(HttpError::MalformedRequest));
    assert_eq!(parse_request_line(b"FETCH /x HTTP/1.1\r\n").err(), Some(HttpError::MalformedRequest));
    let (m, p) = parse_request_line(b"GET /x HTTP/1.1\r\n").ok().unwrap();
    assert_eq!(m, Method::Get);
    assert_eq!(p, b"/x".to_vec());
}

#[test]
fn stream_that_ends_early_is_malformed() {
    assert_eq!(parse_head(b"").err(), Some(HttpError::MalformedRequest));
    assert_eq!(parse_head(b"GET / HTTP/1.1\r\n").err(), Some(HttpError::MalformedRequest));
    assert_eq!(
        parse_head(b"GET / HTTP/1.1\r\nA: 1\r\n").err(),
        Some(HttpError::MalformedRequest)
    );
    assert_eq!(
        parse_head(b"GET / HTTP/1.1\r\nA: 1").err(),
        Some(HttpError::MalformedRequest)
    );
}

#[test]
fn content_reads_exactly_the_declared_length() {
    let h = head("POST / HTTP/1.1\r\nContent-Length: 3\r\n\r\n");
    assert_eq!(content_length(&h), Ok(3));
    assert_eq!(read_content(&h, b"abcdef").ok().unwrap(), b"abc".to_vec());
}

#[test]
fn zero_length_content_is_empty() {
    let h = head("POST / HTTP/1.1\r\nContent-Length: 0\r\n\r\n");
    assert_eq!(read_content(&h, b"").ok().unwrap(), Vec::<u8>::new());
    assert_eq!(read_content(&h, b"more").ok().unwrap(), Vec::<u8>::new());
}

#[test]
fn missing_or_bad_length_is_malformed() {
    let none = head("POST / HTTP/1.1\r\nHost: x\r\n\r\n");
    assert_eq!(read_content(&none, b"abc").err(), Some(HttpError::MalformedRequest));
    let bad = head("POST / HTTP/1.1\r\nContent-Length: three\r\n\r\n");
    assert_eq!(read_content(&bad, b"abc").err(), Some(HttpError::MalformedRequest));
    let neg = head("POST / HTTP/1.1\r\nContent-Length: -1\r\n\r\n");
    assert_eq!(read_content(&neg, b"abc").err(), Some(HttpError::MalformedRequest));
}

#[test]
fn first_length_field_wins() {
    let h = head("POST / HTTP/1.1\r\nContent-Length: 2\r\nContent-Length: 4\r\n\r\n");
    assert_eq!(read_content(&h, b"abcd").ok().unwrap(), b"ab".to_vec());
}

#[test]
fn short_body_is_a_transport_failure() {
    let h = head("POST / HTTP/1.1\r\nContent-Length: 5\r\n\r\n");
    assert_eq!(read_content(&h, b"abc").err(), Some(HttpError::Unclassified));
}

#[test]
fn decimal_reading() {
    assert_eq!(parse_decimal(b"0"), Some(0));
    assert_eq!(parse_decimal(b"42"), Some(42));
    assert_eq!(parse_decimal(b"+7"), Some(7));
    assert_eq!(parse_decimal(b""), None);
    assert_eq!(parse_decimal(b"+"), None);
    assert_eq!(parse_decimal(b"1 "), None);
    assert_eq!(parse_decimal(b"99999999999999999999999"), None);
    assert_eq!(parse_decimal(usize::MAX.to_string().as_bytes()), Some(usize::MAX));
}

#[test]
fn find_until_gives_the_first_match() {
    assert_eq!(find_until(b"a=b=c", b'='), Some(1));
    assert_eq!(find_until(b"abc", b'='), None);
    assert_eq!(find_until(b"", b'='), None);
}
