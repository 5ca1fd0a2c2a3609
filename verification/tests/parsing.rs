use tinyserve::error::HttpError;
use tinyserve::request::{
    parse_content_length, parse_header_line, parse_headers, parse_request_line, tokenize,
    content_length_of,
};

fn bytes(s: &str) -> Vec<u8> {
    s.as_bytes().to_vec()
}

#[test]
fn tokenize_splits_on_whitespace_runs() {
    let toks = tokenize(&bytes("GET /  HTTP/1.1"));
    assert_eq!(toks.len(), 3);
    assert_eq!(toks[0], bytes("GET"));
    assert_eq!(toks[1], bytes("/"));
    assert_eq!(toks[2], bytes("HTTP/1.1"));
}

#[test]
fn tokenize_ignores_surrounding_whitespace() {
    let toks = tokenize(&bytes("  a\tb\r\n"));
    assert_eq!(toks.len(), 2);
    assert_eq!(toks[0], bytes("a"));
    assert_eq!(toks[1], bytes("b"));
}

#[test]
fn tokenize_empty_line_has_no_tokens() {
    assert_eq!(tokenize(&bytes("")).len(), 0);
    assert_eq!(tokenize(&bytes(" \t ")).len(), 0);
}

#[test]
fn request_line_with_three_tokens_parses() {
    let rl = parse_request_line(&bytes("GET /page.html HTTP/1.1\r\n")).unwrap();
    assert_eq!(rl.method, bytes("GET"));
    assert_eq!(rl.target, bytes("/page.html"));
    assert_eq!(rl.version, bytes("HTTP/1.1"));
}

#[test]
fn request_line_with_two_tokens_is_malformed() {
    let e = parse_request_line(&bytes("GET HTTP/1.1\r\n")).unwrap_err();
    assert_eq!(e, HttpError::MalformedRequestLine);
    assert_eq!(e.status(), 400);
}

#[test]
fn request_line_with_four_tokens_is_malformed() {
    let e = parse_request_line(&bytes("GET / HTTP/1.1 extra")).unwrap_err();
    assert_eq!(e, HttpError::MalformedRequestLine);
}

#[test]
fn header_line_splits_at_first_colon_and_trims() {
    let h = parse_header_line(&bytes("Host:  example.test \r\n"));
    assert_eq!(h.name, bytes("Host"));
    assert_eq!(h.value, bytes("example.test"));
}

#[test]
fn header_line_keeps_later_colons_in_the_value() {
    let h = parse_header_line(&bytes("Referer: http://a/b\r\n"));
    assert_eq!(h.name, bytes("Referer"));
    assert_eq!(h.value, bytes("http://a/b"));
}

#[test]
fn header_line_without_colon_has_empty_value() {
    let h = parse_header_line(&bytes("Upgrade-Insecure-Requests\r\n"));
    assert_eq!(h.name, bytes("Upgrade-Insecure-Requests"));
    assert_eq!(h.value, bytes(""));
}

#[test]
fn first_content_length_wins() {
    let lines = vec![
        bytes("GET / HTTP/1.1\r\n"),
        bytes("Content-Length: 7\r\n"),
        bytes("Content-Length: 9\r\n"),
    ];
    let hs = parse_headers(&lines, 1);
    assert_eq!(hs.len(), 2);
    let v = content_length_of(&hs).unwrap();
    assert_eq!(v, bytes("7"));
}

#[test]
fn missing_content_length_is_not_found() {
    let lines = vec![bytes("POST / HTTP/1.1\r\n"), bytes("Host: h\r\n")];
    let hs = parse_headers(&lines, 1);
    assert!(content_length_of(&hs).is_none());
}

#[test]
fn content_length_parses_decimal() {
    assert_eq!(parse_content_length(&bytes("0")).unwrap(), 0);
    assert_eq!(parse_content_length(&bytes("123")).unwrap(), 123);
    assert_eq!(parse_content_length(&bytes("007")).unwrap(), 7);
}

#[test]
fn content_length_rejects_non_digits() {
    assert_eq!(
        parse_content_length(&bytes("12a")).unwrap_err(),
        HttpError::MalformedContentLength
    );
    assert_eq!(
        parse_content_length(&bytes("")).unwrap_err(),
        HttpError::MalformedContentLength
    );
    assert_eq!(
        parse_content_length(&bytes("-1")).unwrap_err(),
        HttpError::MalformedContentLength
    );
    assert_eq!(
        parse_content_length(&bytes(" 5")).unwrap_err(),
        HttpError::MalformedContentLength
    );
}

#[test]
fn content_length_rejects_overflow() {
    let e = parse_content_length(&bytes("99999999999999999999999999")).unwrap_err();
    assert_eq!(e, HttpError::MalformedContentLength);
}
