use tinyserve::dispatch::{
    check_body_length, finish_post, plan_request, respond_for_file, FetchMethod, Step,
};
use tinyserve::error::HttpError;
use tinyserve::inspect::{file_error, file_status, FileInfo};
use tinyserve::response::{serialize_head, Body};

fn bytes(s: &str) -> Vec<u8> {
    s.as_bytes().to_vec()
}

fn lines(raw: &[&str]) -> Vec<Vec<u8>> {
    raw.iter().map(|l| bytes(l)).collect()
}

fn servable() -> FileInfo {
    FileInfo { exists: true, is_file: true, readonly: false }
}

#[test]
fn get_existing_file_is_served_with_content_type_and_body() {
    let step = plan_request(&lines(&["GET /page.html HTTP/1.1\r\n"]));
    let (method, resource) = match step {
        Step::Fetch { method, resource } => (method, resource),
        _ => panic!("expected a fetch"),
    };
    assert_eq!(method, FetchMethod::Get);
    assert_eq!(resource.file_path, bytes("page.html"));
    let resp = respond_for_file(method, resource.file_path, servable());
    assert_eq!(resp.status_line, bytes("HTTP/1.1 200 OK\r\n"));
    let hs = resp.headers.as_ref().unwrap();
    assert_eq!(hs.len(), 1);
    assert_eq!(hs[0], bytes("Content-Type: text/html\r\n"));
    match resp.body {
        Some(Body::FileRef(p)) => assert_eq!(p, bytes("page.html")),
        _ => panic!("expected a file body"),
    }
}

#[test]
fn root_plans_like_the_index_file() {
    let a = plan_request(&lines(&["GET / HTTP/1.1\r\n"]));
    let b = plan_request(&lines(&["GET /index.html HTTP/1.1\r\n"]));
    let (ma, ra) = match a {
        Step::Fetch { method, resource } => (method, resource),
        _ => panic!("expected a fetch"),
    };
    let (mb, rb) = match b {
        Step::Fetch { method, resource } => (method, resource),
        _ => panic!("expected a fetch"),
    };
    assert_eq!(ma, mb);
    assert_eq!(ra.file_path, rb.file_path);
    assert_eq!(ra.file_path, bytes("index.html"));
    assert_eq!(ra.query.len(), 0);
    assert_eq!(rb.query.len(), 0);
}

#[test]
fn missing_file_gets_bare_not_found() {
    let step = plan_request(&lines(&["GET /missing.xyz HTTP/1.1\r\n"]));
    let (method, resource) = match step {
        Step::Fetch { method, resource } => (method, resource),
        _ => panic!("expected a fetch"),
    };
    let info = FileInfo { exists: false, is_file: false, readonly: false };
    let resp = respond_for_file(method, resource.file_path, info);
    assert_eq!(resp.status_line, bytes("HTTP/1.1 404 Not Found\r\n"));
    assert!(resp.headers.is_none());
    assert!(resp.body.is_none());
    assert_eq!(serialize_head(&resp), bytes("HTTP/1.1 404 Not Found\r\n\r\n"));
}

#[test]
fn head_gets_content_type_but_no_body() {
    let step = plan_request(&lines(&["HEAD /page.html HTTP/1.1\r\n"]));
    let (method, resource) = match step {
        Step::Fetch { method, resource } => (method, resource),
        _ => panic!("expected a fetch"),
    };
    assert_eq!(method, FetchMethod::Head);
    let resp = respond_for_file(method, resource.file_path, servable());
    assert_eq!(resp.status_line, bytes("HTTP/1.1 200 OK\r\n"));
    assert_eq!(resp.headers.as_ref().unwrap()[0], bytes("Content-Type: text/html\r\n"));
    assert!(resp.body.is_none());
}

#[test]
fn two_token_request_line_is_answered_bad_request() {
    let step = plan_request(&lines(&["GET HTTP/1.1\r\n"]));
    match step {
        Step::Reply(resp) => {
            assert_eq!(resp.status_line, bytes("HTTP/1.1 400 Bad Request\r\n"));
            assert!(resp.headers.is_none());
            assert!(resp.body.is_none());
        },
        _ => panic!("expected an immediate reply"),
    }
}

#[test]
fn empty_request_is_answered_bad_request() {
    let step = plan_request(&Vec::new());
    match step {
        Step::Reply(resp) => assert_eq!(resp.status_line, bytes("HTTP/1.1 400 Bad Request\r\n")),
        _ => panic!("expected an immediate reply"),
    }
}

#[test]
fn post_without_content_length_is_answered_length_required() {
    let step = plan_request(&lines(&["POST /anything HTTP/1.1\r\n", "Host: h\r\n"]));
    match step {
        Step::Reply(resp) => {
            assert_eq!(resp.status_line, bytes("HTTP/1.1 411 Length Required\r\n"));
            assert!(resp.body.is_none());
        },
        _ => panic!("expected an immediate reply"),
    }
}

#[test]
fn post_with_content_length_waits_for_the_body() {
    let step = plan_request(&lines(&["POST /x HTTP/1.1\r\n", "Content-Length: 5\r\n"]));
    match step {
        Step::ReadBody { content_length } => assert_eq!(content_length, 5),
        _ => panic!("expected a body read"),
    }
}

#[test]
fn post_with_bad_content_length_is_answered_bad_request() {
    let step = plan_request(&lines(&["POST /x HTTP/1.1\r\n", "Content-Length: five\r\n"]));
    match step {
        Step::Reply(resp) => assert_eq!(resp.status_line, bytes("HTTP/1.1 400 Bad Request\r\n")),
        _ => panic!("expected an immediate reply"),
    }
}

#[test]
fn post_body_length_mismatch_is_bad_request() {
    let resp = finish_post(5, 3);
    assert_eq!(resp.status_line, bytes("HTTP/1.1 400 Bad Request\r\n"));
}

#[test]
fn post_body_length_match_is_not_implemented() {
    let resp = finish_post(5, 5);
    assert_eq!(resp.status_line, bytes("HTTP/1.1 501 Not Implemented\r\n"));
}

#[test]
fn bad_query_is_answered_bad_request() {
    let step = plan_request(&lines(&["GET /a?bad HTTP/1.1\r\n"]));
    match step {
        Step::Reply(resp) => assert_eq!(resp.status_line, bytes("HTTP/1.1 400 Bad Request\r\n")),
        _ => panic!("expected an immediate reply"),
    }
}

#[test]
fn unknown_method_is_answered_with_allow_header() {
    let step = plan_request(&lines(&["PATCH /x HTTP/1.1\r\n"]));
    match step {
        Step::Reply(resp) => {
            assert_eq!(resp.status_line, bytes("HTTP/1.1 405 Method Not Allowed\r\n"));
            let hs = resp.headers.as_ref().unwrap();
            assert_eq!(hs.len(), 1);
            assert_eq!(hs[0], bytes("Allow: GET, HEAD\r\n"));
            assert_eq!(
                serialize_head(&resp),
                bytes("HTTP/1.1 405 Method Not Allowed\r\nAllow: GET, HEAD\r\n\r\n")
            );
        },
        _ => panic!("expected an immediate reply"),
    }
}

#[test]
fn known_but_unimplemented_method_is_answered_not_implemented() {
    for m in ["PUT", "DELETE", "OPTIONS", "TRACE", "CONNECT"] {
        let line = format!("{} /x HTTP/1.1\r\n", m);
        let step = plan_request(&lines(&[&line]));
        match step {
            Step::Reply(resp) => {
                assert_eq!(resp.status_line, bytes("HTTP/1.1 501 Not Implemented\r\n"));
                assert!(resp.headers.is_none());
            },
            _ => panic!("expected an immediate reply"),
        }
    }
}

#[test]
fn directory_and_readonly_statuses() {
    assert_eq!(file_status(FileInfo { exists: true, is_file: false, readonly: false }), 404);
    assert_eq!(file_status(FileInfo { exists: true, is_file: true, readonly: true }), 403);
    assert_eq!(file_status(servable()), 200);
    assert_eq!(file_status(FileInfo { exists: false, is_file: true, readonly: true }), 404);
}

#[test]
fn file_errors_match_the_status_policy() {
    assert_eq!(
        file_error(FileInfo { exists: false, is_file: false, readonly: false }),
        Some(HttpError::ResourceNotFound)
    );
    assert_eq!(
        file_error(FileInfo { exists: true, is_file: false, readonly: true }),
        Some(HttpError::ResourceNotRegularFile)
    );
    assert_eq!(
        file_error(FileInfo { exists: true, is_file: true, readonly: true }),
        Some(HttpError::ResourceForbidden)
    );
    assert_eq!(file_error(servable()), None);
}

#[test]
fn body_length_check_accepts_only_the_declared_count() {
    assert!(check_body_length(5, 5).is_ok());
    let e = check_body_length(5, 3).unwrap_err();
    assert_eq!(e, HttpError::BodyLengthMismatch);
    assert_eq!(e.status(), 400);
}

#[test]
fn every_error_answers_with_its_status() {
    let cases = [
        (HttpError::MalformedRequestLine, 400),
        (HttpError::MissingContentLength, 411),
        (HttpError::MalformedContentLength, 400),
        (HttpError::BodyLengthMismatch, 400),
        (HttpError::InvalidQueryString, 400),
        (HttpError::InvalidQueryTarget, 400),
        (HttpError::ResourceNotFound, 404),
        (HttpError::ResourceNotRegularFile, 404),
        (HttpError::ResourceForbidden, 403),
        (HttpError::UnsupportedMethod, 501),
        (HttpError::UnrecognizedMethod, 405),
    ];
    for (e, code) in cases {
        assert_eq!(e.status(), code);
    }
}

#[test]
fn readonly_file_is_forbidden() {
    let info = FileInfo { exists: true, is_file: true, readonly: true };
    let resp = respond_for_file(FetchMethod::Get, bytes("page.html"), info);
    assert_eq!(resp.status_line, bytes("HTTP/1.1 403 Forbidden\r\n"));
    assert!(resp.headers.is_none());
    assert!(resp.body.is_none());
}

#[test]
fn content_types_follow_the_extension_table() {
    let cases = [
        ("a.html", "text/html"),
        ("a.png", "image/png"),
        ("a.ico", "image/png"),
        ("a.jpg", "image/jpeg"),
        ("a.jpeg", "image/jpeg"),
        ("a.txt", "text/plain"),
        ("a.css", "application/octet-stream"),
        ("noext", "application/octet-stream"),
        ("dir.d/noext", "application/octet-stream"),
        (".hidden", "application/octet-stream"),
        ("a.", "application/octet-stream"),
        ("dir/b.txt", "text/plain"),
    ];
    for (path, ct) in cases {
        let resp = respond_for_file(FetchMethod::Head, bytes(path), servable());
        let hs = resp.headers.as_ref().unwrap();
        assert_eq!(hs[0], bytes(&format!("Content-Type: {}\r\n", ct)), "path {}", path);
    }
}

#[test]
fn serialized_head_ends_with_a_blank_line() {
    let resp = respond_for_file(FetchMethod::Get, bytes("a.txt"), servable());
    assert_eq!(
        serialize_head(&resp),
        bytes("HTTP/1.1 200 OK\r\nContent-Type: text/plain\r\n\r\n")
    );
}
