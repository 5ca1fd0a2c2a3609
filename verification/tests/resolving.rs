use tinyserve::error::HttpError;
use tinyserve::resolve::resolve_target;

fn bytes(s: &str) -> Vec<u8> {
    s.as_bytes().to_vec()
}

#[test]
fn root_resolves_to_index_with_no_query() {
    let r = resolve_target(&bytes("/")).unwrap();
    assert_eq!(r.file_path, bytes("index.html"));
    assert_eq!(r.query.len(), 0);
}

#[test]
fn plain_path_loses_one_leading_slash() {
    let r = resolve_target(&bytes("/page.html")).unwrap();
    assert_eq!(r.file_path, bytes("page.html"));
    assert_eq!(r.query.len(), 0);
}

#[test]
fn dotdot_segments_pass_through_unchanged() {
    let r = resolve_target(&bytes("/../secret")).unwrap();
    assert_eq!(r.file_path, bytes("../secret"));
}

#[test]
fn query_pairs_are_split_in_order() {
    let r = resolve_target(&bytes("/a?x=1&y=2")).unwrap();
    assert_eq!(r.file_path, bytes("a"));
    assert_eq!(r.query.len(), 2);
    assert_eq!(r.query[0].key, bytes("x"));
    assert_eq!(r.query[0].value, bytes("1"));
    assert_eq!(r.query[1].key, bytes("y"));
    assert_eq!(r.query[1].value, bytes("2"));
}

#[test]
fn root_with_query_still_names_the_index() {
    let r = resolve_target(&bytes("/?x=1")).unwrap();
    assert_eq!(r.file_path, bytes("index.html"));
    assert_eq!(r.query.len(), 1);
    assert_eq!(r.query[0].key, bytes("x"));
    assert_eq!(r.query[0].value, bytes("1"));
}

#[test]
fn segment_without_equals_is_invalid() {
    let e = resolve_target(&bytes("/a?bad")).unwrap_err();
    assert_eq!(e, HttpError::InvalidQueryString);
    assert_eq!(e.status(), 400);
}

#[test]
fn segment_with_two_equals_is_invalid() {
    let e = resolve_target(&bytes("/a?x=1=2")).unwrap_err();
    assert_eq!(e, HttpError::InvalidQueryString);
}

#[test]
fn empty_query_is_invalid() {
    let e = resolve_target(&bytes("/a?")).unwrap_err();
    assert_eq!(e, HttpError::InvalidQueryString);
}

#[test]
fn trailing_ampersand_is_invalid() {
    let e = resolve_target(&bytes("/a?x=1&")).unwrap_err();
    assert_eq!(e, HttpError::InvalidQueryString);
}

#[test]
fn two_question_marks_are_invalid() {
    let e = resolve_target(&bytes("/a?x=1?y=2")).unwrap_err();
    assert_eq!(e, HttpError::InvalidQueryTarget);
    assert_eq!(e.status(), 400);
}

#[test]
fn empty_value_and_empty_key_are_kept() {
    let r = resolve_target(&bytes("/a?x=&=y")).unwrap();
    assert_eq!(r.query.len(), 2);
    assert_eq!(r.query[0].key, bytes("x"));
    assert_eq!(r.query[0].value, bytes(""));
    assert_eq!(r.query[1].key, bytes(""));
    assert_eq!(r.query[1].value, bytes("y"));
}

#[test]
fn target_without_leading_slash_is_kept_whole() {
    let r = resolve_target(&bytes("page.html")).unwrap();
    assert_eq!(r.file_path, bytes("page.html"));
}
