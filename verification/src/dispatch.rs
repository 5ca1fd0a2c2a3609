use vstd::prelude::*;

use crate::error::HttpError;
use crate::inspect::{content_type_header, content_type_header_of, file_status, status_of, FileInfo};
use crate::request::{
    content_length_of, dec_val, find_header, headers_of, parse_content_length, parse_headers,
    parse_request_line, valid_content_length, ws_tokens,
};
use crate::resolve::{resolve_of, resolve_target, Resolved, ResolvedModel};
use crate::response::{
    bare_reply, make_bare_reply, make_method_not_allowed_reply,
    method_not_allowed_reply, status_line, status_line_of, Body, BodyModel, Response,
    ResponseModel,
};
use crate::text::{ascii_of, eq_str};

verus! {

/// The two methods this server serves with real work.
#[derive(Clone, Copy, Debug, PartialEq, Eq, Structural)]
pub enum FetchMethod {
    Get,
    Head,
}

/// What the connection handler should do next, decided from the
/// request alone: answer at once, read a POST body first, or ask the
/// filesystem about a resolved resource.
pub enum Step {
    Reply(Response),
    ReadBody { content_length: usize },
    Fetch { method: FetchMethod, resource: Resolved },
}

/// The mathematical shape of a `Step`.
pub enum Plan {
    Reply(ResponseModel),
    ReadBody { content_length: int },
    Fetch { method: FetchMethod, resource: ResolvedModel },
}

impl View for Step {
    type V = Plan;

    open spec fn view(&self) -> Plan {
        match self {
            Step::Reply(r) => Plan::Reply(r@),
            Step::ReadBody { content_length } => Plan::ReadBody {
                content_length: *content_length as int,
            },
            Step::Fetch { method, resource } => Plan::Fetch {
                method: *method,
                resource: resource@,
            },
        }
    }
}

/// What the collected request lines (request line first, then header
/// lines) commit the server to, before any filesystem or body work.
pub open spec fn plan_of(lines: Seq<Seq<u8>>) -> Plan {
    if lines.len() == 0 || ws_tokens(lines[0]).len() != 3 {
        Plan::Reply(bare_reply(400))
    } else {
        let method = ws_tokens(lines[0])[0];
        let target = ws_tokens(lines[0])[1];
        let headers = headers_of(lines.drop_first());
        if method == ascii_of("POST"@) {
            match find_header(headers, ascii_of("Content-Length"@)) {
                None => Plan::Reply(bare_reply(411)),
                Some(v) => if valid_content_length(v) {
                    Plan::ReadBody { content_length: dec_val(v) }
                } else {
                    Plan::Reply(bare_reply(400))
                },
            }
        } else if method == ascii_of("GET"@) || method == ascii_of("HEAD"@) {
            match resolve_of(target) {
                Ok(res) => Plan::Fetch {
                    method: if method == ascii_of("GET"@) {
                        FetchMethod::Get
                    } else {
                        FetchMethod::Head
                    },
                    resource: res,
                },
                Err(_) => Plan::Reply(bare_reply(400)),
            }
        } else if method == ascii_of("PUT"@) || method == ascii_of("DELETE"@) || method
            == ascii_of("OPTIONS"@) || method == ascii_of("TRACE"@) || method == ascii_of(
            "CONNECT"@,
        ) {
            Plan::Reply(bare_reply(501))
        } else {
            Plan::Reply(method_not_allowed_reply())
        }
    }
}

/// Decides a whole request up to its first outside need. Every
/// malformed request is answered here; a POST with a declared length
/// waits for its body; GET and HEAD wait for the filesystem's report.
pub fn plan_request(lines: &Vec<Vec<u8>>) -> (s: Step)
    ensures
        s@ == plan_of(lines.deep_view()),
{
    let ghost deep = lines.deep_view();
    if lines.len() == 0 {
        return Step::Reply(make_bare_reply(400));
    }
    proof {
        assert(deep[0] =~= lines@[0]@);
    }
    let rl = match parse_request_line(&lines[0]) {
        Ok(rl) => rl,
        Err(_) => {
            return Step::Reply(make_bare_reply(400));
        },
    };
    let headers = parse_headers(lines, 1);
    proof {
        assert(deep.skip(1) =~= deep.drop_first());
        reveal_strlit("POST");
        reveal_strlit("GET");
        reveal_strlit("HEAD");
        reveal_strlit("PUT");
        reveal_strlit("DELETE");
        reveal_strlit("OPTIONS");
        reveal_strlit("TRACE");
        reveal_strlit("CONNECT");
    }
    if eq_str(&rl.method, "POST") {
        match content_length_of(&headers) {
            None => Step::Reply(make_bare_reply(411)),
            Some(v) => match parse_content_length(&v) {
                Ok(n) => Step::ReadBody { content_length: n },
                Err(_) => Step::Reply(make_bare_reply(400)),
            },
        }
    } else if eq_str(&rl.method, "GET") || eq_str(&rl.method, "HEAD") {
        let is_get = eq_str(&rl.method, "GET");
        match resolve_target(&rl.target) {
            Ok(res) => Step::Fetch {
                method: if is_get {
                    FetchMethod::Get
                } else {
                    FetchMethod::Head
                },
                resource: res,
            },
            Err(_) => Step::Reply(make_bare_reply(400)),
        }
    } else if eq_str(&rl.method, "PUT") || eq_str(&rl.method, "DELETE") || eq_str(
        &rl.method,
        "OPTIONS",
    ) || eq_str(&rl.method, "TRACE") || eq_str(&rl.method, "CONNECT") {
        Step::Reply(make_bare_reply(501))
    } else {
        Step::Reply(make_method_not_allowed_reply())
    }
}

/// What a POST earns once its buffered body bytes are counted: any
/// mismatch with the declared length is refused, and POST itself is
/// not implemented.
pub open spec fn post_outcome_of(content_length: int, body_len: int) -> ResponseModel {
    if body_len != content_length {
        bare_reply(400)
    } else {
        bare_reply(501)
    }
}

/// Accepts the buffered body exactly when its byte count equals the
/// declared Content-Length.
pub fn check_body_length(content_length: usize, body_len: usize) -> (r: Result<(), HttpError>)
    ensures
        r is Ok <==> body_len == content_length,
        r matches Err(e) ==> e == HttpError::BodyLengthMismatch,
{
    if body_len != content_length {
        Err(HttpError::BodyLengthMismatch)
    } else {
        Ok(())
    }
}

pub fn finish_post(content_length: usize, body_len: usize) -> (r: Response)
    ensures
        r@ == post_outcome_of(content_length as int, body_len as int),
{
    match check_body_length(content_length, body_len) {
        Err(e) => make_bare_reply(e.status()),
        Ok(()) => make_bare_reply(501),
    }
}

/// The complete response for a GET or HEAD on a resolved path, given
/// what the filesystem reports of it: the status of `status_of`, a
/// Content-Type header exactly on success, and the file itself as the
/// body exactly for a successful GET.
pub open spec fn fetch_response_of(method: FetchMethod, path: Seq<u8>, info: FileInfo)
    -> ResponseModel {
    let code = status_of(info);
    ResponseModel {
        status_line: status_line_of(code),
        headers: if code == 200 {
            Some(seq![content_type_header_of(path)])
        } else {
            None
        },
        body: if code == 200 && method == FetchMethod::Get {
            Some(BodyModel::FileRef(path))
        } else {
            None
        },
    }
}

/// Builds the response a GET or HEAD earns for its resolved path.
pub fn respond_for_file(method: FetchMethod, file_path: Vec<u8>, info: FileInfo) -> (r: Response)
    ensures
        r@ == fetch_response_of(method, file_path@, info),
{
    let code = file_status(info);
    let sl = status_line(code);
    if code == 200 {
        let ct = content_type_header(&file_path);
        let mut hs: Vec<Vec<u8>> = Vec::new();
        hs.push(ct);
        proof {
            assert(hs.deep_view() =~~= seq![content_type_header_of(file_path@)]);
        }
        let body = match method {
            FetchMethod::Get => Some(Body::FileRef(file_path)),
            FetchMethod::Head => None,
        };
        Response { status_line: sl, headers: Some(hs), body }
    } else {
        Response { status_line: sl, headers: None, body: None }
    }
}

/// A GET for an existing, non-read-only regular file is served in
/// full: status 200, the Content-Type of the path's extension, and the
/// file itself as the body.
pub proof fn lemma_get_serves_existing_file(path: Seq<u8>, info: FileInfo)
    requires
        info.exists,
        info.is_file,
        !info.readonly,
    ensures
        fetch_response_of(FetchMethod::Get, path, info) == (ResponseModel {
            status_line: status_line_of(200),
            headers: Some(seq![content_type_header_of(path)]),
            body: Some(BodyModel::FileRef(path)),
        }),
{
}

/// A GET or HEAD for the bare root plans exactly as the same request
/// for the index file: the two targets resolve to the same resource,
/// and nothing else of the request takes part.
pub proof fn lemma_root_same_as_index(l1: Seq<Seq<u8>>, l2: Seq<Seq<u8>>)
    requires
        l1.len() > 0,
        l2.len() > 0,
        ws_tokens(l1[0]).len() == 3,
        ws_tokens(l2[0]).len() == 3,
        ws_tokens(l2[0])[0] == ws_tokens(l1[0])[0],
        ws_tokens(l1[0])[0] == ascii_of("GET"@) || ws_tokens(l1[0])[0] == ascii_of("HEAD"@),
        ws_tokens(l1[0])[1] == ascii_of("/"@),
        ws_tokens(l2[0])[1] == ascii_of("/index.html"@),
    ensures
        plan_of(l1) == plan_of(l2),
{
    reveal_strlit("GET");
    reveal_strlit("HEAD");
    reveal_strlit("POST");
    assert(ascii_of("GET"@).len() == 3 && ascii_of("POST"@).len() == 4);
    assert(ascii_of("HEAD"@)[0] == 'H' as u8 && ascii_of("POST"@)[0] == 'P' as u8);
    crate::resolve::lemma_root_equals_index_target();
}

} // verus!
