use vstd::prelude::*;

use crate::text::{ascii_of, extend_bytes, lit_bytes};

verus! {

/// What a response carries after its headers: bytes held in memory, or
/// a file to be streamed from disk when the response is written.
#[derive(Debug)]
pub enum Body {
    Bytes(Vec<u8>),
    FileRef(Vec<u8>),
}

/// The mathematical shape of a response body.
pub enum BodyModel {
    Bytes(Seq<u8>),
    FileRef(Seq<u8>),
}

impl View for Body {
    type V = BodyModel;

    open spec fn view(&self) -> BodyModel {
        match self {
            Body::Bytes(b) => BodyModel::Bytes(b@),
            Body::FileRef(p) => BodyModel::FileRef(p@),
        }
    }
}

/// One response: a status line, optional header lines each carrying its
/// own terminator, and an optional body.
#[derive(Debug)]
pub struct Response {
    pub status_line: Vec<u8>,
    pub headers: Option<Vec<Vec<u8>>>,
    pub body: Option<Body>,
}

/// The mathematical shape of a response.
pub struct ResponseModel {
    pub status_line: Seq<u8>,
    pub headers: Option<Seq<Seq<u8>>>,
    pub body: Option<BodyModel>,
}

impl View for Response {
    type V = ResponseModel;

    open spec fn view(&self) -> ResponseModel {
        ResponseModel {
            status_line: self.status_line@,
            headers: match self.headers {
                Some(hs) => Some(hs.deep_view()),
                None => None,
            },
            body: match self.body {
                Some(b) => Some(b@),
                None => None,
            },
        }
    }
}

/// The status line each emitted code puts on the wire. Codes this
/// server never emits have no line.
pub open spec fn status_line_of(code: u16) -> Seq<u8> {
    if code == 200 {
        ascii_of("HTTP/1.1 200 OK\r\n"@)
    } else if code == 400 {
        ascii_of("HTTP/1.1 400 Bad Request\r\n"@)
    } else if code == 403 {
        ascii_of("HTTP/1.1 403 Forbidden\r\n"@)
    } else if code == 404 {
        ascii_of("HTTP/1.1 404 Not Found\r\n"@)
    } else if code == 405 {
        ascii_of("HTTP/1.1 405 Method Not Allowed\r\n"@)
    } else if code == 411 {
        ascii_of("HTTP/1.1 411 Length Required\r\n"@)
    } else if code == 501 {
        ascii_of("HTTP/1.1 501 Not Implemented\r\n"@)
    } else {
        Seq::empty()
    }
}

/// Builds the status line for one of the emitted codes.
pub fn status_line(code: u16) -> (r: Vec<u8>)
    ensures
        r@ == status_line_of(code),
{
    if code == 200 {
        proof {
            reveal_strlit("HTTP/1.1 200 OK\r\n");
        }
        lit_bytes("HTTP/1.1 200 OK\r\n")
    } else if code == 400 {
        proof {
            reveal_strlit("HTTP/1.1 400 Bad Request\r\n");
        }
        lit_bytes("HTTP/1.1 400 Bad Request\r\n")
    } else if code == 403 {
        proof {
            reveal_strlit("HTTP/1.1 403 Forbidden\r\n");
        }
        lit_bytes("HTTP/1.1 403 Forbidden\r\n")
    } else if code == 404 {
        proof {
            reveal_strlit("HTTP/1.1 404 Not Found\r\n");
        }
        lit_bytes("HTTP/1.1 404 Not Found\r\n")
    } else if code == 405 {
        proof {
            reveal_strlit("HTTP/1.1 405 Method Not Allowed\r\n");
        }
        lit_bytes("HTTP/1.1 405 Method Not Allowed\r\n")
    } else if code == 411 {
        proof {
            reveal_strlit("HTTP/1.1 411 Length Required\r\n");
        }
        lit_bytes("HTTP/1.1 411 Length Required\r\n")
    } else if code == 501 {
        proof {
            reveal_strlit("HTTP/1.1 501 Not Implemented\r\n");
        }
        lit_bytes("HTTP/1.1 501 Not Implemented\r\n")
    } else {
        Vec::new()
    }
}

/// The one header a refused method earns.
pub open spec fn allow_header() -> Seq<u8> {
    ascii_of("Allow: GET, HEAD\r\n"@)
}

pub fn allow_header_bytes() -> (r: Vec<u8>)
    ensures
        r@ == allow_header(),
{
    proof {
        reveal_strlit("Allow: GET, HEAD\r\n");
    }
    lit_bytes("Allow: GET, HEAD\r\n")
}

/// A response that carries a status line alone.
pub open spec fn bare_reply(code: u16) -> ResponseModel {
    ResponseModel { status_line: status_line_of(code), headers: None, body: None }
}

/// Builds the status-line-only response for one of the emitted codes.
pub fn make_bare_reply(code: u16) -> (r: Response)
    ensures
        r@ == bare_reply(code),
{
    Response { status_line: status_line(code), headers: None, body: None }
}

/// The response a refused method earns: its status line and `Allow`.
pub open spec fn method_not_allowed_reply() -> ResponseModel {
    ResponseModel {
        status_line: status_line_of(405),
        headers: Some(seq![allow_header()]),
        body: None,
    }
}

pub fn make_method_not_allowed_reply() -> (r: Response)
    ensures
        r@ == method_not_allowed_reply(),
{
    let mut hs: Vec<Vec<u8>> = Vec::new();
    hs.push(allow_header_bytes());
    proof {
        assert(hs.deep_view() =~~= seq![allow_header()]);
    }
    Response { status_line: status_line(405), headers: Some(hs), body: None }
}

/// Everything of a response that precedes its body on the wire: the
/// status line, each header line verbatim, and the blank line.
pub open spec fn head_bytes_of(m: ResponseModel) -> Seq<u8> {
    m.status_line + (match m.headers {
        Some(hs) => hs.flatten(),
        None => Seq::empty(),
    }) + seq![0x0du8, 0x0au8]
}

/// Serializes the head of a response; the body, if any, follows these
/// bytes verbatim (in-memory bytes) or as the named file's content.
pub fn serialize_head(resp: &Response) -> (r: Vec<u8>)
    ensures
        r@ == head_bytes_of(resp@),
{
    let mut out: Vec<u8> = Vec::new();
    proof {
        assert(out@ =~= Seq::<u8>::empty());
    }
    extend_bytes(&mut out, &resp.status_line);
    match &resp.headers {
        Some(hs) => {
            let ghost deep = hs.deep_view();
            let mut i: usize = 0;
            proof {
                assert(deep.take(0) =~= Seq::<Seq<u8>>::empty());
                assert(deep.take(0).flatten() =~= Seq::<u8>::empty());
                assert(out@ =~= resp.status_line@ + deep.take(0).flatten());
            }
            while i < hs.len()
                invariant
                    0 <= i <= hs@.len(),
                    deep == hs.deep_view(),
                    out@ == resp.status_line@ + deep.take(i as int).flatten(),
                decreases hs@.len() - i,
            {
                extend_bytes(&mut out, &hs[i]);
                proof {
                    broadcast use vstd::prelude::Seq::lemma_flatten_push;

                    assert(deep.take(i + 1) =~= deep.take(i as int).push(deep[i as int]));
                    assert(deep[i as int] =~= hs@[i as int]@);
                    assert(out@ =~= resp.status_line@ + deep.take(i + 1).flatten());
                }
                i = i + 1;
            }
            proof {
                assert(deep.take(deep.len() as int) =~= deep);
            }
        },
        None => {
        },
    }
    out.push(0x0d);
    out.push(0x0a);
    proof {
        assert(out@ =~= head_bytes_of(resp@));
    }
    out
}

} // verus!
