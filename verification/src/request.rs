use vstd::prelude::*;

use crate::error::HttpError;
use crate::text::{
    ascii_of, byte_is_ws, copy_range, eq_bytes, find_byte, is_ws, lemma_find_byte_props, lit_bytes,
    scan_byte, trim_bytes, ws_trim,
};

verus! {

/// The byte that splits a header line into name and value.
pub const COLON: u8 = 0x3a;

/// Length of the leading run of non-whitespace bytes.
pub open spec fn run_len(s: Seq<u8>) -> nat
    decreases s.len(),
{
    if s.len() == 0 || is_ws(s[0]) {
        0
    } else {
        1 + run_len(s.drop_first())
    }
}

pub proof fn lemma_run_len_le(s: Seq<u8>)
    ensures
        run_len(s) <= s.len(),
    decreases s.len(),
{
    if s.len() == 0 || is_ws(s[0]) {
    } else {
        lemma_run_len_le(s.drop_first());
    }
}

/// `run_len` names the first whitespace position.
proof fn lemma_run_len_at(s: Seq<u8>, n: int)
    requires
        0 <= n <= s.len(),
        forall|k: int| 0 <= k < n ==> !is_ws(s[k]),
        n == s.len() || is_ws(s[n]),
    ensures
        run_len(s) == n,
    decreases n,
{
    if n == 0 {
    } else {
        assert(!is_ws(s[0]));
        lemma_run_len_at(s.drop_first(), n - 1);
    }
}

/// The maximal whitespace-free tokens of `s`, in order: what splitting
/// on runs of whitespace yields, empty pieces left out.
pub open spec fn ws_tokens(s: Seq<u8>) -> Seq<Seq<u8>>
    decreases s.len(),
    via ws_tokens_decreases
{
    if s.len() == 0 {
        Seq::empty()
    } else if is_ws(s[0]) {
        ws_tokens(s.drop_first())
    } else {
        seq![s.take(run_len(s) as int)] + ws_tokens(s.skip(run_len(s) as int))
    }
}

#[via_fn]
proof fn ws_tokens_decreases(s: Seq<u8>) {
    if s.len() > 0 && !is_ws(s[0]) {
        lemma_run_len_le(s);
    }
}

pub fn tokenize(line: &Vec<u8>) -> (r: Vec<Vec<u8>>)
    ensures
        r.deep_view() == ws_tokens(line@),
{
    let mut toks: Vec<Vec<u8>> = Vec::new();
    proof {
        assert(toks.deep_view() =~~= Seq::<Seq<u8>>::empty());
        assert(line@.skip(0) =~= line@);
        assert(Seq::<Seq<u8>>::empty() + ws_tokens(line@) =~= ws_tokens(line@));
    }
    let mut i: usize = 0;
    while i < line.len()
        invariant
            0 <= i <= line.len(),
            toks.deep_view() + ws_tokens(line@.skip(i as int)) == ws_tokens(line@),
        decreases line.len() - i,
    {
        if byte_is_ws(line[i]) {
            proof {
                assert(line@.skip(i as int).drop_first() =~= line@.skip(i + 1));
            }
            i = i + 1;
        } else {
            let ghost rest = line@.skip(i as int);
            let mut j: usize = i;
            while j < line.len() && !byte_is_ws(line[j])
                invariant
                    i <= j <= line.len(),
                    forall|k: int| i <= k < j ==> !is_ws(line@[k]),
                decreases line.len() - j,
            {
                j = j + 1;
            }
            proof {
                assert forall|k: int| 0 <= k < j - i implies !is_ws(rest[k]) by {
                    assert(rest[k] == line@[i + k]);
                }
                lemma_run_len_at(rest, j - i);
                assert(rest.take(run_len(rest) as int) =~= line@.subrange(i as int, j as int));
                assert(rest.skip(run_len(rest) as int) =~= line@.skip(j as int));
            }
            let tok = copy_range(line, i, j);
            let ghost old_deep = toks.deep_view();
            toks.push(tok);
            proof {
                assert(toks.deep_view() =~~= old_deep + seq![tok@]);
                assert(old_deep + seq![tok@] + ws_tokens(line@.skip(j as int)) =~= old_deep + (
                seq![tok@] + ws_tokens(line@.skip(j as int))));
            }
            i = j;
        }
    }
    proof {
        assert(line@.skip(line@.len() as int) =~= Seq::<u8>::empty());
        assert(toks.deep_view() =~= toks.deep_view() + ws_tokens(Seq::<u8>::empty()));
    }
    toks
}

/// The first line of a request: exactly three whitespace-separated tokens.
#[derive(Debug)]
pub struct RequestLine {
    pub method: Vec<u8>,
    pub target: Vec<u8>,
    pub version: Vec<u8>,
}

/// Accepts a raw request line exactly when it splits into three tokens,
/// which become method, target and version in that order.
pub fn parse_request_line(line: &Vec<u8>) -> (r: Result<RequestLine, HttpError>)
    ensures
        r is Ok <==> ws_tokens(line@).len() == 3,
        r matches Ok(rl) ==> rl.method@ == ws_tokens(line@)[0] && rl.target@ == ws_tokens(
            line@,
        )[1] && rl.version@ == ws_tokens(line@)[2],
        r matches Err(e) ==> e == HttpError::MalformedRequestLine,
{
    let mut toks = tokenize(line);
    if toks.len() == 3 {
        let ghost deep = toks.deep_view();
        let version = match toks.pop() {
            Some(t) => t,
            None => vstd::pervasive::unreached(),
        };
        let target = match toks.pop() {
            Some(t) => t,
            None => vstd::pervasive::unreached(),
        };
        let method = match toks.pop() {
            Some(t) => t,
            None => vstd::pervasive::unreached(),
        };
        proof {
            assert(method@ == deep[0] && target@ == deep[1] && version@ == deep[2]);
        }
        Ok(RequestLine { method, target, version })
    } else {
        Err(HttpError::MalformedRequestLine)
    }
}

/// What a raw header line means: split at the first colon, both sides
/// trimmed; with no colon the whole trimmed line is the name and the
/// value is empty.
pub open spec fn header_of(line: Seq<u8>) -> (Seq<u8>, Seq<u8>) {
    match find_byte(line, COLON) {
        Some(k) => (ws_trim(line.take(k)), ws_trim(line.skip(k + 1))),
        None => (ws_trim(line), Seq::empty()),
    }
}

/// One header, name and value, in arrival order within a request.
#[derive(Debug)]
pub struct HeaderField {
    pub name: Vec<u8>,
    pub value: Vec<u8>,
}

impl View for HeaderField {
    type V = (Seq<u8>, Seq<u8>);

    open spec fn view(&self) -> (Seq<u8>, Seq<u8>) {
        (self.name@, self.value@)
    }
}

impl DeepView for HeaderField {
    type V = (Seq<u8>, Seq<u8>);

    open spec fn deep_view(&self) -> (Seq<u8>, Seq<u8>) {
        self@
    }
}

/// A header line never fails: it is split at the first colon and trimmed.
pub fn parse_header_line(line: &Vec<u8>) -> (r: HeaderField)
    ensures
        r@ == header_of(line@),
{
    match scan_byte(line, COLON) {
        Some(k) => {
            proof {
                lemma_find_byte_props(line@, COLON);
                assert(k < line@.len());
                assert(line@.subrange(0, k as int) =~= line@.take(k as int));
                assert(line@.subrange(k + 1, line@.len() as int) =~= line@.skip(k + 1));
            }
            let end = line.len();
            let name_raw = copy_range(line, 0, k);
            let value_raw = copy_range(line, k + 1, end);
            HeaderField { name: trim_bytes(&name_raw), value: trim_bytes(&value_raw) }
        },
        None => HeaderField { name: trim_bytes(line), value: Vec::new() },
    }
}

/// The headers of the lines after the request line, in arrival order.
pub open spec fn headers_of(lines: Seq<Seq<u8>>) -> Seq<(Seq<u8>, Seq<u8>)> {
    lines.map_values(|l: Seq<u8>| header_of(l))
}

/// Parses every line from `start` on as a header.
pub fn parse_headers(lines: &Vec<Vec<u8>>, start: usize) -> (r: Vec<HeaderField>)
    requires
        start <= lines.len(),
    ensures
        r.deep_view() == headers_of(lines.deep_view().skip(start as int)),
{
    let ghost tail = lines.deep_view().skip(start as int);
    let mut r: Vec<HeaderField> = Vec::new();
    let mut i: usize = start;
    while i < lines.len()
        invariant
            start <= i <= lines.len(),
            tail == lines.deep_view().skip(start as int),
            r.deep_view() == headers_of(tail.take(i - start)),
        decreases lines.len() - i,
    {
        let hf = parse_header_line(&lines[i]);
        let ghost old_deep = r.deep_view();
        r.push(hf);
        proof {
            assert(lines.deep_view()[i as int] =~= lines@[i as int]@);
            assert(tail[i - start] == lines.deep_view()[i as int]);
            assert(r.deep_view() =~~= old_deep + seq![hf@]);
            assert(headers_of(tail.take(i + 1 - start)) =~= headers_of(tail.take(i - start))
                + seq![header_of(tail[i - start])]);
        }
        i = i + 1;
    }
    proof {
        assert(tail.take(lines.deep_view().len() - start) =~= tail);
    }
    r
}

/// The value of the first header named `name`, if any: the first
/// occurrence wins, later duplicates are kept but never read.
pub open spec fn find_header(hs: Seq<(Seq<u8>, Seq<u8>)>, name: Seq<u8>) -> Option<Seq<u8>>
    decreases hs.len(),
{
    if hs.len() == 0 {
        None
    } else if hs[0].0 == name {
        Some(hs[0].1)
    } else {
        find_header(hs.drop_first(), name)
    }
}

/// The value of the first `Content-Length` header, if any.
pub fn content_length_of(headers: &Vec<HeaderField>) -> (r: Option<Vec<u8>>)
    ensures
        match find_header(headers.deep_view(), ascii_of("Content-Length"@)) {
            Some(v) => r matches Some(rv) && rv@ == v,
            None => r is None,
        },
{
    proof {
        reveal_strlit("Content-Length");
    }
    let name = lit_bytes("Content-Length");
    let ghost deep = headers.deep_view();
    proof {
        assert(deep.skip(0) =~= deep);
    }
    let mut i: usize = 0;
    while i < headers.len()
        invariant
            0 <= i <= headers.len(),
            deep == headers.deep_view(),
            name@ == ascii_of("Content-Length"@),
            find_header(deep, name@) == find_header(deep.skip(i as int), name@),
        decreases headers.len() - i,
    {
        proof {
            assert(deep.skip(i as int)[0] == deep[i as int]);
            assert(deep[i as int] == headers@[i as int]@);
        }
        if eq_bytes(&headers[i].name, &name) {
            let v = copy_range(&headers[i].value, 0, headers[i].value.len());
            proof {
                assert(v@ =~= headers@[i as int].value@);
            }
            return Some(v);
        }
        proof {
            assert(deep.skip(i as int).drop_first() =~= deep.skip(i + 1));
        }
        i = i + 1;
    }
    proof {
        assert(deep.skip(headers@.len() as int) =~= Seq::<(Seq<u8>, Seq<u8>)>::empty());
    }
    None
}

/// An ASCII decimal digit.
pub open spec fn is_digit(b: u8) -> bool {
    0x30 <= b <= 0x39
}

pub open spec fn all_digits(s: Seq<u8>) -> bool {
    forall|k: int| 0 <= k < s.len() ==> is_digit(s[k])
}

/// The number the decimal digits of `s` spell.
pub open spec fn dec_val(s: Seq<u8>) -> int
    decreases s.len(),
{
    if s.len() == 0 {
        0
    } else {
        dec_val(s.drop_last()) * 10 + (s.last() - 0x30)
    }
}

/// A Content-Length value this server accepts: at least one digit,
/// digits only, and small enough to count bytes in memory.
pub open spec fn valid_content_length(s: Seq<u8>) -> bool {
    s.len() > 0 && all_digits(s) && dec_val(s) <= usize::MAX
}

proof fn lemma_dec_val_nonneg(s: Seq<u8>)
    requires
        all_digits(s),
    ensures
        dec_val(s) >= 0,
    decreases s.len(),
{
    if s.len() > 0 {
        assert(all_digits(s.drop_last())) by {
            assert(forall|k: int| 0 <= k < s.len() - 1 ==> s.drop_last()[k] == s[k]);
        }
        lemma_dec_val_nonneg(s.drop_last());
    }
}

/// Reading more digits never shrinks the value.
proof fn lemma_dec_val_prefix_le(s: Seq<u8>, j: int)
    requires
        all_digits(s),
        0 <= j <= s.len(),
    ensures
        dec_val(s.take(j)) <= dec_val(s),
    decreases s.len(),
{
    if j == s.len() {
        assert(s.take(j) =~= s);
    } else {
        assert(all_digits(s.drop_last())) by {
            assert(forall|k: int| 0 <= k < s.len() - 1 ==> s.drop_last()[k] == s[k]);
        }
        assert(s.drop_last().take(j) =~= s.take(j));
        lemma_dec_val_prefix_le(s.drop_last(), j);
        lemma_dec_val_nonneg(s.drop_last());
        assert(dec_val(s) == dec_val(s.drop_last()) * 10 + (s.last() - 0x30));
        assert(dec_val(s.drop_last()) * 10 >= dec_val(s.drop_last()));
    }
}

/// Accepts exactly the valid Content-Length values and returns the
/// declared byte count; anything else is a malformed length.
pub fn parse_content_length(v: &Vec<u8>) -> (r: Result<usize, HttpError>)
    ensures
        r is Ok <==> valid_content_length(v@),
        r matches Ok(n) ==> n == dec_val(v@),
        r matches Err(e) ==> e == HttpError::MalformedContentLength,
{
    if v.len() == 0 {
        return Err(HttpError::MalformedContentLength);
    }
    let mut n: usize = 0;
    let mut i: usize = 0;
    while i < v.len()
        invariant
            0 <= i <= v@.len(),
            v@.len() > 0,
            all_digits(v@.take(i as int)),
            n == dec_val(v@.take(i as int)),
        decreases v.len() - i,
    {
        let b = v[i];
        if b < 0x30 || b > 0x39 {
            return Err(HttpError::MalformedContentLength);
        }
        let d = (b - 0x30) as usize;
        proof {
            assert(v@.take(i + 1).drop_last() =~= v@.take(i as int));
            assert(v@.take(i + 1).last() == v@[i as int]);
            assert(all_digits(v@.take(i + 1)));
        }
        let m = match n.checked_mul(10) {
            Some(m) => m,
            None => {
                proof {
                    lemma_overflow_means_invalid(v@, i as int);
                }
                return Err(HttpError::MalformedContentLength);
            },
        };
        n = match m.checked_add(d) {
            Some(nn) => nn,
            None => {
                proof {
                    lemma_overflow_means_invalid(v@, i as int);
                }
                return Err(HttpError::MalformedContentLength);
            },
        };
        i = i + 1;
    }
    proof {
        assert(v@.take(v@.len() as int) =~= v@);
    }
    Ok(n)
}

/// If one more digit no longer fits in `usize`, the whole value cannot
/// be a valid length either.
proof fn lemma_overflow_means_invalid(s: Seq<u8>, i: int)
    requires
        0 <= i < s.len(),
        is_digit(s[i]),
        all_digits(s.take(i)),
        dec_val(s.take(i)) * 10 + (s[i] - 0x30) > usize::MAX,
    ensures
        !valid_content_length(s),
{
    if all_digits(s) {
        assert(s.take(i + 1).drop_last() =~= s.take(i));
        assert(s.take(i + 1).last() == s[i]);
        assert(dec_val(s.take(i + 1)) == dec_val(s.take(i)) * 10 + (s[i] - 0x30));
        lemma_dec_val_prefix_le(s, i + 1);
    }
}

} // verus!
