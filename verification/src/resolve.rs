use vstd::prelude::*;

use crate::error::HttpError;
use crate::text::{
    ascii_of, copy_range, find_byte, lemma_find_byte_at, lemma_find_byte_props, lit_bytes,
    scan_byte, scan_byte_from,
};

verus! {

/// The byte that separates the path from the query in a target.
pub const QMARK: u8 = 0x3f;

/// The byte that separates query segments.
pub const AMP: u8 = 0x26;

/// The byte that separates a query key from its value.
pub const EQUALS: u8 = 0x3d;

/// The path separator and root byte.
pub const SLASH: u8 = 0x2f;

/// One `key=value` pair from the query part of a target.
#[derive(Debug)]
pub struct QueryParam {
    pub key: Vec<u8>,
    pub value: Vec<u8>,
}

impl View for QueryParam {
    type V = (Seq<u8>, Seq<u8>);

    open spec fn view(&self) -> (Seq<u8>, Seq<u8>) {
        (self.key@, self.value@)
    }
}

impl DeepView for QueryParam {
    type V = (Seq<u8>, Seq<u8>);

    open spec fn deep_view(&self) -> (Seq<u8>, Seq<u8>) {
        self@
    }
}

/// A request target resolved to a relative file path and query pairs.
#[derive(Debug)]
pub struct Resolved {
    pub file_path: Vec<u8>,
    pub query: Vec<QueryParam>,
}

/// The mathematical shape of a resolved target.
pub struct ResolvedModel {
    pub file_path: Seq<u8>,
    pub query: Seq<(Seq<u8>, Seq<u8>)>,
}

impl View for Resolved {
    type V = ResolvedModel;

    open spec fn view(&self) -> ResolvedModel {
        ResolvedModel { file_path: self.file_path@, query: self.query.deep_view() }
    }
}

/// What one `&`-delimited query segment means: it must hold exactly one
/// `=`, which splits it into key and value.
pub open spec fn pair_of(p: Seq<u8>) -> Option<(Seq<u8>, Seq<u8>)> {
    match find_byte(p, EQUALS) {
        Some(j) => if find_byte(p.skip(j + 1), EQUALS) is None {
            Some((p.take(j), p.skip(j + 1)))
        } else {
            None
        },
        None => None,
    }
}

/// What a whole query string means: every `&`-delimited segment must be
/// a valid pair, in order; one bad segment spoils the whole query.
pub open spec fn query_of(q: Seq<u8>) -> Option<Seq<(Seq<u8>, Seq<u8>)>>
    decreases q.len(),
    via query_of_decreases
{
    match find_byte(q, AMP) {
        None => match pair_of(q) {
            Some(p) => Some(seq![p]),
            None => None,
        },
        Some(k) => match pair_of(q.take(k)) {
            Some(p) => match query_of(q.skip(k + 1)) {
                Some(rest) => Some(seq![p] + rest),
                None => None,
            },
            None => None,
        },
    }
}

#[via_fn]
proof fn query_of_decreases(q: Seq<u8>) {
    lemma_find_byte_props(q, AMP);
}

/// The file path a pre-query path names: the index file for the bare
/// root, otherwise the path with a single leading slash removed.
pub open spec fn file_path_of(pre: Seq<u8>) -> Seq<u8> {
    if pre == seq![SLASH] {
        ascii_of("index.html"@)
    } else if pre.len() > 0 && pre[0] == SLASH {
        pre.drop_first()
    } else {
        pre
    }
}

/// What resolving a whole target means. A target with no `?` has no
/// query; one `?` splits path from query; more than one `?` is invalid.
pub open spec fn resolve_of(t: Seq<u8>) -> Result<ResolvedModel, HttpError> {
    match find_byte(t, QMARK) {
        None => Ok(ResolvedModel { file_path: file_path_of(t), query: Seq::empty() }),
        Some(k) => if find_byte(t.skip(k + 1), QMARK) is Some {
            Err(HttpError::InvalidQueryTarget)
        } else {
            match query_of(t.skip(k + 1)) {
                Some(ps) => Ok(ResolvedModel { file_path: file_path_of(t.take(k)), query: ps }),
                None => Err(HttpError::InvalidQueryString),
            }
        },
    }
}

/// Maps a pre-query path to the file path it names.
fn map_path(pre: Vec<u8>) -> (r: Vec<u8>)
    ensures
        r@ == file_path_of(pre@),
{
    if pre.len() == 1 && pre[0] == SLASH {
        proof {
            reveal_strlit("index.html");
            assert(pre@ =~= seq![SLASH]);
        }
        lit_bytes("index.html")
    } else if pre.len() > 0 && pre[0] == SLASH {
        proof {
            assert(pre@ != seq![SLASH]);
            assert(pre@.subrange(1, pre@.len() as int) =~= pre@.drop_first());
        }
        let end = pre.len();
        copy_range(&pre, 1, end)
    } else {
        pre
    }
}

/// Parses one query segment; only a segment with exactly one `=` passes.
fn parse_pair(piece: &Vec<u8>) -> (r: Result<QueryParam, HttpError>)
    ensures
        match r {
            Ok(p) => pair_of(piece@) == Some(p@),
            Err(e) => pair_of(piece@) is None && e == HttpError::InvalidQueryString,
        },
{
    match scan_byte(piece, EQUALS) {
        Some(j) => {
            let end = piece.len();
            let value = copy_range(piece, j + 1, end);
            proof {
                assert(value@ =~= piece@.skip(j + 1));
            }
            match scan_byte(&value, EQUALS) {
                Some(_) => Err(HttpError::InvalidQueryString),
                None => {
                    let key = copy_range(piece, 0, j);
                    proof {
                        assert(key@ =~= piece@.take(j as int));
                    }
                    Ok(QueryParam { key, value })
                },
            }
        },
        None => Err(HttpError::InvalidQueryString),
    }
}

/// Parses a whole query string into its pairs, in order.
fn parse_query(q: &Vec<u8>) -> (r: Result<Vec<QueryParam>, HttpError>)
    ensures
        match r {
            Ok(ps) => query_of(q@) == Some(ps.deep_view()),
            Err(e) => query_of(q@) is None && e == HttpError::InvalidQueryString,
        },
{
    let mut acc: Vec<QueryParam> = Vec::new();
    let mut pos: usize = 0;
    proof {
        assert(q@.skip(0) =~= q@);
        assert(acc.deep_view() =~~= Seq::<(Seq<u8>, Seq<u8>)>::empty());
    }
    loop
        invariant
            pos <= q@.len(),
            match query_of(q@.skip(pos as int)) {
                Some(rest) => query_of(q@) == Some(acc.deep_view() + rest),
                None => query_of(q@) is None,
            },
        decreases q@.len() - pos,
    {
        let ghost rem = q@.skip(pos as int);
        match scan_byte_from(q, pos, AMP) {
            Some(a) => {
                proof {
                    assert(rem.take(a - pos) =~= q@.subrange(pos as int, a as int));
                    assert(rem.skip(a - pos + 1) =~= q@.skip(a + 1));
                }
                let piece = copy_range(q, pos, a);
                match parse_pair(&piece) {
                    Ok(p) => {
                        let ghost old_deep = acc.deep_view();
                        acc.push(p);
                        proof {
                            assert(acc.deep_view() =~~= old_deep + seq![p@]);
                            if query_of(q@.skip(a + 1)) is Some {
                                let rest2 = query_of(q@.skip(a + 1)).unwrap();
                                assert(old_deep + (seq![p@] + rest2) =~= (old_deep + seq![p@])
                                    + rest2);
                            }
                        }
                        pos = a + 1;
                    },
                    Err(e) => {
                        return Err(e);
                    },
                }
            },
            None => {
                proof {
                    assert(rem =~= q@.subrange(pos as int, q@.len() as int));
                }
                let end = q.len();
                let piece = copy_range(q, pos, end);
                match parse_pair(&piece) {
                    Ok(p) => {
                        let ghost old_deep = acc.deep_view();
                        acc.push(p);
                        proof {
                            assert(acc.deep_view() =~~= old_deep + seq![p@]);
                            assert(old_deep + seq![p@] == acc.deep_view());
                        }
                        return Ok(acc);
                    },
                    Err(e) => {
                        return Err(e);
                    },
                }
            },
        }
    }
}

/// Splits a request target into a file path and its query pairs, per
/// `resolve_of`: the errors are exactly a second `?` in the target and
/// a query segment without exactly one `=`.
pub fn resolve_target(target: &Vec<u8>) -> (r: Result<Resolved, HttpError>)
    ensures
        match r {
            Ok(res) => resolve_of(target@) == Ok::<ResolvedModel, HttpError>(res@),
            Err(e) => resolve_of(target@) == Err::<ResolvedModel, HttpError>(e),
        },
{
    match scan_byte(target, QMARK) {
        None => {
            let end = target.len();
            let pre = copy_range(target, 0, end);
            proof {
                assert(pre@ =~= target@);
            }
            let file_path = map_path(pre);
            let r = Resolved { file_path, query: Vec::new() };
            proof {
                assert(r@.query =~~= Seq::<(Seq<u8>, Seq<u8>)>::empty());
            }
            Ok(r)
        },
        Some(k) => {
            let end = target.len();
            let rest = copy_range(target, k + 1, end);
            proof {
                assert(rest@ =~= target@.skip(k + 1));
            }
            match scan_byte(&rest, QMARK) {
                Some(_) => Err(HttpError::InvalidQueryTarget),
                None => {
                    match parse_query(&rest) {
                        Ok(ps) => {
                            let pre = copy_range(target, 0, k);
                            proof {
                                assert(pre@ =~= target@.take(k as int));
                            }
                            let file_path = map_path(pre);
                            let r = Resolved { file_path, query: ps };
                            Ok(r)
                        },
                        Err(e) => Err(e),
                    }
                },
            }
        },
    }
}

/// The bare root always resolves to the index file with no query, and
/// whatever follows a `?` after the root never changes the file path:
/// such a target either keeps the index file or is refused outright.
pub proof fn lemma_root_resolution(q: Seq<u8>)
    ensures
        resolve_of(seq![SLASH]) == Ok::<ResolvedModel, HttpError>(
            ResolvedModel { file_path: ascii_of("index.html"@), query: Seq::empty() },
        ),
        match resolve_of(seq![SLASH, QMARK] + q) {
            Ok(r) => r.file_path == ascii_of("index.html"@),
            Err(e) => e == HttpError::InvalidQueryTarget || e == HttpError::InvalidQueryString,
        },
{
    let root = seq![SLASH];
    lemma_find_byte_at(root, QMARK, 1);
    assert(resolve_of(root) == Ok::<ResolvedModel, HttpError>(
        ResolvedModel { file_path: file_path_of(root), query: Seq::empty() },
    ));

    let t = seq![SLASH, QMARK] + q;
    assert(t[0] == SLASH && t[1] == QMARK);
    assert(find_byte(t, QMARK) == Some(1int)) by {
        lemma_find_byte_at(t, QMARK, 1);
    }
    assert(t.skip(2) =~= q);
    assert(t.take(1) =~= root);
}

/// The bare root and the explicit index file name resolve to the very
/// same resource.
pub proof fn lemma_root_equals_index_target()
    ensures
        resolve_of(ascii_of("/"@)) == resolve_of(ascii_of("/index.html"@)),
        resolve_of(ascii_of("/"@)) == Ok::<ResolvedModel, HttpError>(
            ResolvedModel { file_path: ascii_of("index.html"@), query: Seq::empty() },
        ),
{
    reveal_strlit("/");
    reveal_strlit("index.html");
    reveal_strlit("/index.html");
    let s1 = ascii_of("/"@);
    let s2 = ascii_of("/index.html"@);
    assert(s1 =~= seq![SLASH]);
    lemma_root_resolution(Seq::empty());

    assert(s2.len() == 11);
    assert(forall|k: int| 0 <= k < 11 ==> s2[k] != QMARK);
    lemma_find_byte_at(s2, QMARK, 11);
    assert(s2[0] == SLASH);
    assert(s2 != seq![SLASH]);
    assert(s2.drop_first() =~= ascii_of("index.html"@));
    assert(file_path_of(s2) == ascii_of("index.html"@));
}

} // verus!
