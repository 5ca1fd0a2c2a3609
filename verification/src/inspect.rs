use vstd::prelude::*;

use crate::error::HttpError;
use crate::resolve::SLASH;
use crate::text::{ascii_of, copy_range, eq_str, lit_bytes, rfind_byte, scan_byte_rev};

verus! {

/// The byte that begins a file extension.
pub const DOT: u8 = 0x2e;

/// What the filesystem reports of a resolved path. The surrounding
/// program fills this in; the status policy on it is decided here.
#[derive(Clone, Copy, Debug, PartialEq, Eq, Structural)]
pub struct FileInfo {
    /// The path names something.
    pub exists: bool,
    /// What it names is a regular file.
    pub is_file: bool,
    /// The file is marked read-only.
    pub readonly: bool,
}

/// The status a resolved path earns: missing or non-regular paths are
/// not found, read-only files are forbidden, the rest are served.
pub open spec fn status_of(info: FileInfo) -> u16 {
    if !info.exists {
        404
    } else if !info.is_file {
        404
    } else if info.readonly {
        403
    } else {
        200
    }
}

pub fn file_status(info: FileInfo) -> (r: u16)
    ensures
        r == status_of(info),
{
    if !info.exists {
        404
    } else if !info.is_file {
        404
    } else if info.readonly {
        403
    } else {
        200
    }
}

/// The failure a resolved path earns, if any: the error whose status
/// is exactly the one `status_of` assigns, and none on success.
pub open spec fn file_error_of(info: FileInfo) -> Option<HttpError> {
    if !info.exists {
        Some(HttpError::ResourceNotFound)
    } else if !info.is_file {
        Some(HttpError::ResourceNotRegularFile)
    } else if info.readonly {
        Some(HttpError::ResourceForbidden)
    } else {
        None
    }
}

pub fn file_error(info: FileInfo) -> (r: Option<HttpError>)
    ensures
        r == file_error_of(info),
        r is None <==> status_of(info) == 200,
        r matches Some(e) ==> e.status_spec() == status_of(info),
{
    if !info.exists {
        Some(HttpError::ResourceNotFound)
    } else if !info.is_file {
        Some(HttpError::ResourceNotRegularFile)
    } else if info.readonly {
        Some(HttpError::ResourceForbidden)
    } else {
        None
    }
}

/// The extension of a file path: what follows the last dot of the last
/// path segment, unless that dot begins the segment.
pub open spec fn extension_of(path: Seq<u8>) -> Option<Seq<u8>> {
    let fname = match rfind_byte(path, SLASH) {
        Some(i) => path.skip(i + 1),
        None => path,
    };
    match rfind_byte(fname, DOT) {
        Some(j) => if j == 0 {
            None
        } else {
            Some(fname.skip(j + 1))
        },
        None => None,
    }
}

/// The Content-Type header line a path earns, by its extension; an
/// unknown or missing extension is served as an opaque byte stream.
pub open spec fn content_type_header_of(path: Seq<u8>) -> Seq<u8> {
    match extension_of(path) {
        Some(e) => if e == ascii_of("html"@) {
            ascii_of("Content-Type: text/html\r\n"@)
        } else if e == ascii_of("png"@) || e == ascii_of("ico"@) {
            ascii_of("Content-Type: image/png\r\n"@)
        } else if e == ascii_of("jpg"@) || e == ascii_of("jpeg"@) {
            ascii_of("Content-Type: image/jpeg\r\n"@)
        } else if e == ascii_of("txt"@) {
            ascii_of("Content-Type: text/plain\r\n"@)
        } else {
            ascii_of("Content-Type: application/octet-stream\r\n"@)
        },
        None => ascii_of("Content-Type: application/octet-stream\r\n"@),
    }
}

fn octet_stream_header() -> (r: Vec<u8>)
    ensures
        r@ == ascii_of("Content-Type: application/octet-stream\r\n"@),
{
    proof {
        reveal_strlit("Content-Type: application/octet-stream\r\n");
    }
    lit_bytes("Content-Type: application/octet-stream\r\n")
}

/// Builds the Content-Type header line for a resolved path.
pub fn content_type_header(path: &Vec<u8>) -> (r: Vec<u8>)
    ensures
        r@ == content_type_header_of(path@),
{
    let end = path.len();
    let fname = match scan_byte_rev(path, SLASH) {
        Some(i) => copy_range(path, i + 1, end),
        None => copy_range(path, 0, end),
    };
    proof {
        assert(fname@ =~= (match rfind_byte(path@, SLASH) {
            Some(i) => path@.skip(i + 1),
            None => path@,
        }));
    }
    match scan_byte_rev(&fname, DOT) {
        Some(j) => {
            if j == 0 {
                octet_stream_header()
            } else {
                let fend = fname.len();
                let ext = copy_range(&fname, j + 1, fend);
                proof {
                    assert(ext@ =~= fname@.skip(j + 1));
                    reveal_strlit("html");
                    reveal_strlit("png");
                    reveal_strlit("ico");
                    reveal_strlit("jpg");
                    reveal_strlit("jpeg");
                    reveal_strlit("txt");
                }
                if eq_str(&ext, "html") {
                    proof {
                        reveal_strlit("Content-Type: text/html\r\n");
                    }
                    lit_bytes("Content-Type: text/html\r\n")
                } else if eq_str(&ext, "png") || eq_str(&ext, "ico") {
                    proof {
                        reveal_strlit("Content-Type: image/png\r\n");
                    }
                    lit_bytes("Content-Type: image/png\r\n")
                } else if eq_str(&ext, "jpg") || eq_str(&ext, "jpeg") {
                    proof {
                        reveal_strlit("Content-Type: image/jpeg\r\n");
                    }
                    lit_bytes("Content-Type: image/jpeg\r\n")
                } else if eq_str(&ext, "txt") {
                    proof {
                        reveal_strlit("Content-Type: text/plain\r\n");
                    }
                    lit_bytes("Content-Type: text/plain\r\n")
                } else {
                    octet_stream_header()
                }
            }
        },
        None => octet_stream_header(),
    }
}

} // verus!
