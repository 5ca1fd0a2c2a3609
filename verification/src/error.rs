use vstd::prelude::*;

verus! {

/// How handling a request can fail before a response is chosen.
/// Each failure answers the connection with one specific status code.
#[derive(Clone, Copy, Debug, PartialEq, Eq, Structural)]
pub enum HttpError {
    /// The request line does not hold exactly three tokens.
    MalformedRequestLine,
    /// A POST request carries no Content-Length header.
    MissingContentLength,
    /// The Content-Length value is not a plain decimal number.
    MalformedContentLength,
    /// The bytes on hand do not match the declared Content-Length.
    BodyLengthMismatch,
    /// A query segment does not split into exactly one key and one value.
    InvalidQueryString,
    /// The request target holds more than one `?`.
    InvalidQueryTarget,
    /// The resolved path names nothing.
    ResourceNotFound,
    /// The resolved path exists but is not a regular file.
    ResourceNotRegularFile,
    /// The resolved file is marked read-only.
    ResourceForbidden,
    /// A method the server knows of but does not implement.
    UnsupportedMethod,
    /// A method token the server does not know at all.
    UnrecognizedMethod,
}

impl HttpError {
    /// The status code that answers this failure on the wire.
    pub open spec fn status_spec(self) -> u16 {
        match self {
            HttpError::MalformedRequestLine => 400,
            HttpError::MissingContentLength => 411,
            HttpError::MalformedContentLength => 400,
            HttpError::BodyLengthMismatch => 400,
            HttpError::InvalidQueryString => 400,
            HttpError::InvalidQueryTarget => 400,
            HttpError::ResourceNotFound => 404,
            HttpError::ResourceNotRegularFile => 404,
            HttpError::ResourceForbidden => 403,
            HttpError::UnsupportedMethod => 501,
            HttpError::UnrecognizedMethod => 405,
        }
    }

    pub fn status(self) -> (r: u16)
        ensures
            r == self.status_spec(),
    {
        match self {
            HttpError::MalformedRequestLine => 400,
            HttpError::MissingContentLength => 411,
            HttpError::MalformedContentLength => 400,
            HttpError::BodyLengthMismatch => 400,
            HttpError::InvalidQueryString => 400,
            HttpError::InvalidQueryTarget => 400,
            HttpError::ResourceNotFound => 404,
            HttpError::ResourceNotRegularFile => 404,
            HttpError::ResourceForbidden => 403,
            HttpError::UnsupportedMethod => 501,
            HttpError::UnrecognizedMethod => 405,
        }
    }
}

} // verus!
