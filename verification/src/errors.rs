//! The request-decoding error taxonomy and its mapping to HTTP status codes.

use vstd::prelude::*;

verus! {

/// HTTP status for a request whose declared content type is not recognized.
pub const STATUS_UNSUPPORTED_MEDIA_TYPE: u16 = 415;

/// HTTP status for a malformed body, query string or pattern source.
pub const STATUS_BAD_REQUEST: u16 = 400;

/// Why decoding a request failed.
///
/// `UnsupportedMediaType` is the fixed, causeless failure of the
/// content-type dispatch. `Other` wraps a failure of an underlying parser
/// (structured body, query string, or pattern compilation) and carries the
/// status code that parser's error selects.
#[derive(Debug, PartialEq, Eq, Structural, Clone, Copy)]
pub enum ContentTypeError {
    UnsupportedMediaType,
    Other { status: u16 },
}

/// The status an error selects, as a spec-level value.
pub open spec fn spec_status_code(e: ContentTypeError) -> u16 {
    match e {
        ContentTypeError::UnsupportedMediaType => STATUS_UNSUPPORTED_MEDIA_TYPE,
        ContentTypeError::Other { status } => status,
    }
}

impl ContentTypeError {
    /// An unsupported content type maps to 415; a wrapped parser failure
    /// keeps the status its cause selected.
    pub fn status_code(&self) -> (r: u16)
        ensures
            r == spec_status_code(*self),
    {
        match self {
            ContentTypeError::UnsupportedMediaType => STATUS_UNSUPPORTED_MEDIA_TYPE,
            ContentTypeError::Other { status } => *status,
        }
    }

    /// The error for pattern source text the regular-expression engine
    /// rejects: a decoding failure, reported as a bad request.
    pub fn invalid_pattern() -> (r: ContentTypeError)
        ensures
            r == (ContentTypeError::Other { status: STATUS_BAD_REQUEST }),
    {
        ContentTypeError::Other { status: STATUS_BAD_REQUEST }
    }
}

} // verus!
