//! A small library that partitions text lines into three buckets (excluded,
//! matching, not matching) with caller-supplied regular-expression filters,
//! and that carries the content-negotiation logic of the HTTP service built
//! around it: choosing a request-decoding strategy from the declared content
//! type, and a response rendering from the caller's ranked accept list.

pub mod classify;
pub mod codec;
pub mod errors;
pub mod media;
pub mod negotiate;
pub mod pattern;
pub mod text;

pub use classify::{filter, FilterRequest, FilterResponse};
pub use errors::ContentTypeError;
pub use media::MediaKind;
pub use negotiate::Negotiated;
pub use pattern::RegexWrapper;
