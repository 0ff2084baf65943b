//! HTTP requests as raw bytes: building, parsing and serializing without any
//! normalization.

pub mod chunked;
pub mod parse;
pub mod request;

pub use parse::parse_request;
pub use request::{HeaderEntry, RawHeader, RawRequest};
