//! What the operations promise, said of their calls and in plain terms: of the
//! bytes, characters and numbers that go in and come out.
//!
//! `call_ensures(f, args, r)` says that a call of `f` on `args` may return `r`.

pub mod authority;
pub mod chunks;
pub mod exchange;
pub mod framing;
pub mod gost;
pub mod parsing;
pub mod requests;
pub mod routing;
pub mod targets;
pub mod words;
