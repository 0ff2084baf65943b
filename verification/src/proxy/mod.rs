//! The proxy between a client and its targets: what it reads, decides and
//! answers.

pub mod ca;
pub mod dispatch;
pub mod exchange;
pub mod framing;
pub mod hook;
pub mod leaf_cache;
pub mod route_cache;
pub mod stored;
pub mod target;
pub mod tls;

pub use dispatch::GostFallback;
