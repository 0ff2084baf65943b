//! Core of an upstream HTTP proxy that reaches GOST-only TLS servers.
//!
//! The crate holds what such a proxy computes and decides: raw requests and
//! their byte-exact serialization, framing of what arrives on a stream, the
//! choice between plain TLS and the GOST fallback, the commands that start the
//! fallback, and the certificates that the proxy issues. Sockets, processes
//! and threads belong to the program around it.

pub mod ascii;
pub mod connectors;
pub mod laws;
pub mod numerals;
pub mod proxy;
pub mod raw_http;
pub mod scan;
pub mod text;
