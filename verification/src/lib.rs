//! A small DNS server library: the wire-format codec of DNS messages over a
//! fixed 512-byte buffer, the request-to-response transforms, and the
//! decisions of the resolver dispatch. Sockets and the async runtime live in
//! the program built around this library.

pub mod address;
pub mod builder;
pub mod errors;
pub mod network;
pub mod parsing;
pub mod protocol;
pub mod resolver;
pub mod text;
