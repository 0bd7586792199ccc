//! The wire protocol: primitive field codecs and the request and response
//! frame codecs built from them.
//!
//! Every frame on the wire is a 4-byte big-endian body length followed by
//! the body; the body is a one-byte type tag followed by the type's fields.
//! All multi-byte integers are big-endian.

pub mod codec;
pub mod request;
pub mod response;
