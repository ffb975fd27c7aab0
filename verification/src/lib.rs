//! Decoder for a line-oriented request/response wire protocol (RESP).
//!
//! A `Decode` value owns an in-memory byte source and decodes one frame at a
//! time into a `Type` value, enforcing configurable limits on bulk-string
//! length, array length, line length and array nesting depth.

pub mod config;
pub mod cursor;
pub mod decode;
pub mod error;
pub mod laws;
pub mod numeric;
pub mod value;

pub use config::Config;
pub use decode::Decode;
pub use error::DecodeError;
pub use value::Type;
