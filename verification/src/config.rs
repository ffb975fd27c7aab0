//! Decoder limits.

use vstd::prelude::*;

verus! {

/// Default ceiling on a bulk string's declared length, in bytes.
pub const DEFAULT_MAX_BULK_LEN: usize = 536870912;

/// Default ceiling on an array's declared element count.
pub const DEFAULT_MAX_ARRAY_LEN: usize = 1048576;

/// Default ceiling on array nesting depth.
pub const DEFAULT_MAX_DEPTH: usize = 32;

/// Default ceiling on the length of one CRLF-terminated line, in bytes
/// (the tag byte included).
pub const DEFAULT_MAX_LINE_LEN: usize = 65536;

/// The resource limits a decode call runs under. All are finite; a frame
/// that oversteps one fails with an ordinary error before any allocation
/// proportional to the declared size.
#[derive(Clone, Copy, Debug, PartialEq, Eq, Structural)]
pub struct Config {
    /// Largest accepted declared length of a bulk string, in bytes.
    pub max_bulk_len: usize,
    /// Largest accepted declared element count of an array.
    pub max_array_len: usize,
    /// Largest accepted array nesting depth: a frame whose arrays nest
    /// deeper than this fails `MaxDepthExceeded`.
    pub max_depth: usize,
    /// Largest accepted length of one CRLF-terminated line.
    pub max_line_len: usize,
}

/// The limits `Config::default` hands out.
pub open spec fn spec_default_config() -> Config {
    Config {
        max_bulk_len: DEFAULT_MAX_BULK_LEN,
        max_array_len: DEFAULT_MAX_ARRAY_LEN,
        max_depth: DEFAULT_MAX_DEPTH,
        max_line_len: DEFAULT_MAX_LINE_LEN,
    }
}

impl Default for Config {
    /// The default limits: finite ceilings generous enough for ordinary
    /// traffic.
    fn default() -> (c: Config)
        ensures
            c == spec_default_config(),
    {
        Config {
            max_bulk_len: DEFAULT_MAX_BULK_LEN,
            max_array_len: DEFAULT_MAX_ARRAY_LEN,
            max_depth: DEFAULT_MAX_DEPTH,
            max_line_len: DEFAULT_MAX_LINE_LEN,
        }
    }
}

} // verus!
