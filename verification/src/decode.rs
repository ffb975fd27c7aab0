//! The frame decoder: one tag byte, then the matching parser, recursing
//! for arrays.

use vstd::prelude::*;

use crate::config::spec_default_config;
use crate::config::Config;
use crate::cursor::spec_read_exact;
use crate::cursor::spec_read_line;
use crate::cursor::Cursor;
use crate::error::DecodeError;
use crate::numeric::parse_i64;
use crate::numeric::spec_parse_i64;
use crate::value::vec_views;
use crate::value::view_of;
use crate::value::RespVal;
use crate::value::Type;

verus! {

/// The tag byte of a simple string: `+`.
pub const TAG_SIMPLE: u8 = 43;

/// The tag byte of an error reply: `-`.
pub const TAG_ERROR: u8 = 45;

/// The tag byte of an integer: `:`.
pub const TAG_INTEGER: u8 = 58;

/// The tag byte of a bulk string: `$`.
pub const TAG_BULK: u8 = 36;

/// The tag byte of an array: `*`.
pub const TAG_ARRAY: u8 = 42;

/// What decoding a bulk-string frame yields once its tag line is consumed:
/// `payload` is the tag line after the tag byte, `rest` the bytes after the
/// tag line.
pub open spec fn spec_bulk_tail(payload: Seq<u8>, rest: Seq<u8>, cfg: Config) -> Result<
    (RespVal, Seq<u8>),
    DecodeError,
> {
    match spec_parse_i64(payload) {
        Err(e) => Err(e),
        Ok(n) => if n == -1 {
            Ok((RespVal::BulkString(None), rest))
        } else if n < -1 {
            Err(DecodeError::MalformedFrame)
        } else if n as int > cfg.max_bulk_len as int {
            Err(DecodeError::FrameTooLarge)
        } else {
            match spec_read_exact(rest, n as int) {
                Err(e) => Err(e),
                Ok((bytes, rest2)) => Ok((RespVal::BulkString(Some(bytes)), rest2)),
            }
        },
    }
}

/// What decoding one frame from `input` yields: the frame's value and the
/// bytes after the frame. `depth` counts the arrays the frame is nested in.
pub open spec fn spec_decode(input: Seq<u8>, depth: int, cfg: Config) -> Result<
    (RespVal, Seq<u8>),
    DecodeError,
>
    decreases input.len(), 0int, 0int,
{
    match spec_read_line(input, cfg.max_line_len as int) {
        Err(e) => Err(e),
        Ok((line, rest)) => if line.len() == 0 {
            Err(DecodeError::MalformedFrame)
        } else {
            let tag = line[0];
            let payload = line.skip(1);
            if tag == TAG_SIMPLE {
                Ok((RespVal::SimpleString(payload), rest))
            } else if tag == TAG_ERROR {
                Ok((RespVal::Error(payload), rest))
            } else if tag == TAG_INTEGER {
                match spec_parse_i64(payload) {
                    Err(e) => Err(e),
                    Ok(n) => Ok((RespVal::Integer(n), rest)),
                }
            } else if tag == TAG_BULK {
                spec_bulk_tail(payload, rest, cfg)
            } else if tag == TAG_ARRAY {
                spec_array_tail(payload, rest, depth, cfg)
            } else {
                Err(DecodeError::MalformedFrame)
            }
        },
    }
}

/// What decoding an array frame yields once its tag line is consumed:
/// `payload` is the tag line after the tag byte, `rest` the bytes after the
/// tag line, `depth` the nesting depth of the array frame itself.
pub open spec fn spec_array_tail(
    payload: Seq<u8>,
    rest: Seq<u8>,
    depth: int,
    cfg: Config,
) -> Result<(RespVal, Seq<u8>), DecodeError>
    decreases rest.len(), 2int, 0int,
{
    match spec_parse_i64(payload) {
        Err(e) => Err(e),
        Ok(n) => if n == -1 {
            Ok((RespVal::Array(None), rest))
        } else if n < -1 {
            Err(DecodeError::MalformedFrame)
        } else if n as int > cfg.max_array_len as int {
            Err(DecodeError::FrameTooLarge)
        } else if depth >= cfg.max_depth as int {
            Err(DecodeError::MaxDepthExceeded)
        } else {
            match spec_decode_elems(rest, n as int, depth + 1, cfg) {
                Err(e) => Err(e),
                Ok((vals, rest2)) => Ok((RespVal::Array(Some(vals)), rest2)),
            }
        },
    }
}

/// What decoding `n` successive frames from `input` yields: their values in
/// order, and the bytes after the last frame.
pub open spec fn spec_decode_elems(input: Seq<u8>, n: int, depth: int, cfg: Config) -> Result<
    (Seq<RespVal>, Seq<u8>),
    DecodeError,
>
    decreases input.len(), 1int, n,
{
    if n <= 0 {
        Ok((Seq::empty(), input))
    } else {
        match spec_decode(input, depth, cfg) {
            Err(e) => Err(e),
            Ok((v, rest)) => if rest.len() < input.len() {
                match spec_decode_elems(rest, n - 1, depth, cfg) {
                    Err(e) => Err(e),
                    Ok((vs, rest2)) => Ok((seq![v] + vs, rest2)),
                }
            } else {
                // A frame always spans at least its tag line; see
                // `lemma_decode_consumes`.
                Err(DecodeError::IncompleteFrame)
            },
        }
    }
}

/// Decoding a sequence of frames never un-reads bytes.
pub proof fn lemma_elems_consume(input: Seq<u8>, n: int, depth: int, cfg: Config)
    ensures
        spec_decode_elems(input, n, depth, cfg) matches Ok((vs, rest)) ==> rest.len()
            <= input.len(),
    decreases input.len(), 1int, n,
{
    if n > 0 {
        if let Ok((v, rest)) = spec_decode(input, depth, cfg) {
            if rest.len() < input.len() {
                lemma_elems_consume(rest, n - 1, depth, cfg);
            }
        }
    }
}

/// A decoded frame spans at least one byte: its tag line at the least.
pub proof fn lemma_decode_consumes(input: Seq<u8>, depth: int, cfg: Config)
    ensures
        spec_decode(input, depth, cfg) matches Ok((v, rest)) ==> rest.len() < input.len(),
{
    if let Ok((line, rest)) = spec_read_line(input, cfg.max_line_len as int) {
        if line.len() > 0 && line[0] == TAG_ARRAY {
            lemma_elems_consume_tail(line.skip(1), rest, depth, cfg);
        }
    }
}

/// Helper for `lemma_decode_consumes`: the array case.
proof fn lemma_elems_consume_tail(payload: Seq<u8>, rest: Seq<u8>, depth: int, cfg: Config)
    ensures
        spec_array_tail(payload, rest, depth, cfg) matches Ok((v, rest2)) ==> rest2.len()
            <= rest.len(),
{
    if let Ok(n) = spec_parse_i64(payload) {
        if n >= 0 {
            lemma_elems_consume(rest, n as int, depth + 1, cfg);
        }
    }
}

/// Prefixing already-decoded values onto the outcome of decoding the
/// remaining frames.
pub open spec fn prepend_elems(
    prefix: Seq<RespVal>,
    r: Result<(Seq<RespVal>, Seq<u8>), DecodeError>,
) -> Result<(Seq<RespVal>, Seq<u8>), DecodeError> {
    match r {
        Err(e) => Err(e),
        Ok((vs, rest)) => Ok((prefix + vs, rest)),
    }
}

/// Copies `line[from ..]` into a fresh vector.
fn vec_tail(line: &Vec<u8>, from: usize) -> (out: Vec<u8>)
    requires
        from <= line@.len(),
    ensures
        out@ == line@.skip(from as int),
{
    let mut out: Vec<u8> = Vec::new();
    let mut i = from;
    while i < line.len()
        invariant
            from <= i <= line@.len(),
            out@ == line@.subrange(from as int, i as int),
        decreases line@.len() - i,
    {
        out.push(line[i]);
        i = i + 1;
        proof {
            assert(out@ =~= line@.subrange(from as int, i as int));
        }
    }
    proof {
        assert(out@ =~= line@.skip(from as int));
    }
    out
}

/// Decodes one frame from the cursor. `depth` counts the arrays the frame
/// is nested in; the single public entry point starts it at zero.
pub fn decode_value(c: &mut Cursor, cfg: &Config, depth: usize) -> (r: Result<Type, DecodeError>)
    requires
        old(c).wf(),
        depth <= cfg.max_depth,
    ensures
        final(c).wf(),
        final(c).all_bytes() == old(c).all_bytes(),
        final(c).remaining().len() <= old(c).remaining().len(),
        match spec_decode(old(c).remaining(), depth as int, *cfg) {
            Ok((v, rest)) => r matches Ok(t) && view_of(t) == v && final(c).remaining() == rest,
            Err(e) => r == Err::<Type, DecodeError>(e),
        },
    decreases old(c).remaining().len(), 0int,
{
    let line = match c.read_line(cfg.max_line_len) {
        Err(e) => {
            return Err(e);
        },
        Ok(l) => l,
    };
    if line.len() == 0 {
        return Err(DecodeError::MalformedFrame);
    }
    let tag = line[0];
    if tag == TAG_SIMPLE {
        Ok(Decode::parse_status(&line, 1))
    } else if tag == TAG_ERROR {
        Ok(Decode::parse_error(&line, 1))
    } else if tag == TAG_INTEGER {
        Decode::parse_integer(&line, 1)
    } else if tag == TAG_BULK {
        decode_bulk(c, cfg, &line)
    } else if tag == TAG_ARRAY {
        decode_array(c, cfg, depth, &line)
    } else {
        Err(DecodeError::MalformedFrame)
    }
}

/// Decodes the remainder of a bulk-string frame whose tag line is `line`,
/// exactly as `spec_bulk_tail` describes. The declared length is validated
/// before any payload byte is read or any buffer of that size exists.
pub fn decode_bulk(c: &mut Cursor, cfg: &Config, line: &Vec<u8>) -> (r: Result<Type, DecodeError>)
    requires
        old(c).wf(),
        line@.len() >= 1,
    ensures
        final(c).wf(),
        final(c).all_bytes() == old(c).all_bytes(),
        final(c).remaining().len() <= old(c).remaining().len(),
        match spec_bulk_tail(line@.skip(1), old(c).remaining(), *cfg) {
            Ok((v, rest)) => r matches Ok(t) && view_of(t) == v && final(c).remaining() == rest,
            Err(e) => r == Err::<Type, DecodeError>(e),
        },
{
    let n = match parse_i64(line, 1) {
        Err(e) => {
            return Err(e);
        },
        Ok(n) => n,
    };
    if n == -1 {
        return Ok(Type::BulkString(None));
    }
    if n < 0 {
        return Err(DecodeError::MalformedFrame);
    }
    if (n as u64) > (cfg.max_bulk_len as u64) {
        return Err(DecodeError::FrameTooLarge);
    }
    match c.read_exact(n as usize) {
        Err(e) => Err(e),
        Ok(bytes) => Ok(Type::BulkString(Some(bytes))),
    }
}

/// Decodes the remainder of an array frame whose tag line is `line`,
/// exactly as `spec_array_tail` describes: the declared count of elements,
/// each by a recursive descent one level deeper.
#[verifier::loop_isolation(false)]
pub fn decode_array(c: &mut Cursor, cfg: &Config, depth: usize, line: &Vec<u8>) -> (r: Result<
    Type,
    DecodeError,
>)
    requires
        old(c).wf(),
        depth <= cfg.max_depth,
        line@.len() >= 1,
    ensures
        final(c).wf(),
        final(c).all_bytes() == old(c).all_bytes(),
        final(c).remaining().len() <= old(c).remaining().len(),
        match spec_array_tail(line@.skip(1), old(c).remaining(), depth as int, *cfg) {
            Ok((v, rest)) => r matches Ok(t) && view_of(t) == v && final(c).remaining() == rest,
            Err(e) => r == Err::<Type, DecodeError>(e),
        },
    decreases old(c).remaining().len(), 1int,
{
    let n = match parse_i64(line, 1) {
        Err(e) => {
            return Err(e);
        },
        Ok(n) => n,
    };
    if n == -1 {
        return Ok(Type::Array(None));
    }
    if n < 0 {
        return Err(DecodeError::MalformedFrame);
    }
    if (n as u64) > (cfg.max_array_len as u64) {
        return Err(DecodeError::FrameTooLarge);
    }
    if depth >= cfg.max_depth {
        return Err(DecodeError::MaxDepthExceeded);
    }
    let cnt = n as usize;
    let ghost rem0 = c.remaining();
    let ghost dd = depth as int + 1;
    let mut elems: Vec<Type> = Vec::new();
    let mut k: usize = 0;
    proof {
        crate::value::lemma_vec_views(elems);
        assert(vec_views(elems) + Seq::<RespVal>::empty() =~= vec_views(elems));
    }
    while k < cnt
        invariant
            c.wf(),
            k <= cnt,
            depth < cfg.max_depth,
            dd == depth as int + 1,
            c.all_bytes() == old(c).all_bytes(),
            c.remaining().len() <= rem0.len(),
            rem0 == old(c).remaining(),
            spec_decode_elems(rem0, cnt as int, dd, *cfg) == prepend_elems(
                vec_views(elems),
                spec_decode_elems(c.remaining(), cnt - k, dd, *cfg),
            ),
        decreases cnt - k,
    {
        let ghost before = c.remaining();
        let elem = match decode_value(c, cfg, depth + 1) {
            Err(e) => {
                proof {
                    assert(spec_decode_elems(before, cnt - k, dd, *cfg) == Err::<
                        (Seq<RespVal>, Seq<u8>),
                        DecodeError,
                    >(e));
                }
                return Err(e);
            },
            Ok(t) => t,
        };
        proof {
            let (v, rest) = spec_decode(before, dd, *cfg)->Ok_0;
            lemma_decode_consumes(before, dd, *cfg);
            assert(spec_decode_elems(before, cnt - k, dd, *cfg) == prepend_elems(
                seq![v],
                spec_decode_elems(rest, cnt - k - 1, dd, *cfg),
            ));
            crate::value::lemma_vec_views(elems);
        }
        let ghost old_elems = elems;
        elems.push(elem);
        proof {
            crate::value::lemma_vec_views(elems);
            assert(vec_views(elems) =~= vec_views(old_elems).push(view_of(elem)));
            let inner = spec_decode_elems(c.remaining(), cnt - k - 1, dd, *cfg);
            match inner {
                Err(e) => {},
                Ok((vs, r2)) => {
                    assert(vec_views(old_elems) + (seq![view_of(elem)] + vs) =~= vec_views(elems)
                        + vs);
                },
            }
        }
        k = k + 1;
    }
    proof {
        let tail = spec_decode_elems(c.remaining(), 0, dd, *cfg);
        assert(tail == Ok::<(Seq<RespVal>, Seq<u8>), DecodeError>((
            Seq::<RespVal>::empty(),
            c.remaining(),
        )));
        assert(vec_views(elems) + Seq::<RespVal>::empty() =~= vec_views(elems));
    }
    Ok(Type::Array(Some(elems)))
}

/// Decodes frames one at a time from an in-memory byte source.
pub struct Decode {
    /// The byte source and the read position in it.
    pub cursor: Cursor,
    /// The limits every decode call runs under.
    pub config: Config,
    /// The value the last `parse` call decoded, if any.
    pub result: Option<Type>,
}

impl Decode {
    /// A cursor position that has not passed the end of the source.
    pub open spec fn wf(self) -> bool {
        self.cursor.wf()
    }

    /// A decoder over `input` under the default limits.
    pub fn new(input: Vec<u8>) -> (d: Decode)
        ensures
            d.wf(),
            d.cursor.remaining() == input@,
            d.cursor.all_bytes() == input@,
            d.config == spec_default_config(),
            d.result is None,
    {
        Decode { cursor: Cursor::new(input), config: Config::default(), result: None }
    }

    /// A decoder over `input` under the limits of `config`.
    pub fn with_config(input: Vec<u8>, config: Config) -> (d: Decode)
        ensures
            d.wf(),
            d.cursor.remaining() == input@,
            d.cursor.all_bytes() == input@,
            d.config == config,
            d.result is None,
    {
        Decode { cursor: Cursor::new(input), config, result: None }
    }

    /// Turns the payload of a `+` line into a simple-string value.
    pub fn parse_status(line: &Vec<u8>, from: usize) -> (t: Type)
        requires
            from <= line@.len(),
        ensures
            view_of(t) == RespVal::SimpleString(line@.skip(from as int)),
    {
        Type::SimpleString(vec_tail(line, from))
    }

    /// Turns the payload of a `-` line into an error-reply value.
    pub fn parse_error(line: &Vec<u8>, from: usize) -> (t: Type)
        requires
            from <= line@.len(),
        ensures
            view_of(t) == RespVal::Error(line@.skip(from as int)),
    {
        Type::Error(vec_tail(line, from))
    }

    /// Turns the payload of a `:` line into an integer value, exactly as
    /// `spec_parse_i64` describes.
    pub fn parse_integer(line: &Vec<u8>, from: usize) -> (r: Result<Type, DecodeError>)
        requires
            from <= line@.len(),
        ensures
            match spec_parse_i64(line@.skip(from as int)) {
                Ok(n) => r matches Ok(t) && view_of(t) == RespVal::Integer(n),
                Err(e) => r == Err::<Type, DecodeError>(e),
            },
    {
        match parse_i64(line, from) {
            Ok(n) => Ok(Type::Integer(n)),
            Err(e) => Err(e),
        }
    }

    /// What `decode_one` promises of the decoder before (`pre`) and after
    /// (`post`) the call, and of its outcome `r`: a cleanly exhausted
    /// source yields `Ok(None)` and consumes nothing; otherwise the
    /// outcome and the new position are exactly what `spec_decode` says of
    /// the unconsumed bytes.
    pub open spec fn decode_one_post(
        pre: Decode,
        post: Decode,
        r: Result<Option<Type>, DecodeError>,
    ) -> bool {
        if pre.cursor.remaining().len() == 0 {
            r == Ok::<Option<Type>, DecodeError>(None) && post == pre
        } else {
            match spec_decode(pre.cursor.remaining(), 0, pre.config) {
                Ok((v, rest)) => match r {
                    Ok(Some(t)) => view_of(t) == v && post.cursor.remaining() == rest,
                    _ => false,
                },
                Err(e) => r == Err::<Option<Type>, DecodeError>(e),
            }
        }
    }

    /// Decodes one frame, leaving the cursor exactly after its bytes.
    /// A source with no bytes left is the clean no-more-frames condition:
    /// `Ok(None)`, with nothing consumed.
    pub fn decode_one(&mut self) -> (r: Result<Option<Type>, DecodeError>)
        requires
            old(self).wf(),
        ensures
            final(self).wf(),
            final(self).config == old(self).config,
            final(self).result == old(self).result,
            final(self).cursor.all_bytes() == old(self).cursor.all_bytes(),
            Self::decode_one_post(*old(self), *final(self), r),
    {
        if self.cursor.remaining_len() == 0 {
            return Ok(None);
        }
        match decode_value(&mut self.cursor, &self.config, 0) {
            Ok(t) => Ok(Some(t)),
            Err(e) => Err(e),
        }
    }

    /// What `parse` promises of the decoder before (`pre`) and after
    /// (`post`) the call, and of its outcome `r`: a cleanly exhausted
    /// source stores no result and succeeds; a decoded frame is stored as
    /// the result with the cursor exactly after its bytes; a failure
    /// stores no result and returns the error `spec_decode` names.
    pub open spec fn parse_post(pre: Decode, post: Decode, r: Result<(), DecodeError>) -> bool {
        if pre.cursor.remaining().len() == 0 {
            r == Ok::<(), DecodeError>(()) && post.result is None && post.cursor == pre.cursor
        } else {
            match spec_decode(pre.cursor.remaining(), 0, pre.config) {
                Ok((v, rest)) => r == Ok::<(), DecodeError>(()) && match post.result {
                    Some(t) => view_of(t) == v && post.cursor.remaining() == rest,
                    None => false,
                },
                Err(e) => r == Err::<(), DecodeError>(e) && post.result is None,
            }
        }
    }

    /// Decodes one frame and stores it as the current result; stores `None`
    /// when the source is cleanly exhausted or the decode failed.
    pub fn parse(&mut self) -> (r: Result<(), DecodeError>)
        requires
            old(self).wf(),
        ensures
            final(self).wf(),
            final(self).config == old(self).config,
            final(self).cursor.all_bytes() == old(self).cursor.all_bytes(),
            Self::parse_post(*old(self), *final(self), r),
    {
        match self.decode_one() {
            Ok(t) => {
                self.result = t;
                Ok(())
            },
            Err(e) => {
                self.result = None;
                Err(e)
            },
        }
    }

    /// The value the last `parse` call decoded, if any.
    pub fn get_result(&self) -> (r: &Option<Type>)
        ensures
            *r == self.result,
    {
        &self.result
    }
}

} // verus!
