//! Decoder-wide laws: facts that relate whole frames to their decoded
//! values, proved once and for all inputs.

use vstd::prelude::*;

use crate::config::Config;
use crate::cursor::find_crlf;
use crate::cursor::is_crlf_at;
use crate::cursor::lemma_find_crlf;
use crate::cursor::lemma_find_crlf_at;
use crate::cursor::spec_read_exact;
use crate::cursor::spec_read_line;
use crate::cursor::CR;
use crate::cursor::LF;
use crate::decode::spec_bulk_tail;
use crate::decode::spec_decode;
use crate::decode::spec_decode_elems;
use crate::decode::TAG_ARRAY;
use crate::decode::TAG_BULK;
use crate::decode::TAG_ERROR;
use crate::decode::TAG_INTEGER;
use crate::decode::TAG_SIMPLE;
use crate::error::DecodeError;
use crate::numeric::all_digits;
use crate::numeric::digits_val;
use crate::numeric::int_syntax;
use crate::numeric::int_val;
use crate::numeric::spec_parse_i64;
use crate::numeric::MINUS;
use crate::value::RespVal;

verus! {

/// The decimal digits of `m`, most significant first, without leading
/// zeros (`0` itself excepted).
pub open spec fn dec_digits(m: int) -> Seq<u8>
    decreases m,
{
    if m <= 0 {
        seq![48u8]
    } else if m < 10 {
        seq![(48 + m) as u8]
    } else {
        dec_digits(m / 10).push((48 + m % 10) as u8)
    }
}

/// The decimal notation of `m`: a minus sign for negative values, then
/// the digits of its magnitude.
pub open spec fn dec_repr(m: int) -> Seq<u8> {
    if m < 0 {
        seq![MINUS] + dec_digits(-m)
    } else {
        dec_digits(m)
    }
}

/// The wire bytes of an integer frame carrying `m`: tag, decimal
/// notation, CRLF.
pub open spec fn integer_frame(m: int) -> Seq<u8> {
    seq![TAG_INTEGER] + dec_repr(m) + seq![CR, LF]
}

/// `dec_digits` writes only digits, and `digits_val` reads their value
/// back.
pub proof fn lemma_dec_digits(m: int)
    requires
        m >= 0,
    ensures
        dec_digits(m).len() >= 1,
        all_digits(dec_digits(m)),
        digits_val(dec_digits(m)) == m,
    decreases m,
{
    if m < 10 {
        let s = dec_digits(m);
        assert(s.drop_last() =~= Seq::<u8>::empty());
        assert(digits_val(Seq::<u8>::empty()) == 0);
        assert(digits_val(s) == m);
    } else {
        lemma_dec_digits(m / 10);
        vstd::arithmetic::div_mod::lemma_fundamental_div_mod(m, 10);
        vstd::arithmetic::div_mod::lemma_mod_bound(m, 10);
        let p = dec_digits(m / 10);
        let s = dec_digits(m);
        assert(s == p.push((48 + m % 10) as u8));
        assert(s.drop_last() =~= p);
        assert(digits_val(s) == digits_val(p) * 10 + ((48 + m % 10) as u8 - 48));
        assert forall|i: int| 0 <= i < s.len() implies crate::numeric::is_digit(s[i]) by {
            if i < p.len() {
                assert(s[i] == p[i]);
            } else {
                assert(s[i] == (48 + m % 10) as u8);
            }
        }
    }
}

/// `dec_repr` writes exactly the accepted integer syntax, and `int_val`
/// reads the value back.
pub proof fn lemma_dec_repr(m: int)
    ensures
        dec_repr(m).len() >= 1,
        int_syntax(dec_repr(m)),
        int_val(dec_repr(m)) == m,
        forall|i: int| 0 <= i < dec_repr(m).len() ==> dec_repr(m)[i] != CR,
{
    let s = dec_repr(m);
    if m < 0 {
        lemma_dec_digits(-m);
        assert(s[0] == MINUS);
        assert(s.skip(1) =~= dec_digits(-m));
        assert(int_val(s) == -digits_val(dec_digits(-m)));
        assert forall|i: int| 0 <= i < s.len() implies s[i] != CR by {
            if i >= 1 {
                assert(s[i] == dec_digits(-m)[i - 1]);
                assert(crate::numeric::is_digit(s[i]));
            }
        }
    } else {
        lemma_dec_digits(m);
        assert(crate::numeric::is_digit(s[0]));
        assert(s[0] != MINUS);
    }
}

/// Reading the first line of an integer frame yields its tag line whole,
/// with nothing after it, as long as the line fits the configured bound.
proof fn lemma_integer_frame_line(m: int, cfg: Config)
    requires
        1 + dec_repr(m).len() <= cfg.max_line_len as int,
    ensures
        spec_read_line(integer_frame(m), cfg.max_line_len as int) == Ok::<
            (Seq<u8>, Seq<u8>),
            DecodeError,
        >((seq![TAG_INTEGER] + dec_repr(m), Seq::empty())),
{
    let s = integer_frame(m);
    let repr = dec_repr(m);
    lemma_dec_repr(m);
    let li = 1 + repr.len() as int;
    assert(s.len() == li + 2);
    assert(s[li] == CR && s[li + 1] == LF);
    assert(is_crlf_at(s, li));
    assert forall|j: int| 0 <= j < li implies !is_crlf_at(s, j) by {
        if j == 0 {
            assert(s[0] == TAG_INTEGER);
        } else {
            assert(s[j] == repr[j - 1]);
        }
        assert(s[j] != CR);
    }
    lemma_find_crlf_at(s, li);
    assert(find_crlf(s) == Some(li as nat));
    assert(s.take(li) =~= seq![TAG_INTEGER] + repr);
    assert(s.skip(li + 2) =~= Seq::<u8>::empty());
}

/// Decoding the integer frame of any signed 64-bit value yields exactly
/// that integer and consumes the whole frame, at any depth and under any
/// limits whose line bound admits the tag line.
pub proof fn lemma_integer_frame_decodes(n: i64, depth: int, cfg: Config)
    requires
        1 + dec_repr(n as int).len() <= cfg.max_line_len as int,
    ensures
        spec_decode(integer_frame(n as int), depth, cfg) == Ok::<(RespVal, Seq<u8>), DecodeError>(
            (RespVal::Integer(n), Seq::empty()),
        ),
{
    let repr = dec_repr(n as int);
    lemma_dec_repr(n as int);
    lemma_integer_frame_line(n as int, cfg);
    let line = seq![TAG_INTEGER] + repr;
    assert(line[0] == TAG_INTEGER);
    assert(line.len() > 0);
    assert(line.skip(1) =~= repr);
    assert(spec_parse_i64(repr) == Ok::<i64, DecodeError>(n));
}

/// Decoding the integer frame of any value outside the signed 64-bit
/// range — one past `i64::MAX` or `i64::MIN` included — fails
/// `IntegerOverflow`.
pub proof fn lemma_integer_frame_overflows(m: int, depth: int, cfg: Config)
    requires
        m < i64::MIN || m > i64::MAX,
        1 + dec_repr(m).len() <= cfg.max_line_len as int,
    ensures
        spec_decode(integer_frame(m), depth, cfg) == Err::<(RespVal, Seq<u8>), DecodeError>(
            DecodeError::IntegerOverflow,
        ),
{
    let repr = dec_repr(m);
    lemma_dec_repr(m);
    lemma_integer_frame_line(m, cfg);
    let line = seq![TAG_INTEGER] + repr;
    assert(line[0] == TAG_INTEGER);
    assert(line.skip(1) =~= repr);
    assert(spec_parse_i64(repr) == Err::<i64, DecodeError>(DecodeError::IntegerOverflow));
}

/// A bulk string whose declared length exceeds the configured maximum
/// fails `FrameTooLarge` whatever follows its tag line: the length is
/// judged before any payload byte is read.
pub proof fn lemma_bulk_too_large(payload: Seq<u8>, rest: Seq<u8>, cfg: Config)
    requires
        spec_parse_i64(payload) matches Ok(n) && n as int > cfg.max_bulk_len as int,
    ensures
        spec_bulk_tail(payload, rest, cfg) == Err::<(RespVal, Seq<u8>), DecodeError>(
            DecodeError::FrameTooLarge,
        ),
{
}

/// A frame whose tag byte is none of the five the protocol knows fails
/// `MalformedFrame`, whatever the rest of the line holds.
pub proof fn lemma_unknown_tag(input: Seq<u8>, depth: int, cfg: Config)
    requires
        spec_read_line(input, cfg.max_line_len as int) matches Ok((line, rest)) && line.len() > 0
            && line[0] != TAG_SIMPLE && line[0] != TAG_ERROR && line[0] != TAG_INTEGER && line[0]
            != TAG_BULK && line[0] != TAG_ARRAY,
    ensures
        spec_decode(input, depth, cfg) == Err::<(RespVal, Seq<u8>), DecodeError>(
            DecodeError::MalformedFrame,
        ),
{
}

/// The wire bytes of `k` arrays nested around one integer frame: each
/// level is a one-element array.
pub open spec fn nested_frame(k: nat) -> Seq<u8>
    decreases k,
{
    if k == 0 {
        integer_frame(0)
    } else {
        seq![TAG_ARRAY, 49u8, CR, LF] + nested_frame((k - 1) as nat)
    }
}

/// The value `nested_frame(k)` stands for: `k` one-element arrays around
/// the integer zero.
pub open spec fn nested_value(k: nat) -> RespVal
    decreases k,
{
    if k == 0 {
        RespVal::Integer(0)
    } else {
        RespVal::Array(Some(seq![nested_value((k - 1) as nat)]))
    }
}

/// Arrays nested `k` levels deep, starting from `depth` enclosing arrays,
/// decode exactly when `depth + k` stays within the configured maximum
/// depth; one level too many fails `MaxDepthExceeded`.
pub proof fn lemma_nested_frame(k: nat, depth: int, cfg: Config)
    requires
        cfg.max_line_len >= 2,
        cfg.max_array_len >= 1,
        0 <= depth,
    ensures
        nested_frame(k).len() >= 4,
        depth + k <= cfg.max_depth as int ==> spec_decode(nested_frame(k), depth, cfg) == Ok::<
            (RespVal, Seq<u8>),
            DecodeError,
        >((nested_value(k), Seq::empty())),
        depth + k > cfg.max_depth as int && k >= 1 ==> spec_decode(nested_frame(k), depth, cfg)
            == Err::<(RespVal, Seq<u8>), DecodeError>(DecodeError::MaxDepthExceeded),
    decreases k,
{
    if k == 0 {
        assert(dec_repr(0) =~= seq![48u8]);
        lemma_integer_frame_decodes(0, depth, cfg);
    } else {
        lemma_nested_frame((k - 1) as nat, depth + 1, cfg);
        let s = nested_frame(k);
        let tail = nested_frame((k - 1) as nat);
        assert(s[0] == TAG_ARRAY && s[1] == 49u8 && s[2] == CR && s[3] == LF);
        assert(is_crlf_at(s, 2));
        assert forall|j: int| 0 <= j < 2 implies !is_crlf_at(s, j) by {
            assert(s[j] != CR);
        }
        lemma_find_crlf_at(s, 2);
        assert(s.take(2) =~= seq![TAG_ARRAY, 49u8]);
        assert(s.skip(4) =~= tail);
        let line = s.take(2);
        let payload = line.skip(1);
        assert(payload =~= seq![49u8]);
        assert(digits_val(seq![49u8].drop_last()) == 0) by {
            assert(seq![49u8].drop_last() =~= Seq::<u8>::empty());
        }
        assert(spec_parse_i64(payload) == Ok::<i64, DecodeError>(1));
        if depth >= cfg.max_depth as int {
            assert(spec_decode(s, depth, cfg) == Err::<(RespVal, Seq<u8>), DecodeError>(
                DecodeError::MaxDepthExceeded,
            ));
        } else {
            if depth + 1 + (k - 1) <= cfg.max_depth as int {
                assert(spec_decode_elems(tail, 1, depth + 1, cfg) == Ok::<
                    (Seq<RespVal>, Seq<u8>),
                    DecodeError,
                >((seq![nested_value((k - 1) as nat)], Seq::empty()))) by {
                    assert(spec_decode_elems(Seq::<u8>::empty(), 0, depth + 1, cfg) == Ok::<
                        (Seq<RespVal>, Seq<u8>),
                        DecodeError,
                    >((Seq::empty(), Seq::empty())));
                    assert(seq![nested_value((k - 1) as nat)] + Seq::<RespVal>::empty()
                        =~= seq![nested_value((k - 1) as nat)]);
                }
                assert(nested_value(k) == RespVal::Array(
                    Some(seq![nested_value((k - 1) as nat)]),
                ));
            }
        }
    }
}

/// The depth limit is exact: a frame of arrays nested to the configured
/// maximum depth decodes, and one nested a single level beyond it fails
/// `MaxDepthExceeded`.
pub proof fn lemma_depth_limit(cfg: Config)
    requires
        cfg.max_line_len >= 2,
        cfg.max_array_len >= 1,
    ensures
        spec_decode(nested_frame(cfg.max_depth as nat), 0, cfg) == Ok::<
            (RespVal, Seq<u8>),
            DecodeError,
        >((nested_value(cfg.max_depth as nat), Seq::empty())),
        spec_decode(nested_frame((cfg.max_depth + 1) as nat), 0, cfg) == Err::<
            (RespVal, Seq<u8>),
            DecodeError,
        >(DecodeError::MaxDepthExceeded),
{
    lemma_nested_frame(cfg.max_depth as nat, 0, cfg);
    lemma_nested_frame((cfg.max_depth + 1) as nat, 0, cfg);
}

/// Appending bytes to a source does not move its first CRLF.
proof fn lemma_find_crlf_extend(s: Seq<u8>, ext: Seq<u8>)
    requires
        find_crlf(s) is Some,
    ensures
        find_crlf(s + ext) == find_crlf(s),
{
    lemma_find_crlf(s);
    if let Some(i) = find_crlf(s) {
        assert((s + ext)[i as int] == s[i as int]);
        assert((s + ext)[i as int + 1] == s[i as int + 1]);
        assert(is_crlf_at(s + ext, i as int));
        assert forall|j: int| 0 <= j < i implies !is_crlf_at(s + ext, j) by {
            assert(!is_crlf_at(s, j));
            assert((s + ext)[j] == s[j]);
            assert(j + 1 < s.len());
            assert((s + ext)[j + 1] == s[j + 1]);
        }
        lemma_find_crlf_at(s + ext, i as int);
    }
}

/// Appending bytes to a source changes a successful line read only by
/// carrying the appended bytes in the remainder.
proof fn lemma_read_line_extend(s: Seq<u8>, ext: Seq<u8>, max: int)
    ensures
        spec_read_line(s, max) matches Ok((line, rest)) ==> spec_read_line(s + ext, max) == Ok::<
            (Seq<u8>, Seq<u8>),
            DecodeError,
        >((line, rest + ext)),
{
    if let Ok((line, rest)) = spec_read_line(s, max) {
        lemma_find_crlf_extend(s, ext);
        if let Some(i) = find_crlf(s) {
            assert((s + ext).take(i as int) =~= s.take(i as int));
            assert((s + ext).skip(i as int + 2) =~= s.skip(i as int + 2) + ext);
        }
    }
}

/// Appending bytes to a source changes a successful raw read only by
/// carrying the appended bytes in the remainder.
proof fn lemma_read_exact_extend(s: Seq<u8>, ext: Seq<u8>, n: int)
    ensures
        spec_read_exact(s, n) matches Ok((bytes, rest)) ==> spec_read_exact(s + ext, n) == Ok::<
            (Seq<u8>, Seq<u8>),
            DecodeError,
        >((bytes, rest + ext)),
{
    if let Ok((bytes, rest)) = spec_read_exact(s, n) {
        assert((s + ext)[n] == s[n]);
        assert((s + ext)[n + 1] == s[n + 1]);
        assert((s + ext).take(n) =~= s.take(n));
        assert((s + ext).skip(n + 2) =~= s.skip(n + 2) + ext);
    }
}

/// Decoding reads only the bytes of the frame itself: whatever is
/// appended after them is untouched and reappears in the remainder.
pub proof fn lemma_decode_extend(s: Seq<u8>, ext: Seq<u8>, depth: int, cfg: Config)
    ensures
        spec_decode(s, depth, cfg) matches Ok((v, rest)) ==> spec_decode(s + ext, depth, cfg)
            == Ok::<(RespVal, Seq<u8>), DecodeError>((v, rest + ext)),
    decreases s.len(), 0int, 0int,
{
    if let Ok((v0, rest0)) = spec_decode(s, depth, cfg) {
        let maxl = cfg.max_line_len as int;
        lemma_read_line_extend(s, ext, maxl);
        if let Ok((line, rest)) = spec_read_line(s, maxl) {
            let tag = line[0];
            let payload = line.skip(1);
            if tag == TAG_BULK {
                if let Ok(n) = spec_parse_i64(payload) {
                    if n >= 0 && n as int <= cfg.max_bulk_len as int {
                        lemma_read_exact_extend(rest, ext, n as int);
                    }
                }
            } else if tag == TAG_ARRAY {
                if let Ok(n) = spec_parse_i64(payload) {
                    if n >= 0 && n as int <= cfg.max_array_len as int && depth
                        < cfg.max_depth as int {
                        lemma_elems_extend(rest, ext, n as int, depth + 1, cfg);
                    }
                }
            }
        }
    }
}

/// The sequence-of-frames form of `lemma_decode_extend`.
pub proof fn lemma_elems_extend(s: Seq<u8>, ext: Seq<u8>, n: int, depth: int, cfg: Config)
    ensures
        spec_decode_elems(s, n, depth, cfg) matches Ok((vs, rest)) ==> spec_decode_elems(
            s + ext,
            n,
            depth,
            cfg,
        ) == Ok::<(Seq<RespVal>, Seq<u8>), DecodeError>((vs, rest + ext)),
    decreases s.len(), 1int, n,
{
    if n <= 0 {
    } else {
        if let Ok((v, rest)) = spec_decode(s, depth, cfg) {
            if rest.len() < s.len() {
                lemma_decode_extend(s, ext, depth, cfg);
                lemma_elems_extend(rest, ext, n - 1, depth, cfg);
            }
        }
    }
}

/// Pipelining: with two well-formed frames back to back in one source,
/// the first decode yields the first frame's value and stops exactly at
/// the frame boundary, and the second decode, resumed there, yields the
/// second frame's value.
pub proof fn lemma_pipelined_decode(f1: Seq<u8>, f2: Seq<u8>, cfg: Config)
    requires
        spec_decode(f1, 0, cfg) matches Ok((v, rest)) && rest == Seq::<u8>::empty(),
    ensures
        spec_decode(f1 + f2, 0, cfg) == Ok::<(RespVal, Seq<u8>), DecodeError>(
            (spec_decode(f1, 0, cfg)->Ok_0.0, f2),
        ),
{
    lemma_decode_extend(f1, f2, 0, cfg);
    assert(Seq::<u8>::empty() + f2 =~= f2);
}

} // verus!
