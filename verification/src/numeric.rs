//! Parsing decimal ASCII integers, the numeric payloads and length fields
//! of the protocol.

use vstd::prelude::*;

use crate::error::DecodeError;

verus! {

/// The minus-sign byte.
pub const MINUS: u8 = 45;

/// Whether `b` is an ASCII decimal digit.
pub open spec fn is_digit(b: u8) -> bool {
    48 <= b <= 57
}

/// Whether every byte of `s` is an ASCII decimal digit.
pub open spec fn all_digits(s: Seq<u8>) -> bool {
    forall|i: int| 0 <= i < s.len() ==> is_digit(s[i])
}

/// Whether `s` matches `-?[0-9]+` exactly.
pub open spec fn int_syntax(s: Seq<u8>) -> bool {
    if s.len() > 0 && s[0] == MINUS {
        s.len() >= 2 && all_digits(s.skip(1))
    } else {
        s.len() >= 1 && all_digits(s)
    }
}

/// The value of a string of decimal digits, most significant first.
pub open spec fn digits_val(s: Seq<u8>) -> int
    decreases s.len(),
{
    if s.len() == 0 {
        0
    } else {
        digits_val(s.drop_last()) * 10 + (s.last() - 48)
    }
}

/// The unbounded integer value of a `-?[0-9]+` payload.
pub open spec fn int_val(s: Seq<u8>) -> int {
    if s.len() > 0 && s[0] == MINUS {
        -digits_val(s.skip(1))
    } else {
        digits_val(s)
    }
}

/// What parsing an integer payload yields: `InvalidInteger` unless the
/// payload matches `-?[0-9]+`, `IntegerOverflow` when its value does not
/// fit a signed 64-bit word, and the value otherwise.
pub open spec fn spec_parse_i64(s: Seq<u8>) -> Result<i64, DecodeError> {
    if !int_syntax(s) {
        Err(DecodeError::InvalidInteger)
    } else if int_val(s) < i64::MIN || int_val(s) > i64::MAX {
        Err(DecodeError::IntegerOverflow)
    } else {
        Ok(int_val(s) as i64)
    }
}

/// A digit string's value is never negative.
pub proof fn lemma_digits_val_nonneg(s: Seq<u8>)
    requires
        all_digits(s),
    ensures
        digits_val(s) >= 0,
    decreases s.len(),
{
    if s.len() > 0 {
        assert(all_digits(s.drop_last()));
        lemma_digits_val_nonneg(s.drop_last());
    }
}

/// Extending a digit string never lowers its value.
pub proof fn lemma_digits_val_take_le(s: Seq<u8>, j: int)
    requires
        all_digits(s),
        0 <= j <= s.len(),
    ensures
        digits_val(s.take(j)) <= digits_val(s),
    decreases s.len() - j,
{
    if j == s.len() {
        assert(s.take(j) =~= s);
    } else {
        lemma_digits_val_take_le(s, j + 1);
        let t = s.take(j + 1);
        assert(t.drop_last() =~= s.take(j));
        assert(all_digits(s.take(j)));
        lemma_digits_val_nonneg(s.take(j));
        assert(digits_val(t) == digits_val(s.take(j)) * 10 + (t.last() - 48));
        assert(is_digit(s[j]));
    }
}

/// Parses the bytes of `line` from index `from` on as a decimal integer,
/// exactly as `spec_parse_i64` describes.
pub fn parse_i64(line: &Vec<u8>, from: usize) -> (r: Result<i64, DecodeError>)
    requires
        from <= line@.len(),
    ensures
        r == spec_parse_i64(line@.skip(from as int)),
{
    let ghost s = line@.skip(from as int);
    let len = line.len();
    if from == len {
        return Err(DecodeError::InvalidInteger);
    }
    let neg = line[from] == MINUS;
    let start = if neg { from + 1 } else { from };
    proof {
        assert(s[0] == line@[from as int]);
    }
    if start == len {
        // A lone minus sign has no digits.
        return Err(DecodeError::InvalidInteger);
    }
    let mut i = start;
    while i < len
        invariant
            from <= start <= i <= len,
            start == from + if neg { 1int } else { 0int },
            len == line@.len(),
            s == line@.skip(from as int),
            neg == (s[0] == MINUS),
            forall|k: int| start <= k < i ==> is_digit(line@[k]),
        decreases len - i,
    {
        let b = line[i];
        if b < 48 || b > 57 {
            proof {
                assert(!is_digit(line@[i as int]));
                if neg {
                    assert(s.skip(1) =~= line@.skip(start as int));
                    assert(s.skip(1)[i - start] == line@[i as int]);
                } else {
                    assert(s[i - from] == line@[i as int]);
                }
                assert(!int_syntax(s));
            }
            return Err(DecodeError::InvalidInteger);
        }
        i = i + 1;
    }
    let ghost digits = line@.skip(start as int);
    proof {
        assert(forall|k: int| 0 <= k < digits.len() ==> digits[k] == line@[start + k]);
        assert(all_digits(digits));
        if neg {
            assert(s.skip(1) =~= digits);
        } else {
            assert(s =~= digits);
        }
        assert(int_syntax(s));
    }
    let limit: u64 = if neg {
        9223372036854775808
    } else {
        9223372036854775807
    };
    let mut acc: u64 = 0;
    let mut i = start;
    while i < len
        invariant
            from <= start <= i <= len,
            start == from + if neg { 1int } else { 0int },
            len == line@.len(),
            s == line@.skip(from as int),
            neg == (s[0] == MINUS),
            int_syntax(s),
            digits == line@.skip(start as int),
            digits.len() == len - start,
            all_digits(digits),
            limit == if neg { 9223372036854775808u64 } else { 9223372036854775807u64 },
            acc == digits_val(digits.take(i - start)),
            acc <= limit,
        decreases len - i,
    {
        proof {
            assert(digits[i - start] == line@[i as int]);
            assert(is_digit(digits[i - start]));
        }
        let d = (line[i] - 48) as u64;
        proof {
            vstd::arithmetic::div_mod::lemma_fundamental_div_mod(limit - d, 10);
            vstd::arithmetic::div_mod::lemma_mod_bound(limit - d, 10);
        }
        if acc > (limit - d) / 10 {
            proof {
                let t = digits.take(i - start + 1);
                assert(t.drop_last() =~= digits.take(i - start));
                assert(t.last() == digits[i - start]);
                assert(digits_val(t) == acc * 10 + d);
                assert(acc * 10 + d > limit);
                lemma_digits_val_take_le(digits, i - start + 1);
                assert(digits_val(digits) > limit);
                if neg {
                    assert(s.skip(1) =~= digits);
                    assert(int_val(s) < i64::MIN);
                } else {
                    assert(s =~= digits);
                    assert(int_val(s) > i64::MAX);
                }
            }
            return Err(DecodeError::IntegerOverflow);
        }
        proof {
            assert(acc * 10 + d <= limit);
            let t = digits.take(i - start + 1);
            assert(t.drop_last() =~= digits.take(i - start));
            assert(t.last() == digits[i - start]);
        }
        acc = acc * 10 + d;
        i = i + 1;
    }
    proof {
        assert(digits.take(len - start) =~= digits);
        if neg {
            assert(s.skip(1) =~= digits);
        } else {
            assert(s =~= digits);
        }
    }
    if neg {
        if acc == 9223372036854775808 {
            Ok(i64::MIN)
        } else {
            Ok(-(acc as i64))
        }
    } else {
        Ok(acc as i64)
    }
}

} // verus!
