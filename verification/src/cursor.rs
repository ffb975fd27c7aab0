//! The byte source: an in-memory buffer read front to back.

use vstd::prelude::*;

use crate::error::DecodeError;

verus! {

/// The carriage-return byte of a CRLF line terminator.
pub const CR: u8 = 13;

/// The line-feed byte of a CRLF line terminator.
pub const LF: u8 = 10;

/// Whether a CRLF pair stands at index `i` of `s`.
pub open spec fn is_crlf_at(s: Seq<u8>, i: int) -> bool {
    0 <= i && i + 2 <= s.len() && s[i] == CR && s[i + 1] == LF
}

/// The index of the first CRLF pair in `s`, if any.
pub open spec fn find_crlf(s: Seq<u8>) -> Option<nat>
    decreases s.len(),
{
    if s.len() < 2 {
        None
    } else if s[0] == CR && s[1] == LF {
        Some(0)
    } else {
        match find_crlf(s.skip(1)) {
            None => None,
            Some(i) => Some(i + 1),
        }
    }
}

/// `find_crlf` returns the least index bearing a CRLF pair, or `None` when
/// there is none.
pub proof fn lemma_find_crlf(s: Seq<u8>)
    ensures
        match find_crlf(s) {
            Some(i) => is_crlf_at(s, i as int) && forall|j: int|
                0 <= j < i ==> !is_crlf_at(s, j),
            None => forall|j: int| !is_crlf_at(s, j),
        },
    decreases s.len(),
{
    if s.len() < 2 {
    } else if s[0] == CR && s[1] == LF {
    } else {
        lemma_find_crlf(s.skip(1));
        assert forall|j: int| 1 <= j implies is_crlf_at(s, j) == is_crlf_at(
            s.skip(1),
            j - 1,
        ) by {
            if is_crlf_at(s, j) || is_crlf_at(s.skip(1), j - 1) {
                assert(s.skip(1)[j - 1] == s[j]);
                assert(j < s.len() ==> s.skip(1)[j] == s[j + 1]);
            }
        }
    }
}

/// A position bearing the first CRLF pair is the one `find_crlf` returns.
pub proof fn lemma_find_crlf_at(s: Seq<u8>, i: int)
    requires
        is_crlf_at(s, i),
        forall|j: int| 0 <= j < i ==> !is_crlf_at(s, j),
    ensures
        find_crlf(s) == Some(i as nat),
{
    lemma_find_crlf(s);
    if let Some(k) = find_crlf(s) {
        assert(!(k < i));
        assert(!(k > i));
    }
}

/// What reading one CRLF-terminated line from `input` yields: the line
/// without its terminator, and the bytes after the terminator. A line that
/// would need more than `max` bytes fails `FrameTooLarge`; a source that
/// ends before a terminator fails `IncompleteFrame`.
pub open spec fn spec_read_line(input: Seq<u8>, max: int) -> Result<
    (Seq<u8>, Seq<u8>),
    DecodeError,
> {
    match find_crlf(input) {
        None => if input.len() > max {
            Err(DecodeError::FrameTooLarge)
        } else {
            Err(DecodeError::IncompleteFrame)
        },
        Some(i) => if i > max {
            Err(DecodeError::FrameTooLarge)
        } else if i + 2 <= input.len() {
            Ok((input.take(i as int), input.skip(i as int + 2)))
        } else {
            Err(DecodeError::IncompleteFrame)
        },
    }
}

/// What reading an `n`-byte payload plus its CRLF terminator from `input`
/// yields: the payload and the bytes after the terminator. A source too
/// short for payload and terminator fails `IncompleteFrame`; a payload not
/// followed by CRLF fails `MalformedFrame`.
pub open spec fn spec_read_exact(input: Seq<u8>, n: int) -> Result<
    (Seq<u8>, Seq<u8>),
    DecodeError,
> {
    if n < 0 || input.len() < n + 2 {
        Err(DecodeError::IncompleteFrame)
    } else if input[n] == CR && input[n + 1] == LF {
        Ok((input.take(n), input.skip(n + 2)))
    } else {
        Err(DecodeError::MalformedFrame)
    }
}

/// An in-memory byte source with a read position. Reads only move the
/// position forward; the bytes themselves never change.
pub struct Cursor {
    /// The whole byte source.
    pub buf: Vec<u8>,
    /// The index of the next byte to read.
    pub pos: usize,
}

impl Cursor {
    /// The position never passes the end of the buffer.
    pub open spec fn wf(self) -> bool {
        self.pos <= self.buf@.len()
    }

    /// The whole underlying byte source.
    pub open spec fn all_bytes(self) -> Seq<u8> {
        self.buf@
    }

    /// The bytes not yet consumed.
    pub open spec fn remaining(self) -> Seq<u8> {
        self.buf@.skip(self.pos as int)
    }

    /// A cursor at the start of `input`.
    pub fn new(input: Vec<u8>) -> (c: Cursor)
        ensures
            c.wf(),
            c.all_bytes() == input@,
            c.remaining() == input@,
    {
        let c = Cursor { buf: input, pos: 0 };
        proof {
            assert(c.remaining() =~= c.buf@);
        }
        c
    }

    /// How many bytes are left to read.
    pub fn remaining_len(&self) -> (n: usize)
        requires
            self.wf(),
        ensures
            n == self.remaining().len(),
    {
        self.buf.len() - self.pos
    }

    /// A copy of `self.buf[from .. to]`.
    fn copy_range(&self, from: usize, to: usize) -> (out: Vec<u8>)
        requires
            from <= to <= self.buf@.len(),
        ensures
            out@ == self.buf@.subrange(from as int, to as int),
    {
        let mut out: Vec<u8> = Vec::new();
        let mut i: usize = from;
        while i < to
            invariant
                from <= i <= to <= self.buf@.len(),
                out@ == self.buf@.subrange(from as int, i as int),
            decreases to - i,
        {
            out.push(self.buf[i]);
            i = i + 1;
            proof {
                assert(out@ =~= self.buf@.subrange(from as int, i as int));
            }
        }
        out
    }

    /// Reads the bytes up to, and excluding, the next CRLF, and consumes the
    /// terminator too. On failure the cursor stands where it stood.
    pub fn read_line(&mut self, max: usize) -> (r: Result<Vec<u8>, DecodeError>)
        requires
            old(self).wf(),
        ensures
            final(self).wf(),
            final(self).all_bytes() == old(self).all_bytes(),
            match spec_read_line(old(self).remaining(), max as int) {
                Ok((line, rest)) => r matches Ok(l) && l@ == line && final(self).remaining()
                    == rest,
                Err(e) => r == Err::<Vec<u8>, DecodeError>(e) && *final(self) == *old(self),
            },
    {
        let ghost rem = self.remaining();
        let end = self.buf.len();
        let mut i: usize = self.pos;
        loop
            invariant
                self == old(self),
                self.wf(),
                end == self.buf@.len(),
                self.pos <= i <= end,
                rem == self.remaining(),
                rem.len() == end - self.pos,
                forall|j: int| 0 <= j < i - self.pos ==> !is_crlf_at(rem, j),
            decreases end - i,
        {
            if end - i < 2 {
                // No terminator in the rest of the source.
                proof {
                    assert forall|j: int| !is_crlf_at(rem, j) by {
                        if i - self.pos <= j && is_crlf_at(rem, j) {
                            assert(j + 2 <= rem.len());
                            assert(false);
                        }
                    }
                    lemma_find_crlf(rem);
                    assert(find_crlf(rem) is None);
                }
                if end - self.pos > max {
                    return Err(DecodeError::FrameTooLarge);
                }
                return Err(DecodeError::IncompleteFrame);
            }
            if self.buf[i] == CR && self.buf[i + 1] == LF {
                proof {
                    assert(rem[i - self.pos] == self.buf@[i as int]);
                    assert(rem[i - self.pos + 1] == self.buf@[i + 1]);
                    assert(is_crlf_at(rem, i - self.pos));
                    assert(find_crlf(rem) == Some((i - self.pos) as nat)) by {
                        lemma_find_crlf(rem);
                        if let Some(k) = find_crlf(rem) {
                            assert(!(k < i - self.pos));
                            assert(!(k > i - self.pos));
                        }
                    }
                }
                let line_len = i - self.pos;
                if line_len > max {
                    return Err(DecodeError::FrameTooLarge);
                }
                let line = self.copy_range(self.pos, i);
                proof {
                    assert(line@ =~= rem.take(line_len as int));
                }
                self.pos = i + 2;
                proof {
                    assert(self.remaining() =~= rem.skip(line_len + 2));
                }
                return Ok(line);
            }
            proof {
                assert(rem[i - self.pos] == self.buf@[i as int]);
                assert(rem[i - self.pos + 1] == self.buf@[i + 1]);
            }
            i = i + 1;
        }
    }

    /// Reads exactly `n` raw bytes, then requires and consumes a trailing
    /// CRLF. On failure the cursor stands where it stood.
    pub fn read_exact(&mut self, n: usize) -> (r: Result<Vec<u8>, DecodeError>)
        requires
            old(self).wf(),
        ensures
            final(self).wf(),
            final(self).all_bytes() == old(self).all_bytes(),
            match spec_read_exact(old(self).remaining(), n as int) {
                Ok((payload, rest)) => r matches Ok(p) && p@ == payload && final(self).remaining()
                    == rest,
                Err(e) => r == Err::<Vec<u8>, DecodeError>(e) && *final(self) == *old(self),
            },
    {
        let ghost rem = self.remaining();
        let avail = self.buf.len() - self.pos;
        if avail < n || avail - n < 2 {
            return Err(DecodeError::IncompleteFrame);
        }
        proof {
            assert(rem[n as int] == self.buf@[self.pos + n]);
            assert(rem[n + 1] == self.buf@[self.pos + n + 1]);
        }
        if self.buf[self.pos + n] != CR || self.buf[self.pos + n + 1] != LF {
            return Err(DecodeError::MalformedFrame);
        }
        let payload = self.copy_range(self.pos, self.pos + n);
        proof {
            assert(payload@ =~= rem.take(n as int));
        }
        self.pos = self.pos + n + 2;
        proof {
            assert(self.remaining() =~= rem.skip(n + 2));
        }
        Ok(payload)
    }
}

} // verus!
