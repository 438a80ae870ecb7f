//! The textual header: magic signature, free-form paragraph, and the
//! resolution line `-Y <height> +X <width>\n`.
//!
//! Each executable routine is proved equal to a spec-level reading of the
//! byte stream.  Positions are absolute indices into the cursor's buffer:
//! a spec function takes the buffer and the position of the next unread
//! byte (or, for the resolution-line helpers, the position of the byte the
//! parser currently holds) and returns the value read together with the
//! position reached.

use vstd::prelude::*;

use crate::cursor::ByteCursor;
use crate::LoadError;

verus! {

/// The ten signature bytes `#?RADIANCE` that open every stream.
pub open spec fn magic_bytes() -> Seq<u8> {
    seq![35u8, 63u8, 82u8, 65u8, 68u8, 73u8, 65u8, 78u8, 67u8, 69u8]
}

/// Reading the magic signature at position `i`: ten bytes must be present
/// and equal to [`magic_bytes`].
pub open spec fn spec_magic(s: Seq<u8>, i: int) -> Result<(), LoadError> {
    if !(0 <= i && i + 10 <= s.len()) {
        Err(LoadError::Eof)
    } else if s.subrange(i, i + 10) == magic_bytes() {
        Ok(())
    } else {
        Err(LoadError::FileFormat)
    }
}

/// Skipping the free-form paragraph: bytes are consumed pairwise-greedily
/// until a line terminator is immediately followed by another, and the
/// position after that pair is returned.
pub open spec fn spec_skip_paragraph(s: Seq<u8>, i: int) -> Result<int, LoadError>
    decreases s.len() - i,
{
    if !(0 <= i && i < s.len()) {
        Err(LoadError::Eof)
    } else if s[i] == 10 {
        if i + 1 >= s.len() {
            Err(LoadError::Eof)
        } else if s[i + 1] == 10 {
            Ok(i + 2)
        } else {
            spec_skip_paragraph(s, i + 2)
        }
    } else {
        spec_skip_paragraph(s, i + 1)
    }
}

/// Whether a byte is an ASCII decimal digit.
pub open spec fn spec_is_digit(b: u8) -> bool {
    48 <= b && b <= 57
}

/// From a held byte at position `i`, the position of the first byte that
/// is not a space.
pub open spec fn spec_skip_spaces(s: Seq<u8>, i: int) -> Result<int, LoadError>
    decreases s.len() - i,
{
    if !(0 <= i && i < s.len()) {
        Err(LoadError::Eof)
    } else if s[i] != 32 {
        Ok(i)
    } else if i + 1 >= s.len() {
        Err(LoadError::Eof)
    } else {
        spec_skip_spaces(s, i + 1)
    }
}

/// Like [`spec_skip_spaces`], but at least one space must be present.
pub open spec fn spec_expect_spaces(s: Seq<u8>, i: int) -> Result<int, LoadError> {
    if !(0 <= i && i < s.len()) {
        Err(LoadError::Eof)
    } else if s[i] != 32 {
        Err(LoadError::Header)
    } else {
        spec_skip_spaces(s, i)
    }
}

/// Matching a two-byte literal token at position `i`.  On success the
/// parser holds the byte after the token, which therefore must exist.
pub open spec fn spec_expect2(s: Seq<u8>, i: int, b0: u8, b1: u8) -> Result<int, LoadError> {
    if !(0 <= i && i < s.len()) {
        Err(LoadError::Eof)
    } else if s[i] != b0 {
        Err(LoadError::Header)
    } else if i + 1 >= s.len() {
        Err(LoadError::Eof)
    } else if s[i + 1] != b1 {
        Err(LoadError::Header)
    } else if i + 2 >= s.len() {
        Err(LoadError::Eof)
    } else {
        Ok(i + 2)
    }
}

/// Accumulating decimal digits starting from the digit at position `i`
/// with the value read so far in `acc`.  A value that no longer fits the
/// length type is a header failure, not a silent wrap.  The digit run must
/// be followed by at least one more byte, which the parser then holds.
pub open spec fn spec_digits(s: Seq<u8>, i: int, acc: int) -> Result<(int, int), LoadError>
    decreases s.len() - i,
{
    if !(0 <= i && i < s.len()) {
        Err(LoadError::Eof)
    } else {
        let v = acc * 10 + (s[i] - 48);
        if v > usize::MAX as int {
            Err(LoadError::Header)
        } else if i + 1 >= s.len() {
            Err(LoadError::Eof)
        } else if !spec_is_digit(s[i + 1]) {
            Ok((v, i + 1))
        } else {
            spec_digits(s, i + 1, v)
        }
    }
}

/// An unsigned decimal number: the held byte must be a digit.
pub open spec fn spec_number(s: Seq<u8>, i: int) -> Result<(int, int), LoadError> {
    if !(0 <= i && i < s.len()) {
        Err(LoadError::Eof)
    } else if !spec_is_digit(s[i]) {
        Err(LoadError::Header)
    } else {
        spec_digits(s, i, 0)
    }
}

/// The token `-Y`, spaces, and the height.
pub open spec fn spec_expect_y(s: Seq<u8>, i: int) -> Result<(int, int), LoadError> {
    match spec_expect2(s, i, 45, 89) {
        Err(e) => Err(e),
        Ok(j) => match spec_expect_spaces(s, j) {
            Err(e) => Err(e),
            Ok(k) => spec_number(s, k),
        },
    }
}

/// The token `+X`, spaces, and the width.
pub open spec fn spec_expect_x(s: Seq<u8>, i: int) -> Result<(int, int), LoadError> {
    match spec_expect2(s, i, 43, 88) {
        Err(e) => Err(e),
        Ok(j) => match spec_expect_spaces(s, j) {
            Err(e) => Err(e),
            Ok(k) => spec_number(s, k),
        },
    }
}

/// The whole resolution line, starting from the held byte at position `i`:
/// optional spaces, `-Y`, spaces, height, spaces, `+X`, spaces, width,
/// optional spaces, and a line terminator.  Returns `((width, height), j)`
/// with `j` the position right after the terminator, where pixel data
/// begins.
pub open spec fn spec_dims(s: Seq<u8>, i: int) -> Result<((int, int), int), LoadError> {
    match spec_skip_spaces(s, i) {
        Err(e) => Err(e),
        Ok(i1) => match spec_expect_y(s, i1) {
            Err(e) => Err(e),
            Ok((h, i2)) => match spec_expect_spaces(s, i2) {
                Err(e) => Err(e),
                Ok(i3) => match spec_expect_x(s, i3) {
                    Err(e) => Err(e),
                    Ok((w, i4)) => match spec_skip_spaces(s, i4) {
                        Err(e) => Err(e),
                        Ok(i5) => if s[i5] == 10 {
                            Ok(((w, h), i5 + 1))
                        } else {
                            Err(LoadError::Header)
                        },
                    },
                },
            },
        },
    }
}

/// Everything after the magic signature: the skipped paragraph followed by
/// the resolution line.
pub open spec fn spec_header(s: Seq<u8>, i: int) -> Result<((int, int), int), LoadError> {
    match spec_skip_paragraph(s, i) {
        Err(e) => Err(e),
        Ok(j) => if j >= s.len() {
            Err(LoadError::Eof)
        } else {
            spec_dims(s, j)
        },
    }
}

/// Whether a byte is an ASCII decimal digit.
fn is_digit(b: u8) -> (d: bool)
    ensures
        d == spec_is_digit(b),
{
    48 <= b && b <= 57
}

/// The `k`-th signature byte.
fn magic_byte(k: usize) -> (b: u8)
    requires
        k < 10,
    ensures
        b == magic_bytes()[k as int],
{
    match k {
        0 => 35,
        1 => 63,
        2 => 82,
        3 => 65,
        4 => 68,
        5 => 73,
        6 => 65,
        7 => 78,
        8 => 67,
        _ => 69,
    }
}

/// Consume the ten signature bytes and check them against the magic.
pub(crate) fn expect_magic(c: &mut ByteCursor) -> (r: Result<(), LoadError>)
    requires
        old(c).wf(),
    ensures
        final(c).wf(),
        final(c).bytes() == old(c).bytes(),
        match r {
            Ok(_) => spec_magic(old(c).bytes(), old(c).position()) == Ok::<(), LoadError>(())
                && final(c).position() == old(c).position() + 10,
            Err(e) => spec_magic(old(c).bytes(), old(c).position()) == Err::<(), LoadError>(e),
        },
{
    let ghost s = c.bytes();
    let ghost i0 = c.position();
    if c.remaining_len() < 10 {
        return Err(LoadError::Eof);
    }
    let mut k: usize = 0;
    while k < 10
        invariant
            c.wf(),
            s == old(c).bytes(),
            i0 == old(c).position(),
            c.bytes() == s,
            k <= 10,
            0 <= i0,
            i0 + 10 <= s.len(),
            c.position() == i0 + k,
            forall|j: int| 0 <= j < k ==> s[i0 + j] == magic_bytes()[j],
        decreases 10 - k,
    {
        let b = match c.read_byte() {
            Ok(b) => b,
            Err(_) => {
                proof {
                    assert(false);
                }
                return Err(LoadError::Eof);
            },
        };
        if b != magic_byte(k) {
            proof {
                assert(s.subrange(i0, i0 + 10)[k as int] != magic_bytes()[k as int]);
            }
            return Err(LoadError::FileFormat);
        }
        k = k + 1;
    }
    proof {
        assert(s.subrange(i0, i0 + 10) =~= magic_bytes());
    }
    Ok(())
}

/// Consume bytes until a line terminator immediately follows another,
/// which ends the header's free-form paragraph.
fn skip_paragraph(c: &mut ByteCursor) -> (r: Result<(), LoadError>)
    requires
        old(c).wf(),
    ensures
        final(c).wf(),
        final(c).bytes() == old(c).bytes(),
        match r {
            Ok(_) => spec_skip_paragraph(old(c).bytes(), old(c).position())
                == Ok::<int, LoadError>(final(c).position()),
            Err(e) => spec_skip_paragraph(old(c).bytes(), old(c).position())
                == Err::<int, LoadError>(e),
        },
{
    let ghost s = c.bytes();
    let ghost i0 = c.position();
    loop
        invariant
            c.wf(),
            s == old(c).bytes(),
            i0 == old(c).position(),
            c.bytes() == s,
            0 <= i0 <= c.position(),
            spec_skip_paragraph(s, i0) == spec_skip_paragraph(s, c.position()),
        decreases s.len() - c.position(),
    {
        let b = match c.read_byte() {
            Ok(b) => b,
            Err(e) => {
                return Err(e);
            },
        };
        if b == 10 {
            let b2 = match c.read_byte() {
                Ok(b2) => b2,
                Err(e) => {
                    return Err(e);
                },
            };
            if b2 == 10 {
                return Ok(());
            }
        }
    }
}

/// The resolution-line parser: a cursor plus the one byte of lookahead the
/// grammar needs.
struct DimParser {
    byte: u8,
}

/// The parser `p` holds the byte of `c` at position `i`, and the cursor
/// stands right after it.
spec fn parser_at(p: DimParser, c: ByteCursor, i: int) -> bool {
    &&& c.wf()
    &&& 0 <= i < c.bytes().len()
    &&& c.position() == i + 1
    &&& p.byte == c.bytes()[i]
}

impl DimParser {
    /// Start the parser by consuming the first byte of the line.
    fn new(c: &mut ByteCursor) -> (r: Result<DimParser, LoadError>)
        requires
            old(c).wf(),
        ensures
            final(c).wf(),
            final(c).bytes() == old(c).bytes(),
            match r {
                Ok(p) => parser_at(p, *final(c), old(c).position()),
                Err(e) => e == LoadError::Eof && old(c).position() == old(c).bytes().len(),
            },
    {
        match c.read_byte() {
            Ok(byte) => Ok(DimParser { byte }),
            Err(e) => Err(e),
        }
    }

    /// Consume the next byte and hold it.
    fn eat(&mut self, c: &mut ByteCursor) -> (r: Result<u8, LoadError>)
        requires
            parser_at(*old(self), *old(c), old(c).position() - 1),
        ensures
            final(c).wf(),
            final(c).bytes() == old(c).bytes(),
            match r {
                Ok(b) => parser_at(*final(self), *final(c), old(c).position())
                    && b == old(c).bytes()[old(c).position()],
                Err(e) => e == LoadError::Eof && old(c).position() == old(c).bytes().len(),
            },
    {
        match c.read_byte() {
            Ok(b) => {
                self.byte = b;
                Ok(b)
            },
            Err(e) => Err(e),
        }
    }

    /// Skip over spaces; report whether any were present.
    fn eat_spaces(&mut self, c: &mut ByteCursor) -> (r: Result<bool, LoadError>)
        requires
            parser_at(*old(self), *old(c), old(c).position() - 1),
        ensures
            final(c).wf(),
            final(c).bytes() == old(c).bytes(),
            match r {
                Ok(ate) => parser_at(*final(self), *final(c), final(c).position() - 1)
                    && spec_skip_spaces(old(c).bytes(), old(c).position() - 1)
                        == Ok::<int, LoadError>(final(c).position() - 1)
                    && ate == (old(self).byte == 32),
                Err(e) => spec_skip_spaces(old(c).bytes(), old(c).position() - 1)
                    == Err::<int, LoadError>(e),
            },
    {
        let ghost s = c.bytes();
        let ghost i0 = c.position() - 1;
        let mut ate = false;
        while self.byte == 32
            invariant
                parser_at(*self, *c, c.position() - 1),
                s == old(c).bytes(),
                i0 == old(c).position() - 1,
                c.bytes() == s,
                i0 <= c.position() - 1,
                spec_skip_spaces(s, i0) == spec_skip_spaces(s, c.position() - 1),
                ate == (i0 < c.position() - 1),
                ate ==> s[i0] == 32,
                !ate ==> i0 == c.position() - 1,
            decreases s.len() - c.position(),
        {
            match self.eat(c) {
                Ok(_) => {
                    ate = true;
                },
                Err(e) => {
                    return Err(e);
                },
            }
        }
        Ok(ate)
    }

    /// Require at least one space and skip the whole run.
    fn expect_spaces(&mut self, c: &mut ByteCursor) -> (r: Result<(), LoadError>)
        requires
            parser_at(*old(self), *old(c), old(c).position() - 1),
        ensures
            final(c).wf(),
            final(c).bytes() == old(c).bytes(),
            match r {
                Ok(_) => parser_at(*final(self), *final(c), final(c).position() - 1)
                    && spec_expect_spaces(old(c).bytes(), old(c).position() - 1)
                        == Ok::<int, LoadError>(final(c).position() - 1),
                Err(e) => spec_expect_spaces(old(c).bytes(), old(c).position() - 1)
                    == Err::<int, LoadError>(e),
            },
    {
        match self.eat_spaces(c) {
            Ok(true) => Ok(()),
            Ok(false) => Err(LoadError::Header),
            Err(e) => Err(e),
        }
    }

    /// Match a two-byte literal token, consuming past it.
    fn expect(&mut self, c: &mut ByteCursor, b0: u8, b1: u8) -> (r: Result<(), LoadError>)
        requires
            parser_at(*old(self), *old(c), old(c).position() - 1),
        ensures
            final(c).wf(),
            final(c).bytes() == old(c).bytes(),
            match r {
                Ok(_) => parser_at(*final(self), *final(c), final(c).position() - 1)
                    && spec_expect2(old(c).bytes(), old(c).position() - 1, b0, b1)
                        == Ok::<int, LoadError>(final(c).position() - 1),
                Err(e) => spec_expect2(old(c).bytes(), old(c).position() - 1, b0, b1)
                    == Err::<int, LoadError>(e),
            },
    {
        if self.byte != b0 {
            return Err(LoadError::Header);
        }
        match self.eat(c) {
            Ok(_) => {},
            Err(e) => {
                return Err(e);
            },
        }
        if self.byte != b1 {
            return Err(LoadError::Header);
        }
        match self.eat(c) {
            Ok(_) => {},
            Err(e) => {
                return Err(e);
            },
        }
        Ok(())
    }

    /// An unsigned decimal number, accumulated digit by digit with
    /// overflow-checked arithmetic.
    fn expect_usize(&mut self, c: &mut ByteCursor) -> (r: Result<usize, LoadError>)
        requires
            parser_at(*old(self), *old(c), old(c).position() - 1),
        ensures
            final(c).wf(),
            final(c).bytes() == old(c).bytes(),
            match r {
                Ok(v) => parser_at(*final(self), *final(c), final(c).position() - 1)
                    && spec_number(old(c).bytes(), old(c).position() - 1)
                        == Ok::<(int, int), LoadError>((v as int, final(c).position() - 1)),
                Err(e) => spec_number(old(c).bytes(), old(c).position() - 1)
                    == Err::<(int, int), LoadError>(e),
            },
    {
        let ghost s = c.bytes();
        let ghost i0 = c.position() - 1;
        if !is_digit(self.byte) {
            return Err(LoadError::Header);
        }
        let mut value: usize = 0;
        loop
            invariant
                parser_at(*self, *c, c.position() - 1),
                s == old(c).bytes(),
                i0 == old(c).position() - 1,
                c.bytes() == s,
                spec_is_digit(self.byte),
                0 <= i0 < s.len(),
                spec_is_digit(s[i0]),
                spec_digits(s, i0, 0) == spec_digits(s, c.position() - 1, value as int),
            decreases s.len() - c.position(),
        {
            let d = (self.byte - 48) as usize;
            value = match value.checked_mul(10) {
                Some(v10) => match v10.checked_add(d) {
                    Some(v) => v,
                    None => {
                        return Err(LoadError::Header);
                    },
                },
                None => {
                    return Err(LoadError::Header);
                },
            };
            match self.eat(c) {
                Ok(b) => {
                    if !is_digit(b) {
                        return Ok(value);
                    }
                },
                Err(e) => {
                    return Err(e);
                },
            }
        }
    }

    /// The token `-Y`, separating spaces, and the height.
    fn expect_y(&mut self, c: &mut ByteCursor) -> (r: Result<usize, LoadError>)
        requires
            parser_at(*old(self), *old(c), old(c).position() - 1),
        ensures
            final(c).wf(),
            final(c).bytes() == old(c).bytes(),
            match r {
                Ok(v) => parser_at(*final(self), *final(c), final(c).position() - 1)
                    && spec_expect_y(old(c).bytes(), old(c).position() - 1)
                        == Ok::<(int, int), LoadError>((v as int, final(c).position() - 1)),
                Err(e) => spec_expect_y(old(c).bytes(), old(c).position() - 1)
                    == Err::<(int, int), LoadError>(e),
            },
    {
        match self.expect(c, 45, 89) {
            Ok(_) => {},
            Err(e) => {
                return Err(e);
            },
        }
        match self.expect_spaces(c) {
            Ok(_) => {},
            Err(e) => {
                return Err(e);
            },
        }
        self.expect_usize(c)
    }

    /// The token `+X`, separating spaces, and the width.
    fn expect_x(&mut self, c: &mut ByteCursor) -> (r: Result<usize, LoadError>)
        requires
            parser_at(*old(self), *old(c), old(c).position() - 1),
        ensures
            final(c).wf(),
            final(c).bytes() == old(c).bytes(),
            match r {
                Ok(v) => parser_at(*final(self), *final(c), final(c).position() - 1)
                    && spec_expect_x(old(c).bytes(), old(c).position() - 1)
                        == Ok::<(int, int), LoadError>((v as int, final(c).position() - 1)),
                Err(e) => spec_expect_x(old(c).bytes(), old(c).position() - 1)
                    == Err::<(int, int), LoadError>(e),
            },
    {
        match self.expect(c, 43, 88) {
            Ok(_) => {},
            Err(e) => {
                return Err(e);
            },
        }
        match self.expect_spaces(c) {
            Ok(_) => {},
            Err(e) => {
                return Err(e);
            },
        }
        self.expect_usize(c)
    }

    /// The held byte must be the line terminator, which ends the line;
    /// nothing further is consumed.
    fn expect_eol(&self) -> (r: Result<(), LoadError>)
        ensures
            match r {
                Ok(_) => self.byte == 10,
                Err(e) => e == LoadError::Header && self.byte != 10,
            },
    {
        match self.byte {
            10 => Ok(()),
            _ => Err(LoadError::Header),
        }
    }

    /// The whole resolution line; on success the cursor stands at the
    /// first pixel-data byte.
    fn parse(self, c: &mut ByteCursor) -> (r: Result<(usize, usize), LoadError>)
        requires
            parser_at(self, *old(c), old(c).position() - 1),
        ensures
            final(c).wf(),
            final(c).bytes() == old(c).bytes(),
            match r {
                Ok(dims) => spec_dims(old(c).bytes(), old(c).position() - 1)
                    == Ok::<((int, int), int), LoadError>(
                    ((dims.0 as int, dims.1 as int), final(c).position()),
                ),
                Err(e) => spec_dims(old(c).bytes(), old(c).position() - 1)
                    == Err::<((int, int), int), LoadError>(e),
            },
    {
        let mut this = self;
        match this.eat_spaces(c) {
            Ok(_) => {},
            Err(e) => {
                return Err(e);
            },
        }
        let y = match this.expect_y(c) {
            Ok(y) => y,
            Err(e) => {
                return Err(e);
            },
        };
        match this.expect_spaces(c) {
            Ok(_) => {},
            Err(e) => {
                return Err(e);
            },
        }
        let x = match this.expect_x(c) {
            Ok(x) => x,
            Err(e) => {
                return Err(e);
            },
        };
        match this.eat_spaces(c) {
            Ok(_) => {},
            Err(e) => {
                return Err(e);
            },
        }
        match this.expect_eol() {
            Ok(_) => Ok((x, y)),
            Err(e) => Err(e),
        }
    }
}

/// Skip the header paragraph and parse the resolution line, leaving the
/// cursor at the first pixel-data byte.  Returns `(width, height)`.
pub(crate) fn parse_header(c: &mut ByteCursor) -> (r: Result<(usize, usize), LoadError>)
    requires
        old(c).wf(),
    ensures
        final(c).wf(),
        final(c).bytes() == old(c).bytes(),
        match r {
            Ok(dims) => spec_header(old(c).bytes(), old(c).position())
                == Ok::<((int, int), int), LoadError>(
                ((dims.0 as int, dims.1 as int), final(c).position()),
            ),
            Err(e) => spec_header(old(c).bytes(), old(c).position())
                == Err::<((int, int), int), LoadError>(e),
        },
{
    match skip_paragraph(c) {
        Ok(_) => {},
        Err(e) => {
            return Err(e);
        },
    }
    let parser = match DimParser::new(c) {
        Ok(p) => p,
        Err(e) => {
            return Err(e);
        },
    };
    parser.parse(c)
}

} // verus!
