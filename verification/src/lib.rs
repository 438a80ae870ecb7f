//! Decoder for Radiance HDR (`.hdr`, `.pic`) radiance-map images.
//!
//! The decoder reads an in-memory byte stream through a [`ByteCursor`] and
//! produces an [`Image`]: the image dimensions together with a flat,
//! row-major buffer of raw [`Rgbe`] pixels (three mantissa bytes and a
//! shared exponent byte).  Converting an [`Rgbe`] pixel to floating-point
//! radiance values is left to the caller, since that step is a pure
//! per-pixel formula with no further structure to check.

use vstd::prelude::*;

pub mod cursor;
pub mod decode;
pub mod header;
pub mod laws;
pub mod loader;

pub use cursor::ByteCursor;
pub use loader::{Loader, ScanlinesLoader};

verus! {

/// The kinds of failure that can occur while decoding an image.
#[derive(Clone, Copy, Debug, PartialEq, Eq, Structural)]
pub enum LoadError {
    /// The input ended before the expected structure was complete.
    Eof,
    /// The magic signature at the start of the stream is wrong.
    FileFormat,
    /// The resolution line violates the header grammar, or the stated
    /// dimensions overflow the addressable length type.
    Header,
    /// A run length would write past the end of a scanline.
    Rle,
    /// A caller-supplied scanline buffer is shorter than the image width.
    InvalidInput,
}

/// A raw pixel as stored in the stream: red, green and blue mantissas and
/// a shared exponent byte.  The radiance of a channel with mantissa `m`
/// and exponent `e` is `m * 2^(e - 128) / 255`.
#[derive(Clone, Copy, Debug, PartialEq, Eq, Structural)]
pub struct Rgbe {
    /// The red mantissa.
    pub r: u8,
    /// The green mantissa.
    pub g: u8,
    /// The blue mantissa.
    pub b: u8,
    /// The shared exponent byte.
    pub e: u8,
}

/// Whether a quadruplet is the old-format repeat marker: all three
/// mantissas equal to one.
pub open spec fn spec_is_rle_marker(p: Rgbe) -> bool {
    p.r == 1 && p.g == 1 && p.b == 1
}

/// Whether a quadruplet is the new-format scanline sentinel: red and green
/// equal to two and the high bit of blue clear.
pub open spec fn spec_is_new_decrunch_marker(p: Rgbe) -> bool {
    p.r == 2 && p.g == 2 && p.b < 128
}

impl Rgbe {
    /// Build a pixel from its four bytes.
    pub fn new(r: u8, g: u8, b: u8, e: u8) -> (p: Self)
        ensures
            p == (Rgbe { r, g, b, e }),
    {
        Rgbe { r, g, b, e }
    }

    /// Whether this quadruplet is the old-format repeat marker.
    pub fn is_rle_marker(&self) -> (m: bool)
        ensures
            m == spec_is_rle_marker(*self),
    {
        self.r == 1 && self.g == 1 && self.b == 1
    }

    /// Whether this quadruplet is the new-format scanline sentinel.
    pub fn is_new_decrunch_marker(&self) -> (m: bool)
        ensures
            m == spec_is_new_decrunch_marker(*self),
    {
        let high_clear = self.b & 128 == 0;
        proof {
            let b = self.b;
            assert(b & 128 == 0 <==> b < 128) by (bit_vector);
        }
        self.r == 2 && self.g == 2 && high_clear
    }
}

/// A decoded image: its dimensions and a flat pixel buffer in row-major
/// order, the top row first.
#[derive(Debug)]
pub struct Image {
    /// The width of the image, in pixels.
    pub width: usize,
    /// The height of the image, in pixels.
    pub height: usize,
    /// The decoded pixels, `width * height` of them.
    pub data: Vec<Rgbe>,
}

impl Image {
    /// The pixel buffer holds exactly one pixel per coordinate.
    pub open spec fn wf(&self) -> bool {
        self.data@.len() == self.width * self.height
    }

    /// The offset into the pixel buffer of the pixel at `(x, y)`.
    pub fn pixel_offset(&self, x: usize, y: usize) -> (off: usize)
        requires
            self.wf(),
            x < self.width,
            y < self.height,
        ensures
            off == y * self.width + x,
            off < self.data@.len(),
    {
        let n = self.data.len();
        proof {
            assert(y * self.width + x < self.width * self.height) by (nonlinear_arith)
                requires
                    x < self.width,
                    y < self.height,
            ;
            assert(self.width * y == y * self.width) by (nonlinear_arith);
            assert(self.width * y + x < n);
        }
        self.width * y + x
    }

    /// The pixel at `(x, y)`.
    pub fn pixel(&self, x: usize, y: usize) -> (p: &Rgbe)
        requires
            self.wf(),
            x < self.width,
            y < self.height,
        ensures
            *p == self.data@[y * self.width + x],
    {
        let offset = self.pixel_offset(x, y);
        &self.data[offset]
    }
}

/// Decode one whole image from the cursor.  On success the cursor stands
/// right after the consumed bytes, so another image can be decoded from
/// the same cursor; on failure its position is unspecified.
pub fn load(cursor: &mut ByteCursor) -> (r: Result<Image, LoadError>)
    requires
        old(cursor).wf(),
    ensures
        final(cursor).wf(),
        final(cursor).bytes() == old(cursor).bytes(),
        match r {
            Ok(img) => img.wf() && loader::spec_load(old(cursor).bytes(), old(cursor).position())
                == Ok::<((int, int, Seq<Rgbe>), int), LoadError>(
                (
                    (img.width as int, img.height as int, img.data@),
                    final(cursor).position(),
                ),
            ),
            Err(e) => loader::spec_load(old(cursor).bytes(), old(cursor).position()) == Err::<
                ((int, int, Seq<Rgbe>), int),
                LoadError,
            >(e),
        },
{
    match header::expect_magic(cursor) {
        Ok(_) => {},
        Err(e) => {
            return Err(e);
        },
    }
    let dims = match header::parse_header(cursor) {
        Ok(d) => d,
        Err(e) => {
            return Err(e);
        },
    };
    let width = dims.0;
    let height = dims.1;
    if width.checked_mul(height).is_none() {
        return Err(LoadError::Header);
    }
    let data = match loader::load_rows(cursor, width, height) {
        Ok(d) => d,
        Err(e) => {
            return Err(e);
        },
    };
    Ok(Image { width, height, data })
}

} // verus!
