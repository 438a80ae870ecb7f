//! The loader: header parsing followed by scanline decoding, either for a
//! whole image at once or one scanline at a time.

use vstd::prelude::*;

use crate::cursor::ByteCursor;
use crate::decode::{decode_scanline, spec_scanline};
use crate::header::{expect_magic, parse_header, spec_header, spec_magic};
use crate::{Image, LoadError, Rgbe};

verus! {

/// `rows` scanlines of length `width`, decoded back to back.
pub open spec fn spec_rows(s: Seq<u8>, i: int, width: int, rows: int) -> Result<
    (Seq<Rgbe>, int),
    LoadError,
>
    decreases rows,
{
    if rows <= 0 {
        Ok((Seq::empty(), i))
    } else {
        match spec_scanline(s, i, width) {
            Err(e) => Err(e),
            Ok((pix, j)) => match spec_rows(s, j, width, rows - 1) {
                Err(e) => Err(e),
                Ok((rest, k)) => Ok((pix + rest, k)),
            },
        }
    }
}

/// The magic signature followed by the header: the dimensions and the
/// position of the first pixel-data byte.
pub open spec fn spec_prelude(s: Seq<u8>, i: int) -> Result<((int, int), int), LoadError> {
    match spec_magic(s, i) {
        Err(e) => Err(e),
        Ok(_) => spec_header(s, i + 10),
    }
}

/// The pixel data of an image of known dimensions: the pixel count must
/// fit the length type, then the rows follow.
pub open spec fn spec_body(s: Seq<u8>, i: int, width: int, height: int) -> Result<
    (Seq<Rgbe>, int),
    LoadError,
> {
    if width * height > usize::MAX as int {
        Err(LoadError::Header)
    } else {
        spec_rows(s, i, width, height)
    }
}

/// A whole image: magic signature, header, and pixel data.  Returns the
/// dimensions, the pixels in row-major order, and the position of the
/// first byte after the image; trailing bytes are not inspected.
pub open spec fn spec_load(s: Seq<u8>, i: int) -> Result<((int, int, Seq<Rgbe>), int), LoadError> {
    match spec_prelude(s, i) {
        Err(e) => Err(e),
        Ok(((w, h), j)) => match spec_body(s, j, w, h) {
            Err(e) => Err(e),
            Ok((pix, k)) => Ok(((w, h, pix), k)),
        },
    }
}

/// Decode `height` scanlines of length `width` into one flat buffer, top
/// row first.
pub(crate) fn load_rows(c: &mut ByteCursor, width: usize, height: usize) -> (r: Result<
    Vec<Rgbe>,
    LoadError,
>)
    requires
        old(c).wf(),
        width * height <= usize::MAX,
    ensures
        final(c).wf(),
        final(c).bytes() == old(c).bytes(),
        match r {
            Ok(data) => data@.len() == width * height && spec_rows(
                old(c).bytes(),
                old(c).position(),
                width as int,
                height as int,
            ) == Ok::<(Seq<Rgbe>, int), LoadError>((data@, final(c).position())),
            Err(e) => spec_rows(old(c).bytes(), old(c).position(), width as int, height as int)
                == Err::<(Seq<Rgbe>, int), LoadError>(e),
        },
{
    let ghost s = c.bytes();
    let ghost start = c.position();
    let mut data: Vec<Rgbe> = Vec::new();
    let mut row: Vec<Rgbe> = Vec::new();
    let mut k: usize = 0;
    while k < width
        invariant
            k <= width,
            row@.len() == k,
        decreases width - k,
    {
        row.push(Rgbe { r: 0, g: 0, b: 0, e: 0 });
        k = k + 1;
    }
    let mut y: usize = 0;
    while y < height
        invariant
            c.wf(),
            s == old(c).bytes(),
            start == old(c).position(),
            c.bytes() == s,
            y <= height,
            width * height <= usize::MAX,
            row@.len() == width,
            data@.len() == y * width,
            spec_rows(s, start, width as int, height as int) == (match spec_rows(
                s,
                c.position(),
                width as int,
                height - y,
            ) {
                Ok((rest, end)) => Ok::<(Seq<Rgbe>, int), LoadError>((data@ + rest, end)),
                Err(e) => Err::<(Seq<Rgbe>, int), LoadError>(e),
            }),
        decreases height - y,
    {
        let ghost pre_pos = c.position();
        let ghost data_pre = data@;
        match decode_scanline(c, &mut row, width) {
            Ok(_) => {},
            Err(e) => {
                return Err(e);
            },
        }
        let ghost pix = row@.subrange(0, width as int);
        let mut k: usize = 0;
        while k < width
            invariant
                k <= width,
                row@.len() == width,
                data@ == data_pre + row@.subrange(0, k as int),
            decreases width - k,
        {
            let px = row[k];
            data.push(px);
            proof {
                assert(data@ =~= data_pre + row@.subrange(0, (k + 1) as int));
            }
            k = k + 1;
        }
        proof {
            assert(data@.len() == y * width + width);
            assert((y + 1) * width == y * width + width) by (nonlinear_arith);
            assert((y + 1) * width <= height * width) by (nonlinear_arith)
                requires
                    y + 1 <= height,
                    width >= 0,
            ;
            assert(height * width == width * height) by (nonlinear_arith);
            let rows_left = height - y;
            let r2 = spec_rows(s, c.position(), width as int, rows_left - 1);
            if r2 is Ok {
                let (rest, end) = r2->Ok_0;
                assert((data_pre + pix) + rest =~= data_pre + (pix + rest));
            }
        }
        y = y + 1;
    }
    proof {
        assert(data@ + Seq::<Rgbe>::empty() =~= data@);
        assert(height * width == width * height) by (nonlinear_arith);
    }
    Ok(data)
}

/// An image whose header has been read: the dimensions are known and the
/// cursor stands at the first pixel-data byte.
pub struct Loader {
    /// The width of the image, in pixels.
    pub width: usize,
    /// The height of the image, in pixels.
    pub height: usize,
    cursor: ByteCursor,
}

impl Loader {
    /// The cursor as header parsing left it.
    pub closed spec fn cur(&self) -> ByteCursor {
        self.cursor
    }

    /// The width field, for contracts.
    pub closed spec fn spec_width(&self) -> usize {
        self.width
    }

    /// The height field, for contracts.
    pub closed spec fn spec_height(&self) -> usize {
        self.height
    }

    /// The loader's cursor is well formed.
    pub open spec fn wf(&self) -> bool {
        self.cur().wf()
    }

    /// Consume the magic signature and the header from the cursor.
    pub fn new(cursor: ByteCursor) -> (r: Result<Loader, LoadError>)
        requires
            cursor.wf(),
        ensures
            match r {
                Ok(l) => l.wf() && l.cur().bytes() == cursor.bytes() && spec_prelude(
                    cursor.bytes(),
                    cursor.position(),
                ) == Ok::<((int, int), int), LoadError>(
                    ((l.spec_width() as int, l.spec_height() as int), l.cur().position()),
                ),
                Err(e) => spec_prelude(cursor.bytes(), cursor.position()) == Err::<
                    ((int, int), int),
                    LoadError,
                >(e),
            },
    {
        let mut c = cursor;
        match expect_magic(&mut c) {
            Ok(_) => {},
            Err(e) => {
                return Err(e);
            },
        }
        let dims = match parse_header(&mut c) {
            Ok(d) => d,
            Err(e) => {
                return Err(e);
            },
        };
        Ok(Loader { width: dims.0, height: dims.1, cursor: c })
    }

    /// Switch to decoding the image one scanline at a time.
    pub fn scanlines(self) -> (r: ScanlinesLoader)
        ensures
            r.spec_width() == self.spec_width(),
            r.spec_height() == self.spec_height(),
            r.cur() == self.cur(),
    {
        ScanlinesLoader { width: self.width, height: self.height, cursor: self.cursor }
    }

    /// Decode the whole image at once.
    pub fn load_image(self) -> (r: Result<Image, LoadError>)
        requires
            self.wf(),
        ensures
            match r {
                Ok(img) => img.wf() && img.width == self.spec_width() && img.height
                    == self.spec_height() && (spec_body(
                    self.cur().bytes(),
                    self.cur().position(),
                    self.spec_width() as int,
                    self.spec_height() as int,
                ) matches Ok(pair) && pair.0 == img.data@),
                Err(e) => spec_body(
                    self.cur().bytes(),
                    self.cur().position(),
                    self.spec_width() as int,
                    self.spec_height() as int,
                ) == Err::<(Seq<Rgbe>, int), LoadError>(e),
            },
    {
        let Loader { width, height, cursor } = self;
        let mut c = cursor;
        if width.checked_mul(height).is_none() {
            return Err(LoadError::Header);
        }
        let data = match load_rows(&mut c, width, height) {
            Ok(d) => d,
            Err(e) => {
                return Err(e);
            },
        };
        Ok(Image { width, height, data })
    }
}

/// An image decoded one scanline at a time into a caller-supplied buffer.
pub struct ScanlinesLoader {
    /// The width of the image, in pixels.
    pub width: usize,
    /// The height of the image, i.e. the number of scanlines.
    pub height: usize,
    cursor: ByteCursor,
}

impl ScanlinesLoader {
    /// The loader's cursor.
    pub closed spec fn cur(&self) -> ByteCursor {
        self.cursor
    }

    /// The width field, for contracts.
    pub closed spec fn spec_width(&self) -> usize {
        self.width
    }

    /// The height field, for contracts.
    pub closed spec fn spec_height(&self) -> usize {
        self.height
    }

    /// The loader's cursor is well formed.
    pub open spec fn wf(&self) -> bool {
        self.cur().wf()
    }

    /// Decode the next scanline into `scanline[..width]`.  The buffer may
    /// be longer than the image width; entries past the width are left
    /// untouched.  A buffer shorter than the width is refused without
    /// consuming any input.
    pub fn read_scanline(&mut self, scanline: &mut Vec<Rgbe>) -> (r: Result<(), LoadError>)
        requires
            old(self).wf(),
        ensures
            final(self).wf(),
            final(self).spec_width() == old(self).spec_width(),
            final(self).spec_height() == old(self).spec_height(),
            final(self).cur().bytes() == old(self).cur().bytes(),
            final(scanline).len() == old(scanline).len(),
            forall|j: int|
                old(self).spec_width() <= j < old(scanline).len() ==> final(scanline)@[j] == old(
                    scanline,
                )@[j],
            match r {
                Ok(_) => old(scanline).len() >= old(self).spec_width() && spec_scanline(
                    old(self).cur().bytes(),
                    old(self).cur().position(),
                    old(self).spec_width() as int,
                ) == Ok::<(Seq<Rgbe>, int), LoadError>(
                    (
                        final(scanline)@.subrange(0, old(self).spec_width() as int),
                        final(self).cur().position(),
                    ),
                ),
                Err(e) => if old(scanline).len() < old(self).spec_width() {
                    e == LoadError::InvalidInput && *final(self) == *old(self) && *final(scanline)
                        == *old(scanline)
                } else {
                    spec_scanline(
                        old(self).cur().bytes(),
                        old(self).cur().position(),
                        old(self).spec_width() as int,
                    ) == Err::<(Seq<Rgbe>, int), LoadError>(e)
                },
            },
    {
        if scanline.len() < self.width {
            return Err(LoadError::InvalidInput);
        }
        decode_scanline(&mut self.cursor, scanline, self.width)
    }
}

} // verus!
