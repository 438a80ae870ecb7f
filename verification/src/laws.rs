//! Laws the decoder obeys, stated over the spec-level decoding functions
//! and proved once and for all.

use vstd::prelude::*;

use vstd::arithmetic::power2::pow2;

use crate::decode::{
    spec_channel, spec_new_rle, spec_old_rle, spec_rgbe_at, spec_scanline,
};
use crate::header::{magic_bytes, spec_digits, spec_dims, spec_number};
use crate::loader::{spec_load, spec_rows};
use crate::{spec_is_rle_marker, LoadError, Rgbe};

verus! {

/// Old-format decoding fills the scanline exactly: whenever it succeeds
/// starting from at most `target` pixels, it ends with exactly `target`
/// pixels, and the stream position does not move backwards.
pub proof fn lemma_old_rle_len(s: Seq<u8>, i: int, acc: Seq<Rgbe>, target: int, l_shift: int)
    requires
        acc.len() <= target,
        spec_old_rle(s, i, acc, target, l_shift) is Ok,
    ensures
        spec_old_rle(s, i, acc, target, l_shift)->Ok_0.0.len() == target,
        i <= spec_old_rle(s, i, acc, target, l_shift)->Ok_0.1,
    decreases s.len() - i,
{
    if acc.len() >= target {
    } else {
        let p = spec_rgbe_at(s, i);
        if spec_is_rle_marker(p) {
            let count = p.e * pow2(l_shift as nat);
            lemma_old_rle_len(
                s,
                i + 4,
                acc + Seq::new(count as nat, |k: int| acc.last()),
                target,
                l_shift + 8,
            );
        } else {
            lemma_old_rle_len(s, i + 4, acc.push(p), target, 0);
        }
    }
}

/// New-format channel decoding fills the plane exactly: whenever it
/// succeeds starting from at most `target` bytes, it ends with exactly
/// `target` bytes, and the stream position does not move backwards.
pub proof fn lemma_channel_len(s: Seq<u8>, i: int, acc: Seq<u8>, target: int)
    requires
        acc.len() <= target,
        spec_channel(s, i, acc, target) is Ok,
    ensures
        spec_channel(s, i, acc, target)->Ok_0.0.len() == target,
        i <= spec_channel(s, i, acc, target)->Ok_0.1,
    decreases s.len() - i,
{
    if acc.len() >= target {
    } else {
        let code = s[i] as int;
        if code > 128 {
            lemma_channel_len(
                s,
                i + 2,
                acc + Seq::new((code - 128) as nat, |k: int| s[i + 1]),
                target,
            );
        } else {
            lemma_channel_len(s, i + 1 + code, acc + s.subrange(i + 1, i + 1 + code), target);
        }
    }
}

/// A successfully decoded scanline holds exactly `width` pixels, and the
/// stream position does not move backwards.
pub proof fn lemma_scanline_len(s: Seq<u8>, i: int, width: int)
    requires
        0 <= width,
        spec_scanline(s, i, width) is Ok,
    ensures
        spec_scanline(s, i, width)->Ok_0.0.len() == width,
        i <= spec_scanline(s, i, width)->Ok_0.1,
{
    if width == 0 {
    } else {
        let p = spec_rgbe_at(s, i);
        if 8 <= width <= 32767 && crate::spec_is_new_decrunch_marker(p) {
            let (rp, i1) = spec_channel(s, i + 4, Seq::empty(), width)->Ok_0;
            lemma_channel_len(s, i + 4, Seq::empty(), width);
            let (gp, i2) = spec_channel(s, i1, Seq::empty(), width)->Ok_0;
            lemma_channel_len(s, i1, Seq::empty(), width);
            let (bp, i3) = spec_channel(s, i2, Seq::empty(), width)->Ok_0;
            lemma_channel_len(s, i2, Seq::empty(), width);
            let (ep, i4) = spec_channel(s, i3, Seq::empty(), width)->Ok_0;
            lemma_channel_len(s, i3, Seq::empty(), width);
        } else {
            lemma_old_rle_len(s, i + 4, seq![p], width, 0);
        }
    }
}

/// Decoding `rows` scanlines of length `width` yields exactly
/// `width * rows` pixels, and the stream position does not move backwards.
pub proof fn lemma_rows_len(s: Seq<u8>, i: int, width: int, rows: int)
    requires
        0 <= width,
        spec_rows(s, i, width, rows) is Ok,
    ensures
        rows >= 0 ==> spec_rows(s, i, width, rows)->Ok_0.0.len() == width * rows,
        rows <= 0 ==> spec_rows(s, i, width, rows)->Ok_0.0.len() == 0,
    decreases rows,
{
    if rows <= 0 {
        if rows == 0 {
            assert(width * rows == 0);
        }
    } else {
        let (pix, j) = spec_scanline(s, i, width)->Ok_0;
        lemma_scanline_len(s, i, width);
        lemma_rows_len(s, j, width, rows - 1);
        assert(width + width * (rows - 1) == width * rows) by (nonlinear_arith);
    }
}

/// Every digit-by-digit accumulated number is non-negative.
proof fn lemma_digits_nonneg(s: Seq<u8>, i: int, acc: int)
    requires
        0 <= acc,
        0 <= i < s.len(),
        crate::header::spec_is_digit(s[i]),
        spec_digits(s, i, acc) is Ok,
    ensures
        spec_digits(s, i, acc)->Ok_0.0 >= 0,
    decreases s.len() - i,
{
    let v = acc * 10 + (s[i] - 48);
    if !(i + 1 >= s.len()) && crate::header::spec_is_digit(s[i + 1]) {
        lemma_digits_nonneg(s, i + 1, v);
    }
}

/// Dimensions read from a header are non-negative.
pub proof fn lemma_dims_nonneg(s: Seq<u8>, i: int)
    requires
        spec_dims(s, i) is Ok,
    ensures
        spec_dims(s, i)->Ok_0.0.0 >= 0,
        spec_dims(s, i)->Ok_0.0.1 >= 0,
{
    let i1 = crate::header::spec_skip_spaces(s, i)->Ok_0;
    let (h, i2) = crate::header::spec_expect_y(s, i1)->Ok_0;
    let j2 = crate::header::spec_expect2(s, i1, 45, 89)->Ok_0;
    let k2 = crate::header::spec_expect_spaces(s, j2)->Ok_0;
    lemma_digits_nonneg(s, k2, 0);
    let i3 = crate::header::spec_expect_spaces(s, i2)->Ok_0;
    let j4 = crate::header::spec_expect2(s, i3, 43, 88)->Ok_0;
    let k4 = crate::header::spec_expect_spaces(s, j4)->Ok_0;
    lemma_digits_nonneg(s, k4, 0);
}

/// A successfully loaded image is exactly as large as its dimensions say:
/// the pixel buffer holds `width * height` pixels, laid out row-major.
pub proof fn lemma_load_size(s: Seq<u8>, i: int)
    requires
        spec_load(s, i) is Ok,
    ensures
        ({
            let ((w, h, pix), j) = spec_load(s, i)->Ok_0;
            0 <= w && 0 <= h && pix.len() == w * h && w * h <= usize::MAX
        }),
{
    let ((w, h), j) = crate::loader::spec_prelude(s, i)->Ok_0;
    let j0 = crate::header::spec_skip_paragraph(s, i + 10)->Ok_0;
    lemma_dims_nonneg(s, j0);
    lemma_rows_len(s, j, w, h);
    assert(w * h == h * w) by (nonlinear_arith);
}

/// The length gate is authoritative: a non-empty scanline whose length
/// lies outside the range trusted for the new-format sentinel is decoded
/// as old format, whatever its first four bytes hold.
pub proof fn lemma_length_gate_forces_old_format(s: Seq<u8>, i: int, width: int)
    requires
        0 < width < 8 || 32767 < width,
        0 <= i,
        i + 4 <= s.len(),
    ensures
        spec_scanline(s, i, width) == spec_old_rle(s, i + 4, seq![spec_rgbe_at(s, i)], width, 0),
{
}

/// A stream that does not open with the magic signature fails as a
/// file-format error, whatever follows; header parsing is never reached.
pub proof fn lemma_bad_magic_fails(s: Seq<u8>, i: int)
    requires
        0 <= i,
        i + 10 <= s.len(),
        s.subrange(i, i + 10) != magic_bytes(),
    ensures
        spec_load(s, i) == Err::<((int, int, Seq<Rgbe>), int), LoadError>(LoadError::FileFormat),
{
}

/// An old-format scanline of eight copies of the pixel `(255, 255, 255, e)`:
/// eight literal quadruplets.
pub open spec fn old_white_line(e: u8) -> Seq<u8> {
    Seq::new(32, |k: int| if k % 4 == 3 { e } else { 255u8 })
}

/// A new-format scanline of the same eight pixels: the sentinel, then one
/// run of eight per channel plane.
pub open spec fn new_white_line(e: u8) -> Seq<u8> {
    seq![2u8, 2u8, 8u8, 0u8, 136u8, 255u8, 136u8, 255u8, 136u8, 255u8, 136u8, e]
}

/// The two encodings agree: a scanline of pixels `(255, 255, 255, e)`
/// decodes to the same pixels through the old-format path and through the
/// new-format path, for every exponent byte.
pub proof fn lemma_format_agreement(e: u8)
    ensures
        ({
            let pix = Seq::new(8, |k: int| Rgbe { r: 255, g: 255, b: 255, e: e });
            &&& spec_scanline(old_white_line(e), 0, 8) == Ok::<(Seq<Rgbe>, int), LoadError>(
                (pix, 32),
            )
            &&& spec_scanline(new_white_line(e), 0, 8) == Ok::<(Seq<Rgbe>, int), LoadError>(
                (pix, 12),
            )
        }),
{
    let pix = Seq::new(8, |k: int| Rgbe { r: 255, g: 255, b: 255, e: e });
    let p = Rgbe { r: 255, g: 255, b: 255, e: e };
    let ob = old_white_line(e);
    assert(pix.take(1) =~= seq![p]);
    assert(pix.take(2) =~= pix.take(1).push(p));
    assert(pix.take(3) =~= pix.take(2).push(p));
    assert(pix.take(4) =~= pix.take(3).push(p));
    assert(pix.take(5) =~= pix.take(4).push(p));
    assert(pix.take(6) =~= pix.take(5).push(p));
    assert(pix.take(7) =~= pix.take(6).push(p));
    assert(pix.take(8) =~= pix.take(7).push(p));
    assert(pix.take(8) =~= pix);
    assert(spec_old_rle(ob, 4, pix.take(1), 8, 0) == spec_old_rle(ob, 8, pix.take(2), 8, 0));
    assert(spec_old_rle(ob, 8, pix.take(2), 8, 0) == spec_old_rle(ob, 12, pix.take(3), 8, 0));
    assert(spec_old_rle(ob, 12, pix.take(3), 8, 0) == spec_old_rle(ob, 16, pix.take(4), 8, 0));
    assert(spec_old_rle(ob, 16, pix.take(4), 8, 0) == spec_old_rle(ob, 20, pix.take(5), 8, 0));
    assert(spec_old_rle(ob, 20, pix.take(5), 8, 0) == spec_old_rle(ob, 24, pix.take(6), 8, 0));
    assert(spec_old_rle(ob, 24, pix.take(6), 8, 0) == spec_old_rle(ob, 28, pix.take(7), 8, 0));
    assert(spec_old_rle(ob, 28, pix.take(7), 8, 0) == spec_old_rle(ob, 32, pix.take(8), 8, 0));
    assert(spec_old_rle(ob, 32, pix.take(8), 8, 0) == Ok::<(Seq<Rgbe>, int), LoadError>(
        (pix.take(8), 32),
    ));
    assert(spec_scanline(ob, 0, 8) == Ok::<(Seq<Rgbe>, int), LoadError>((pix, 32)));

    let nb = new_white_line(e);
    let white = Seq::new(8, |k: int| 255u8);
    let expos = Seq::new(8, |k: int| e);
    assert(spec_rgbe_at(nb, 0) == (Rgbe { r: 2, g: 2, b: 8, e: 0 }));
    assert(Seq::<u8>::empty() + Seq::new(8, |k: int| nb[5]) =~= white);
    assert(Seq::<u8>::empty() + Seq::new(8, |k: int| nb[7]) =~= white);
    assert(Seq::<u8>::empty() + Seq::new(8, |k: int| nb[9]) =~= white);
    assert(Seq::<u8>::empty() + Seq::new(8, |k: int| nb[11]) =~= expos);
    assert(spec_channel(nb, 6, white, 8) == Ok::<(Seq<u8>, int), LoadError>((white, 6)));
    assert(spec_channel(nb, 4, Seq::empty(), 8) == Ok::<(Seq<u8>, int), LoadError>((white, 6)));
    assert(spec_channel(nb, 8, white, 8) == Ok::<(Seq<u8>, int), LoadError>((white, 8)));
    assert(spec_channel(nb, 6, Seq::empty(), 8) == Ok::<(Seq<u8>, int), LoadError>((white, 8)));
    assert(spec_channel(nb, 10, white, 8) == Ok::<(Seq<u8>, int), LoadError>((white, 10)));
    assert(spec_channel(nb, 8, Seq::empty(), 8) == Ok::<(Seq<u8>, int), LoadError>((white, 10)));
    assert(spec_channel(nb, 12, expos, 8) == Ok::<(Seq<u8>, int), LoadError>((expos, 12)));
    assert(spec_channel(nb, 10, Seq::empty(), 8) == Ok::<(Seq<u8>, int), LoadError>((expos, 12)));
    assert(Seq::new(8, |j: int| Rgbe { r: white[j], g: white[j], b: white[j], e: expos[j] })
        =~= pix);
    assert(spec_new_rle(nb, 4, 8) == Ok::<(Seq<Rgbe>, int), LoadError>((pix, 12)));
    assert(spec_scanline(nb, 0, 8) == Ok::<(Seq<Rgbe>, int), LoadError>((pix, 12)));
}

/// An old-format repeat whose count would write past the end of the
/// scanline fails as an encoding error; it never truncates or wraps.
pub proof fn lemma_old_run_past_end_is_rle(
    s: Seq<u8>,
    i: int,
    acc: Seq<Rgbe>,
    target: int,
    l_shift: int,
)
    requires
        acc.len() < target,
        0 <= i,
        i + 4 <= s.len(),
        spec_is_rle_marker(spec_rgbe_at(s, i)),
        0 <= l_shift,
        acc.len() + spec_rgbe_at(s, i).e * pow2(l_shift as nat) > target,
    ensures
        spec_old_rle(s, i, acc, target, l_shift) == Err::<(Seq<Rgbe>, int), LoadError>(
            LoadError::Rle,
        ),
{
}

/// A new-format run whose count would write past the end of the scanline
/// fails as an encoding error; it never truncates or wraps.
pub proof fn lemma_new_run_past_end_is_rle(s: Seq<u8>, i: int, acc: Seq<u8>, target: int)
    requires
        acc.len() < target,
        0 <= i,
        i + 2 <= s.len(),
        s[i] > 128,
        acc.len() + (s[i] - 128) > target,
    ensures
        spec_channel(s, i, acc, target) == Err::<(Seq<u8>, int), LoadError>(LoadError::Rle),
{
}

/// A new-format literal run whose available bytes would write past the
/// end of the scanline fails as an encoding error; it never truncates or
/// wraps.
pub proof fn lemma_new_literal_past_end_is_rle(s: Seq<u8>, i: int, acc: Seq<u8>, target: int)
    requires
        acc.len() < target,
        0 <= i,
        i < s.len(),
        s[i] <= 128,
        ({
            let code = s[i] as int;
            let avail = s.len() - (i + 1);
            let take = if avail < code {
                avail
            } else {
                code
            };
            acc.len() + take > target
        }),
    ensures
        spec_channel(s, i, acc, target) == Err::<(Seq<u8>, int), LoadError>(LoadError::Rle),
{
}

/// Bytes of `s` keep their values when `s` is embedded between `a` and `t`.
proof fn lemma_ext_index(a: Seq<u8>, s: Seq<u8>, t: Seq<u8>, k: int)
    requires
        0 <= k < s.len(),
    ensures
        (a + s + t)[a.len() + k] == s[k],
{
}

/// Subranges of `s` keep their values when `s` is embedded between `a`
/// and `t`.
proof fn lemma_ext_subrange(a: Seq<u8>, s: Seq<u8>, t: Seq<u8>, lo: int, hi: int)
    requires
        0 <= lo <= hi <= s.len(),
    ensures
        (a + s + t).subrange(a.len() + lo, a.len() + hi) == s.subrange(lo, hi),
{
    assert((a + s + t).subrange(a.len() + lo, a.len() + hi) =~= s.subrange(lo, hi));
}

/// Space skipping reads only the bytes up to its result.
proof fn lemma_skip_spaces_frame(a: Seq<u8>, s: Seq<u8>, t: Seq<u8>, i: int)
    requires
        0 <= i,
        crate::header::spec_skip_spaces(s, i) is Ok,
    ensures
        ({
            let j = crate::header::spec_skip_spaces(s, i)->Ok_0;
            i <= j < s.len() && crate::header::spec_skip_spaces(a + s + t, a.len() + i)
                == Ok::<int, LoadError>(a.len() + j)
        }),
    decreases s.len() - i,
{
    lemma_ext_index(a, s, t, i);
    if s[i] != 32 {
    } else {
        lemma_skip_spaces_frame(a, s, t, i + 1);
    }
}

/// Token matching reads only the bytes up to its result.
proof fn lemma_expect2_frame(a: Seq<u8>, s: Seq<u8>, t: Seq<u8>, i: int, b0: u8, b1: u8)
    requires
        0 <= i,
        crate::header::spec_expect2(s, i, b0, b1) is Ok,
    ensures
        ({
            let j = crate::header::spec_expect2(s, i, b0, b1)->Ok_0;
            i <= j < s.len() && crate::header::spec_expect2(a + s + t, a.len() + i, b0, b1)
                == Ok::<int, LoadError>(a.len() + j)
        }),
{
    lemma_ext_index(a, s, t, i);
    lemma_ext_index(a, s, t, i + 1);
}

/// Mandatory space skipping reads only the bytes up to its result.
proof fn lemma_expect_spaces_frame(a: Seq<u8>, s: Seq<u8>, t: Seq<u8>, i: int)
    requires
        0 <= i,
        crate::header::spec_expect_spaces(s, i) is Ok,
    ensures
        ({
            let j = crate::header::spec_expect_spaces(s, i)->Ok_0;
            i <= j < s.len() && crate::header::spec_expect_spaces(a + s + t, a.len() + i)
                == Ok::<int, LoadError>(a.len() + j)
        }),
{
    lemma_ext_index(a, s, t, i);
    lemma_skip_spaces_frame(a, s, t, i);
}

/// Digit accumulation reads only the bytes up to its result.
proof fn lemma_digits_frame(a: Seq<u8>, s: Seq<u8>, t: Seq<u8>, i: int, acc: int)
    requires
        0 <= i,
        spec_digits(s, i, acc) is Ok,
    ensures
        ({
            let (v, j) = spec_digits(s, i, acc)->Ok_0;
            i < j < s.len() && spec_digits(a + s + t, a.len() + i, acc) == Ok::<
                (int, int),
                LoadError,
            >((v, a.len() + j))
        }),
    decreases s.len() - i,
{
    lemma_ext_index(a, s, t, i);
    lemma_ext_index(a, s, t, i + 1);
    let v = acc * 10 + (s[i] - 48);
    if crate::header::spec_is_digit(s[i + 1]) {
        lemma_digits_frame(a, s, t, i + 1, v);
    }
}

/// Number parsing reads only the bytes up to its result.
proof fn lemma_number_frame(a: Seq<u8>, s: Seq<u8>, t: Seq<u8>, i: int)
    requires
        0 <= i,
        spec_number(s, i) is Ok,
    ensures
        ({
            let (v, j) = spec_number(s, i)->Ok_0;
            i < j < s.len() && spec_number(a + s + t, a.len() + i) == Ok::<(int, int), LoadError>(
                (v, a.len() + j),
            )
        }),
{
    lemma_ext_index(a, s, t, i);
    lemma_digits_frame(a, s, t, i, 0);
}

/// Parsing the height token group reads only the bytes up to its result.
proof fn lemma_expect_y_frame(a: Seq<u8>, s: Seq<u8>, t: Seq<u8>, i: int)
    requires
        0 <= i,
        crate::header::spec_expect_y(s, i) is Ok,
    ensures
        ({
            let (v, j) = crate::header::spec_expect_y(s, i)->Ok_0;
            i < j < s.len() && crate::header::spec_expect_y(a + s + t, a.len() + i) == Ok::<
                (int, int),
                LoadError,
            >((v, a.len() + j))
        }),
{
    lemma_expect2_frame(a, s, t, i, 45, 89);
    let j1 = crate::header::spec_expect2(s, i, 45, 89)->Ok_0;
    lemma_expect_spaces_frame(a, s, t, j1);
    let j2 = crate::header::spec_expect_spaces(s, j1)->Ok_0;
    lemma_number_frame(a, s, t, j2);
}

/// Parsing the width token group reads only the bytes up to its result.
proof fn lemma_expect_x_frame(a: Seq<u8>, s: Seq<u8>, t: Seq<u8>, i: int)
    requires
        0 <= i,
        crate::header::spec_expect_x(s, i) is Ok,
    ensures
        ({
            let (v, j) = crate::header::spec_expect_x(s, i)->Ok_0;
            i < j < s.len() && crate::header::spec_expect_x(a + s + t, a.len() + i) == Ok::<
                (int, int),
                LoadError,
            >((v, a.len() + j))
        }),
{
    lemma_expect2_frame(a, s, t, i, 43, 88);
    let j1 = crate::header::spec_expect2(s, i, 43, 88)->Ok_0;
    lemma_expect_spaces_frame(a, s, t, j1);
    let j2 = crate::header::spec_expect_spaces(s, j1)->Ok_0;
    lemma_number_frame(a, s, t, j2);
}

/// The resolution line reads only the bytes up to its result.
proof fn lemma_dims_frame(a: Seq<u8>, s: Seq<u8>, t: Seq<u8>, i: int)
    requires
        0 <= i,
        spec_dims(s, i) is Ok,
    ensures
        ({
            let (d, j) = spec_dims(s, i)->Ok_0;
            i < j <= s.len() && spec_dims(a + s + t, a.len() + i) == Ok::<
                ((int, int), int),
                LoadError,
            >((d, a.len() + j))
        }),
{
    lemma_skip_spaces_frame(a, s, t, i);
    let i1 = crate::header::spec_skip_spaces(s, i)->Ok_0;
    lemma_expect_y_frame(a, s, t, i1);
    let (h, i2) = crate::header::spec_expect_y(s, i1)->Ok_0;
    lemma_expect_spaces_frame(a, s, t, i2);
    let i3 = crate::header::spec_expect_spaces(s, i2)->Ok_0;
    lemma_expect_x_frame(a, s, t, i3);
    let (w, i4) = crate::header::spec_expect_x(s, i3)->Ok_0;
    lemma_skip_spaces_frame(a, s, t, i4);
    let i5 = crate::header::spec_skip_spaces(s, i4)->Ok_0;
    lemma_ext_index(a, s, t, i5);
}

/// Paragraph skipping reads only the bytes up to its result.
proof fn lemma_skip_paragraph_frame(a: Seq<u8>, s: Seq<u8>, t: Seq<u8>, i: int)
    requires
        0 <= i,
        crate::header::spec_skip_paragraph(s, i) is Ok,
    ensures
        ({
            let j = crate::header::spec_skip_paragraph(s, i)->Ok_0;
            i < j <= s.len() && crate::header::spec_skip_paragraph(a + s + t, a.len() + i)
                == Ok::<int, LoadError>(a.len() + j)
        }),
    decreases s.len() - i,
{
    lemma_ext_index(a, s, t, i);
    if s[i] == 10 {
        lemma_ext_index(a, s, t, i + 1);
        if s[i + 1] == 10 {
        } else {
            lemma_skip_paragraph_frame(a, s, t, i + 2);
        }
    } else {
        lemma_skip_paragraph_frame(a, s, t, i + 1);
    }
}

/// The magic check reads only its ten bytes.
proof fn lemma_magic_frame(a: Seq<u8>, s: Seq<u8>, t: Seq<u8>, i: int)
    requires
        0 <= i,
        crate::header::spec_magic(s, i) is Ok,
    ensures
        i + 10 <= s.len(),
        crate::header::spec_magic(a + s + t, a.len() + i) == Ok::<(), LoadError>(()),
{
    lemma_ext_subrange(a, s, t, i, i + 10);
}

/// The whole header reads only the bytes up to its result.
proof fn lemma_header_frame(a: Seq<u8>, s: Seq<u8>, t: Seq<u8>, i: int)
    requires
        0 <= i,
        crate::header::spec_header(s, i) is Ok,
    ensures
        ({
            let (d, j) = crate::header::spec_header(s, i)->Ok_0;
            i < j <= s.len() && crate::header::spec_header(a + s + t, a.len() + i) == Ok::<
                ((int, int), int),
                LoadError,
            >((d, a.len() + j))
        }),
{
    lemma_skip_paragraph_frame(a, s, t, i);
    let j = crate::header::spec_skip_paragraph(s, i)->Ok_0;
    lemma_dims_frame(a, s, t, j);
}

/// Old-format decoding reads only the bytes up to its result.
proof fn lemma_old_rle_frame(
    a: Seq<u8>,
    s: Seq<u8>,
    t: Seq<u8>,
    i: int,
    acc: Seq<Rgbe>,
    target: int,
    l_shift: int,
)
    requires
        0 <= i <= s.len(),
        spec_old_rle(s, i, acc, target, l_shift) is Ok,
    ensures
        ({
            let (pix, j) = spec_old_rle(s, i, acc, target, l_shift)->Ok_0;
            i <= j <= s.len() && spec_old_rle(a + s + t, a.len() + i, acc, target, l_shift)
                == Ok::<(Seq<Rgbe>, int), LoadError>((pix, a.len() + j))
        }),
    decreases s.len() - i,
{
    if acc.len() >= target {
    } else {
        lemma_ext_index(a, s, t, i);
        lemma_ext_index(a, s, t, i + 1);
        lemma_ext_index(a, s, t, i + 2);
        lemma_ext_index(a, s, t, i + 3);
        let p = spec_rgbe_at(s, i);
        assert(spec_rgbe_at(a + s + t, a.len() + i) == p);
        if spec_is_rle_marker(p) {
            let count = p.e * pow2(l_shift as nat);
            lemma_old_rle_frame(
                a,
                s,
                t,
                i + 4,
                acc + Seq::new(count as nat, |k: int| acc.last()),
                target,
                l_shift + 8,
            );
        } else {
            lemma_old_rle_frame(a, s, t, i + 4, acc.push(p), target, 0);
        }
    }
}

/// Channel-plane decoding reads only the bytes up to its result.
proof fn lemma_channel_frame(a: Seq<u8>, s: Seq<u8>, t: Seq<u8>, i: int, acc: Seq<u8>, target: int)
    requires
        0 <= i <= s.len(),
        spec_channel(s, i, acc, target) is Ok,
    ensures
        ({
            let (plane, j) = spec_channel(s, i, acc, target)->Ok_0;
            i <= j <= s.len() && spec_channel(a + s + t, a.len() + i, acc, target) == Ok::<
                (Seq<u8>, int),
                LoadError,
            >((plane, a.len() + j))
        }),
    decreases s.len() - i,
{
    if acc.len() >= target {
    } else {
        lemma_ext_index(a, s, t, i);
        let code = s[i] as int;
        if code > 128 {
            lemma_ext_index(a, s, t, i + 1);
            assert(Seq::new((code - 128) as nat, |k: int| (a + s + t)[a.len() + i + 1])
                =~= Seq::new((code - 128) as nat, |k: int| s[i + 1]));
            lemma_channel_frame(
                a,
                s,
                t,
                i + 2,
                acc + Seq::new((code - 128) as nat, |k: int| s[i + 1]),
                target,
            );
        } else {
            lemma_ext_subrange(a, s, t, i + 1, i + 1 + code);
            lemma_channel_frame(
                a,
                s,
                t,
                i + 1 + code,
                acc + s.subrange(i + 1, i + 1 + code),
                target,
            );
        }
    }
}

/// New-format decoding reads only the bytes up to its result.
proof fn lemma_new_rle_frame(a: Seq<u8>, s: Seq<u8>, t: Seq<u8>, i: int, target: int)
    requires
        0 <= i <= s.len(),
        spec_new_rle(s, i, target) is Ok,
    ensures
        ({
            let (pix, j) = spec_new_rle(s, i, target)->Ok_0;
            i <= j <= s.len() && spec_new_rle(a + s + t, a.len() + i, target) == Ok::<
                (Seq<Rgbe>, int),
                LoadError,
            >((pix, a.len() + j))
        }),
{
    lemma_channel_frame(a, s, t, i, Seq::empty(), target);
    let (rp, i1) = spec_channel(s, i, Seq::empty(), target)->Ok_0;
    lemma_channel_frame(a, s, t, i1, Seq::empty(), target);
    let (gp, i2) = spec_channel(s, i1, Seq::empty(), target)->Ok_0;
    lemma_channel_frame(a, s, t, i2, Seq::empty(), target);
    let (bp, i3) = spec_channel(s, i2, Seq::empty(), target)->Ok_0;
    lemma_channel_frame(a, s, t, i3, Seq::empty(), target);
}

/// Scanline decoding reads only the bytes up to its result.
proof fn lemma_scanline_frame(a: Seq<u8>, s: Seq<u8>, t: Seq<u8>, i: int, width: int)
    requires
        0 <= i <= s.len(),
        spec_scanline(s, i, width) is Ok,
    ensures
        ({
            let (pix, j) = spec_scanline(s, i, width)->Ok_0;
            i <= j <= s.len() && spec_scanline(a + s + t, a.len() + i, width) == Ok::<
                (Seq<Rgbe>, int),
                LoadError,
            >((pix, a.len() + j))
        }),
{
    if width == 0 {
    } else {
        lemma_ext_index(a, s, t, i);
        lemma_ext_index(a, s, t, i + 1);
        lemma_ext_index(a, s, t, i + 2);
        lemma_ext_index(a, s, t, i + 3);
        let p = spec_rgbe_at(s, i);
        assert(spec_rgbe_at(a + s + t, a.len() + i) == p);
        if 8 <= width <= 32767 && crate::spec_is_new_decrunch_marker(p) {
            lemma_new_rle_frame(a, s, t, i + 4, width);
        } else {
            lemma_old_rle_frame(a, s, t, i + 4, seq![p], width, 0);
        }
    }
}

/// Row-by-row decoding reads only the bytes up to its result.
proof fn lemma_rows_frame(a: Seq<u8>, s: Seq<u8>, t: Seq<u8>, i: int, width: int, rows: int)
    requires
        0 <= i <= s.len(),
        spec_rows(s, i, width, rows) is Ok,
    ensures
        ({
            let (pix, j) = spec_rows(s, i, width, rows)->Ok_0;
            i <= j <= s.len() && spec_rows(a + s + t, a.len() + i, width, rows) == Ok::<
                (Seq<Rgbe>, int),
                LoadError,
            >((pix, a.len() + j))
        }),
    decreases rows,
{
    if rows <= 0 {
    } else {
        lemma_scanline_frame(a, s, t, i, width);
        let (pix, j) = spec_scanline(s, i, width)->Ok_0;
        lemma_rows_frame(a, s, t, j, width, rows - 1);
    }
}

/// Decoding reads only the bytes it consumes: embedding a whole image
/// between arbitrary leading and trailing bytes shifts where it is decoded
/// from but changes neither the image nor how many bytes it takes.
pub proof fn lemma_load_frame(a: Seq<u8>, s: Seq<u8>, t: Seq<u8>, i: int)
    requires
        0 <= i,
        spec_load(s, i) is Ok,
    ensures
        ({
            let (img, j) = spec_load(s, i)->Ok_0;
            i <= j <= s.len() && spec_load(a + s + t, a.len() + i) == Ok::<
                ((int, int, Seq<Rgbe>), int),
                LoadError,
            >((img, a.len() + j))
        }),
{
    lemma_magic_frame(a, s, t, i);
    lemma_header_frame(a, s, t, i + 10);
    let ((w, h), j) = crate::header::spec_header(s, i + 10)->Ok_0;
    lemma_rows_frame(a, s, t, j, w, h);
}

/// Loading is repeatable: a buffer holding one complete image twice
/// back-to-back decodes to the same image twice, the second decode
/// beginning exactly where the first one's consumed bytes ended.
pub proof fn lemma_load_idempotent(file: Seq<u8>)
    requires
        spec_load(file, 0) is Ok,
        spec_load(file, 0)->Ok_0.1 == file.len(),
    ensures
        spec_load(file + file, 0) == Ok::<((int, int, Seq<Rgbe>), int), LoadError>(
            (spec_load(file, 0)->Ok_0.0, file.len() as int),
        ),
        spec_load(file + file, file.len() as int) == Ok::<((int, int, Seq<Rgbe>), int), LoadError>(
            (spec_load(file, 0)->Ok_0.0, file.len() + file.len() as int),
        ),
{
    lemma_load_frame(Seq::empty(), file, file, 0);
    assert(Seq::<u8>::empty() + file + file =~= file + file);
    lemma_load_frame(file, file, Seq::empty(), 0);
    assert(file + file + Seq::<u8>::empty() =~= file + file);
}

} // verus!
