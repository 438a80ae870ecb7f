//! The pixel-data decompressor: the two run-length encodings a scanline
//! can be stored in, and the dispatch between them.
//!
//! As in the header module, each spec function reads the cursor's buffer
//! at absolute positions: it takes the buffer and the position of the next
//! unread byte and returns the decoded data together with the position
//! reached.

use vstd::prelude::*;

use vstd::arithmetic::power2::pow2;

use crate::cursor::ByteCursor;
use crate::{spec_is_new_decrunch_marker, spec_is_rle_marker, LoadError, Rgbe};

verus! {

/// The quadruplet stored at position `i`.
pub open spec fn spec_rgbe_at(s: Seq<u8>, i: int) -> Rgbe {
    Rgbe { r: s[i], g: s[i + 1], b: s[i + 2], e: s[i + 3] }
}

/// Old-format run-length decoding, after the first pixel: `acc` holds the
/// pixels decoded so far (at least the scanline's first pixel), `target`
/// is the scanline length, and `l_shift` is the accumulated shift of the
/// repeat count, growing by eight for each consecutive repeat marker.
///
/// A repeat marker repeats the last decoded pixel `e * 2^l_shift` times;
/// a count that runs past the scanline, or a shift that no longer fits
/// the length type, is an encoding failure.  Any other quadruplet is a
/// literal pixel.
pub open spec fn spec_old_rle(
    s: Seq<u8>,
    i: int,
    acc: Seq<Rgbe>,
    target: int,
    l_shift: int,
) -> Result<(Seq<Rgbe>, int), LoadError>
    decreases s.len() - i,
{
    if acc.len() >= target {
        Ok((acc, i))
    } else if !(0 <= i && i + 4 <= s.len()) {
        Err(LoadError::Eof)
    } else {
        let p = spec_rgbe_at(s, i);
        if spec_is_rle_marker(p) {
            if l_shift >= usize::BITS as int {
                Err(LoadError::Rle)
            } else {
                let count = p.e * pow2(l_shift as nat);
                if acc.len() + count > target {
                    Err(LoadError::Rle)
                } else {
                    spec_old_rle(
                        s,
                        i + 4,
                        acc + Seq::new(count as nat, |k: int| acc.last()),
                        target,
                        l_shift + 8,
                    )
                }
            }
        } else {
            spec_old_rle(s, i + 4, acc.push(p), target, 0)
        }
    }
}

/// One channel plane of new-format decoding: `acc` holds the channel
/// bytes decoded so far and `target` is the scanline length.  A control
/// byte above 128 repeats the following value byte `code - 128` times; a
/// control byte of at most 128 is followed by that many raw bytes, copied
/// verbatim (zero is a legal no-op).  Writing past the scanline is an
/// encoding failure.
pub open spec fn spec_channel(
    s: Seq<u8>,
    i: int,
    acc: Seq<u8>,
    target: int,
) -> Result<(Seq<u8>, int), LoadError>
    decreases s.len() - i,
{
    if acc.len() >= target {
        Ok((acc, i))
    } else if !(0 <= i && i < s.len()) {
        Err(LoadError::Eof)
    } else {
        let code = s[i] as int;
        if code > 128 {
            if i + 2 > s.len() {
                Err(LoadError::Eof)
            } else if acc.len() + (code - 128) > target {
                Err(LoadError::Rle)
            } else {
                spec_channel(s, i + 2, acc + Seq::new((code - 128) as nat, |k: int| s[i + 1]), target)
            }
        } else {
            let avail = s.len() - (i + 1);
            let take = if avail < code {
                avail
            } else {
                code
            };
            if acc.len() + take > target {
                Err(LoadError::Rle)
            } else if avail < code {
                Err(LoadError::Eof)
            } else {
                spec_channel(s, i + 1 + code, acc + s.subrange(i + 1, i + 1 + code), target)
            }
        }
    }
}

/// New-format decoding of a whole scanline: the four channel planes in
/// order (red, green, blue, exponent), zipped into pixels.
pub open spec fn spec_new_rle(s: Seq<u8>, i: int, target: int) -> Result<
    (Seq<Rgbe>, int),
    LoadError,
> {
    match spec_channel(s, i, Seq::empty(), target) {
        Err(e) => Err(e),
        Ok((rp, i1)) => match spec_channel(s, i1, Seq::empty(), target) {
            Err(e) => Err(e),
            Ok((gp, i2)) => match spec_channel(s, i2, Seq::empty(), target) {
                Err(e) => Err(e),
                Ok((bp, i3)) => match spec_channel(s, i3, Seq::empty(), target) {
                    Err(e) => Err(e),
                    Ok((ep, i4)) => Ok(
                        (
                            Seq::new(
                                target as nat,
                                |j: int| Rgbe { r: rp[j], g: gp[j], b: bp[j], e: ep[j] },
                            ),
                            i4,
                        ),
                    ),
                },
            },
        },
    }
}

/// One whole scanline: an empty scanline consumes nothing; otherwise the
/// first quadruplet selects the encoding.  The new-format sentinel is
/// honoured only for scanline lengths between 8 and 32767; outside that
/// range the quadruplet is the first literal pixel of an old-format line.
pub open spec fn spec_scanline(s: Seq<u8>, i: int, width: int) -> Result<
    (Seq<Rgbe>, int),
    LoadError,
> {
    if width == 0 {
        Ok((Seq::empty(), i))
    } else if !(0 <= i && i + 4 <= s.len()) {
        Err(LoadError::Eof)
    } else {
        let p = spec_rgbe_at(s, i);
        if 8 <= width <= 32767 && spec_is_new_decrunch_marker(p) {
            spec_new_rle(s, i + 4, width)
        } else {
            spec_old_rle(s, i + 4, seq![p], width, 0)
        }
    }
}

/// The channel of a pixel selected by `chan`: red, green, blue, exponent
/// in that order.
pub open spec fn spec_get_chan(p: Rgbe, chan: u8) -> u8 {
    if chan == 0 {
        p.r
    } else if chan == 1 {
        p.g
    } else if chan == 2 {
        p.b
    } else {
        p.e
    }
}

/// The pixel `p` with the channel selected by `chan` replaced by `v`.
pub open spec fn spec_set_chan(p: Rgbe, chan: u8, v: u8) -> Rgbe {
    if chan == 0 {
        Rgbe { r: v, ..p }
    } else if chan == 1 {
        Rgbe { g: v, ..p }
    } else if chan == 2 {
        Rgbe { b: v, ..p }
    } else {
        Rgbe { e: v, ..p }
    }
}

/// `b` differs from `a` in at most the channel selected by `chan`.
pub open spec fn spec_chan_preserved(a: Rgbe, b: Rgbe, chan: u8) -> bool {
    b == spec_set_chan(a, chan, spec_get_chan(b, chan))
}

/// The pixel `p` with the channel selected by `chan` replaced by `v`.
fn set_chan(p: Rgbe, chan: u8, v: u8) -> (q: Rgbe)
    requires
        chan < 4,
    ensures
        q == spec_set_chan(p, chan, v),
{
    match chan {
        0 => Rgbe { r: v, ..p },
        1 => Rgbe { g: v, ..p },
        2 => Rgbe { b: v, ..p },
        _ => Rgbe { e: v, ..p },
    }
}

/// Consume the next four bytes as a quadruplet.
pub(crate) fn read_rgbe(c: &mut ByteCursor) -> (r: Result<Rgbe, LoadError>)
    requires
        old(c).wf(),
    ensures
        final(c).wf(),
        final(c).bytes() == old(c).bytes(),
        match r {
            Ok(p) => old(c).position() + 4 <= old(c).bytes().len()
                && final(c).position() == old(c).position() + 4
                && p == spec_rgbe_at(old(c).bytes(), old(c).position()),
            Err(e) => e == LoadError::Eof
                && old(c).position() + 4 > old(c).bytes().len(),
        },
{
    let r = match c.read_byte() {
        Ok(b) => b,
        Err(e) => {
            return Err(e);
        },
    };
    let g = match c.read_byte() {
        Ok(b) => b,
        Err(e) => {
            return Err(e);
        },
    };
    let b = match c.read_byte() {
        Ok(b) => b,
        Err(e) => {
            return Err(e);
        },
    };
    let e = match c.read_byte() {
        Ok(b) => b,
        Err(e) => {
            return Err(e);
        },
    };
    Ok(Rgbe { r, g, b, e })
}

/// Decode the rest of an old-format scanline into `out[1..width]`, the
/// first pixel having been stored in `out[0]` by the caller.
pub(crate) fn old_decrunch(c: &mut ByteCursor, out: &mut Vec<Rgbe>, width: usize) -> (r: Result<
    (),
    LoadError,
>)
    requires
        old(c).wf(),
        1 <= width <= old(out).len(),
    ensures
        final(c).wf(),
        final(c).bytes() == old(c).bytes(),
        final(out).len() == old(out).len(),
        forall|j: int| width <= j < old(out).len() ==> final(out)@[j] == old(out)@[j],
        match r {
            Ok(_) => spec_old_rle(
                old(c).bytes(),
                old(c).position(),
                seq![old(out)@[0]],
                width as int,
                0,
            ) == Ok::<(Seq<Rgbe>, int), LoadError>(
                (final(out)@.subrange(0, width as int), final(c).position()),
            ),
            Err(e) => spec_old_rle(
                old(c).bytes(),
                old(c).position(),
                seq![old(out)@[0]],
                width as int,
                0,
            ) == Err::<(Seq<Rgbe>, int), LoadError>(e),
        },
{
    let ghost s = c.bytes();
    let ghost start = c.position();
    let ghost n0 = out@.len();
    let ghost acc0 = seq![out@[0]];
    let mut filled: usize = 1;
    let mut l_shift: u32 = 0;
    proof {
        assert(out@.subrange(0, 1) =~= acc0);
    }
    while filled < width
        invariant
            c.wf(),
            s == old(c).bytes(),
            start == old(c).position(),
            c.bytes() == s,
            n0 == old(out).len(),
            out@.len() == n0,
            1 <= filled <= width <= n0,
            acc0 == seq![old(out)@[0]],
            forall|j: int| width <= j < n0 ==> out@[j] == old(out)@[j],
            spec_old_rle(s, start, acc0, width as int, 0) == spec_old_rle(
                s,
                c.position(),
                out@.subrange(0, filled as int),
                width as int,
                l_shift as int,
            ),
        decreases s.len() - c.position(),
    {
        let ghost pre_pos = c.position();
        let ghost acc_pre = out@.subrange(0, filled as int);
        let p = match read_rgbe(c) {
            Ok(p) => p,
            Err(e) => {
                return Err(e);
            },
        };
        if p.is_rle_marker() {
            if l_shift >= usize::BITS {
                return Err(LoadError::Rle);
            }
            proof {
                vstd::layout::unsigned_int_max_values();
                vstd::arithmetic::power2::lemma2_to64();
                vstd::arithmetic::power2::lemma_pow2_strictly_increases(
                    l_shift as nat,
                    usize::BITS as nat,
                );
            }
            let factor: usize = 1usize << (l_shift as usize);
            proof {
                vstd::bits::lemma_usize_shl_is_mul(1, l_shift as usize);
            }
            let count = match (p.e as usize).checked_mul(factor) {
                Some(ct) => ct,
                None => {
                    return Err(LoadError::Rle);
                },
            };
            if count > width - filled {
                return Err(LoadError::Rle);
            }
            let from = out[filled - 1];
            let ghost out_pre = out@;
            let mut k: usize = 0;
            while k < count
                invariant
                    k <= count,
                    filled + count <= width,
                    1 <= filled,
                    width <= out@.len(),
                    out@.len() == out_pre.len(),
                    forall|j: int|
                        0 <= j < out@.len() && !(filled <= j < filled + k) ==> out@[j]
                            == out_pre[j],
                    forall|j: int| filled <= j < filled + k ==> out@[j] == from,
                decreases count - k,
            {
                out[filled + k] = from;
                k = k + 1;
            }
            proof {
                assert(from == acc_pre.last());
                assert(out@.subrange(0, (filled + count) as int) =~= acc_pre + Seq::new(
                    count as nat,
                    |q: int| acc_pre.last(),
                ));
            }
            filled = filled + count;
            l_shift = l_shift + 8;
        } else {
            out[filled] = p;
            proof {
                assert(out@.subrange(0, (filled + 1) as int) =~= acc_pre.push(p));
            }
            filled = filled + 1;
            l_shift = 0;
        }
    }
    proof {
        assert(spec_old_rle(s, c.position(), out@.subrange(0, filled as int), width as int,
            l_shift as int) == Ok::<(Seq<Rgbe>, int), LoadError>(
            (out@.subrange(0, width as int), c.position()),
        ));
    }
    Ok(())
}

/// Decode one channel plane of a new-format scanline into the channel
/// slots selected by `chan` of `out[..width]`; the other channels are left
/// untouched.
fn decrunch_channel(c: &mut ByteCursor, out: &mut Vec<Rgbe>, width: usize, chan: u8) -> (r: Result<
    (),
    LoadError,
>)
    requires
        old(c).wf(),
        width <= old(out).len(),
        chan < 4,
    ensures
        final(c).wf(),
        final(c).bytes() == old(c).bytes(),
        final(out).len() == old(out).len(),
        forall|j: int| width <= j < old(out).len() ==> final(out)@[j] == old(out)@[j],
        forall|j: int|
            0 <= j < width ==> spec_chan_preserved(old(out)@[j], final(out)@[j], chan),
        match r {
            Ok(_) => spec_channel(old(c).bytes(), old(c).position(), Seq::empty(), width as int)
                == Ok::<(Seq<u8>, int), LoadError>(
                (
                    Seq::new(width as nat, |j: int| spec_get_chan(final(out)@[j], chan)),
                    final(c).position(),
                ),
            ),
            Err(e) => spec_channel(old(c).bytes(), old(c).position(), Seq::empty(), width as int)
                == Err::<(Seq<u8>, int), LoadError>(e),
        },
{
    let ghost s = c.bytes();
    let ghost start = c.position();
    let ghost n0 = out@.len();
    let mut filled: usize = 0;
    proof {
        assert(Seq::new(0, |j: int| spec_get_chan(out@[j], chan)) =~= Seq::<u8>::empty());
    }
    while filled < width
        invariant
            c.wf(),
            s == old(c).bytes(),
            start == old(c).position(),
            c.bytes() == s,
            n0 == old(out).len(),
            out@.len() == n0,
            filled <= width <= n0,
            chan < 4,
            forall|j: int| width <= j < n0 ==> out@[j] == old(out)@[j],
            forall|j: int| 0 <= j < width ==> spec_chan_preserved(old(out)@[j], out@[j], chan),
            spec_channel(s, start, Seq::empty(), width as int) == spec_channel(
                s,
                c.position(),
                Seq::new(filled as nat, |j: int| spec_get_chan(out@[j], chan)),
                width as int,
            ),
        decreases s.len() - c.position(),
    {
        let ghost pre_pos = c.position();
        let ghost plane_pre = Seq::new(filled as nat, |j: int| spec_get_chan(out@[j], chan));
        let code_b = match c.read_byte() {
            Ok(b) => b,
            Err(e) => {
                return Err(e);
            },
        };
        if code_b > 128 {
            let val = match c.read_byte() {
                Ok(b) => b,
                Err(e) => {
                    return Err(e);
                },
            };
            let count = (code_b - 128) as usize;
            if count > width - filled {
                return Err(LoadError::Rle);
            }
            let ghost out_pre = out@;
            let mut k: usize = 0;
            while k < count
                invariant
                    k <= count,
                    filled + count <= width,
                    chan < 4,
                    width <= out@.len(),
                    out@.len() == out_pre.len(),
                    forall|j: int|
                        0 <= j < out@.len() && !(filled <= j < filled + k) ==> out@[j]
                            == out_pre[j],
                    forall|j: int|
                        filled <= j < filled + k ==> out@[j] == spec_set_chan(
                            out_pre[j],
                            chan,
                            val,
                        ),
                decreases count - k,
            {
                let cur = out[filled + k];
                out[filled + k] = set_chan(cur, chan, val);
                k = k + 1;
            }
            proof {
                assert(Seq::new((filled + count) as nat, |j: int| spec_get_chan(out@[j], chan))
                    =~= plane_pre + Seq::new(count as nat, |q: int| s[pre_pos + 1]));
            }
            filled = filled + count;
        } else {
            let code = code_b as usize;
            let avail = c.remaining_len();
            let take = if avail < code {
                avail
            } else {
                code
            };
            if take > width - filled {
                return Err(LoadError::Rle);
            }
            let ghost out_pre = out@;
            let mut k: usize = 0;
            while k < take
                invariant
                    k <= take,
                    filled + take <= width,
                    chan < 4,
                    width <= out@.len(),
                    out@.len() == out_pre.len(),
                    c.wf(),
                    c.bytes() == s,
                    c.position() == pre_pos + 1 + k,
                    pre_pos + 1 + take <= s.len(),
                    forall|j: int|
                        0 <= j < out@.len() && !(filled <= j < filled + k) ==> out@[j]
                            == out_pre[j],
                    forall|j: int|
                        filled <= j < filled + k ==> out@[j] == spec_set_chan(
                            out_pre[j],
                            chan,
                            s[pre_pos + 1 + (j - filled)],
                        ),
                decreases take - k,
            {
                let b = match c.read_byte() {
                    Ok(b) => b,
                    Err(_) => {
                        proof {
                            assert(false);
                        }
                        return Err(LoadError::Eof);
                    },
                };
                let cur = out[filled + k];
                out[filled + k] = set_chan(cur, chan, b);
                k = k + 1;
            }
            if take < code {
                return Err(LoadError::Eof);
            }
            proof {
                assert(Seq::new((filled + code) as nat, |j: int| spec_get_chan(out@[j], chan))
                    =~= plane_pre + s.subrange(pre_pos + 1, pre_pos + 1 + code));
            }
            filled = filled + take;
        }
    }
    Ok(())
}

/// Decode a new-format scanline: the four channel planes in order, into
/// `out[..width]`.
pub(crate) fn new_decrunch(c: &mut ByteCursor, out: &mut Vec<Rgbe>, width: usize) -> (r: Result<
    (),
    LoadError,
>)
    requires
        old(c).wf(),
        width <= old(out).len(),
    ensures
        final(c).wf(),
        final(c).bytes() == old(c).bytes(),
        final(out).len() == old(out).len(),
        forall|j: int| width <= j < old(out).len() ==> final(out)@[j] == old(out)@[j],
        match r {
            Ok(_) => spec_new_rle(old(c).bytes(), old(c).position(), width as int)
                == Ok::<(Seq<Rgbe>, int), LoadError>(
                (final(out)@.subrange(0, width as int), final(c).position()),
            ),
            Err(e) => spec_new_rle(old(c).bytes(), old(c).position(), width as int)
                == Err::<(Seq<Rgbe>, int), LoadError>(e),
        },
{
    let ghost s = c.bytes();
    let ghost start = c.position();
    match decrunch_channel(c, out, width, 0) {
        Ok(_) => {},
        Err(e) => {
            return Err(e);
        },
    }
    let ghost out1 = out@;
    match decrunch_channel(c, out, width, 1) {
        Ok(_) => {},
        Err(e) => {
            return Err(e);
        },
    }
    let ghost out2 = out@;
    match decrunch_channel(c, out, width, 2) {
        Ok(_) => {},
        Err(e) => {
            return Err(e);
        },
    }
    let ghost out3 = out@;
    match decrunch_channel(c, out, width, 3) {
        Ok(_) => {},
        Err(e) => {
            return Err(e);
        },
    }
    proof {
        let w = width as int;
        assert(Seq::new(width as nat, |j: int| spec_get_chan(out1[j], 0)) =~= Seq::new(
            width as nat,
            |j: int| out@[j].r,
        ));
        assert(Seq::new(width as nat, |j: int| spec_get_chan(out2[j], 1)) =~= Seq::new(
            width as nat,
            |j: int| out@[j].g,
        ));
        assert(Seq::new(width as nat, |j: int| spec_get_chan(out3[j], 2)) =~= Seq::new(
            width as nat,
            |j: int| out@[j].b,
        ));
        assert(Seq::new(width as nat, |j: int| spec_get_chan(out@[j], 3)) =~= Seq::new(
            width as nat,
            |j: int| out@[j].e,
        ));
        assert(Seq::new(width as nat, |j: int| (Rgbe {
            r: Seq::new(width as nat, |q: int| out@[q].r)[j],
            g: Seq::new(width as nat, |q: int| out@[q].g)[j],
            b: Seq::new(width as nat, |q: int| out@[q].b)[j],
            e: Seq::new(width as nat, |q: int| out@[q].e)[j],
        })) =~= out@.subrange(0, w));
    }
    Ok(())
}

/// Decode one whole scanline into `out[..width]`, choosing the encoding
/// from the scanline length and the first quadruplet.
pub(crate) fn decode_scanline(c: &mut ByteCursor, out: &mut Vec<Rgbe>, width: usize) -> (r: Result<
    (),
    LoadError,
>)
    requires
        old(c).wf(),
        width <= old(out).len(),
    ensures
        final(c).wf(),
        final(c).bytes() == old(c).bytes(),
        final(out).len() == old(out).len(),
        forall|j: int| width <= j < old(out).len() ==> final(out)@[j] == old(out)@[j],
        match r {
            Ok(_) => spec_scanline(old(c).bytes(), old(c).position(), width as int)
                == Ok::<(Seq<Rgbe>, int), LoadError>(
                (final(out)@.subrange(0, width as int), final(c).position()),
            ),
            Err(e) => spec_scanline(old(c).bytes(), old(c).position(), width as int)
                == Err::<(Seq<Rgbe>, int), LoadError>(e),
        },
{
    if width == 0 {
        proof {
            assert(out@.subrange(0, 0) =~= Seq::<Rgbe>::empty());
        }
        return Ok(());
    }
    let p = match read_rgbe(c) {
        Ok(p) => p,
        Err(e) => {
            return Err(e);
        },
    };
    if width >= 8 && width <= 32767 && p.is_new_decrunch_marker() {
        new_decrunch(c, out, width)
    } else {
        out[0] = p;
        old_decrunch(c, out, width)
    }
}

} // verus!
