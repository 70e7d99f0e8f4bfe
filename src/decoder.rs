use vstd::prelude::*;
use crate::backend::{lz4_decompress, lz4_unframe};
use crate::grammar::{
    diff_pixel, end_marker, luma_pixel, op_of, unit_len, unit_pixel, Op, OP_ALPHA, OP_ALPHA_END,
    OP_DIFF, OP_DIFF_END, OP_GRAY, OP_GRAY_ALPHA, OP_INDEX_END, OP_LUMA, OP_RGB, OP_RGBA,
    OP_RUNLENGTH_END,
};
use crate::pixel::{
    channel_bytes, channel_unstep, initial_cache, pixel_hash, transparent, valid_channels, RgbaColor,
    CACHE_SIZE,
};
use crate::stream::{
    cache_after_unit, decode_prefix, next_unit, prev_after, UnitFault,
};

verus! {

/// Why a decoding session failed.
#[derive(Clone, Copy, PartialEq, Eq, Structural, Debug)]
pub enum DecodeError {
    /// The data ends inside a unit or inside the end marker.
    UnexpectedEnd,
    /// A reserved leading byte, or a unit that carries its own alpha and
    /// gives a pixel the channel count cannot hold.
    InvalidOp,
    /// The bytes after the last pixel are not the end marker.
    InvalidEndMarker,
    /// The compression backend could not decode its frame.
    Compression,
}

/// The pixel of the unit at `pos`, and the unit's length.
fn decode_unit_at(
    data: &Vec<u8>,
    pos: usize,
    cache: &Vec<RgbaColor>,
    prev: RgbaColor,
    channels: usize,
) -> (r: Result<(RgbaColor, usize), UnitFault>)
    requires
        cache@.len() == 64,
    ensures
        match next_unit(cache@, prev, data@, pos as int, channels) {
            Ok((p, n)) => r == Ok::<(RgbaColor, usize), UnitFault>((p, n as usize)),
            Err(UnitFault::Truncated) => r is Err && r->Err_0 is Truncated,
            Err(UnitFault::Invalid) => r is Err && r->Err_0 is Invalid,
        },
        r is Ok ==> pos + r->Ok_0.1 <= data@.len(),
{
    if pos >= data.len() {
        return Err(UnitFault::Truncated);
    }
    let b = data[pos];
    let n: usize = if b == OP_LUMA || b == OP_GRAY {
        2
    } else if b == OP_GRAY_ALPHA {
        3
    } else if b == OP_RGB {
        4
    } else if b > OP_RGB {
        5
    } else {
        1
    };
    assert(n == unit_len(b));
    if n > data.len() - pos {
        return Err(UnitFault::Truncated);
    }
    let ghost u = data@.subrange(pos as int, pos + n);
    assert(u[0] == b);
    let p = if b <= OP_INDEX_END {
        cache[b as usize]
    } else if b <= OP_DIFF_END {
        let v = b - OP_DIFF;
        proof {
            reveal(diff_pixel);
        }
        RgbaColor {
            r: channel_unstep(prev.r, v / 16, 2),
            g: channel_unstep(prev.g, (v / 4) % 4, 2),
            b: channel_unstep(prev.b, v % 4, 2),
            a: prev.a,
        }
    } else if b <= OP_ALPHA_END {
        RgbaColor { a: channel_unstep(prev.a, b - OP_ALPHA + 1, 0), ..prev }
    } else if b <= OP_RUNLENGTH_END {
        return Err(UnitFault::Invalid);
    } else if b == OP_LUMA {
        let v = data[pos + 1];
        assert(u[1] == v);
        proof {
            reveal(luma_pixel);
        }
        let gv = v / 16;
        RgbaColor {
            r: channel_unstep(prev.r, gv + (v / 4) % 4, 10),
            g: channel_unstep(prev.g, gv, 8),
            b: channel_unstep(prev.b, gv + v % 4, 10),
            a: prev.a,
        }
    } else if b == OP_GRAY {
        let v = data[pos + 1];
        assert(u[1] == v);
        RgbaColor { r: v, g: v, b: v, a: prev.a }
    } else if b == OP_GRAY_ALPHA {
        assert(u[1] == data@[pos + 1] && u[2] == data@[pos + 2]);
        RgbaColor { r: data[pos + 1], g: data[pos + 1], b: data[pos + 1], a: data[pos + 2] }
    } else if b == OP_RGB {
        assert(u[1] == data@[pos + 1] && u[2] == data@[pos + 2] && u[3] == data@[pos + 3]);
        RgbaColor { r: data[pos + 1], g: data[pos + 2], b: data[pos + 3], a: prev.a }
    } else {
        assert(u[1] == data@[pos + 1] && u[2] == data@[pos + 2] && u[3] == data@[pos + 3]
            && u[4] == data@[pos + 4]);
        RgbaColor { r: data[pos + 1], g: data[pos + 2], b: data[pos + 3], a: data[pos + 4] }
    };
    assert(unit_pixel(cache@, prev, u) == Some(p));
    let own_alpha = (OP_ALPHA <= b && b <= OP_ALPHA_END) || b == OP_GRAY_ALPHA || b == OP_RGBA;
    if own_alpha && channels == 3 && p.a != 255 {
        return Err(UnitFault::Invalid);
    }
    Ok((p, n))
}

/// Whether the end marker stands at `pos`.
fn marker_at(data: &Vec<u8>, pos: usize) -> (r: bool)
    requires
        pos + 8 <= data@.len(),
    ensures
        r == (data@.subrange(pos as int, pos + 8) == end_marker()),
{
    let ghost expected = end_marker();
    let len = data.len();
    let mut k: usize = 0;
    while k < 8
        invariant
            k <= 8,
            pos + 8 <= data@.len(),
            len == data@.len(),
            expected == end_marker(),
            forall|j: int| 0 <= j < k ==> data@[pos + j] == #[trigger] expected[j],
        decreases 8 - k,
    {
        let want: u8 = if k == 7 {
            1
        } else {
            0
        };
        assert(expected[k as int] == want);
        if data[pos + k] != want {
            assert(data@.subrange(pos as int, pos + 8)[k as int] != expected[k as int]);
            return false;
        }
        k = k + 1;
    }
    assert(data@.subrange(pos as int, pos + 8) =~= expected);
    true
}

/// Decodes the op-code bytes of a session back into pixel bytes, one pixel
/// per read, and checks the end marker after the last one.
pub struct PixelDecoder {
    data: Vec<u8>,
    pos: usize,
    channels: usize,
    cache: Vec<RgbaColor>,
    last_px: RgbaColor,
    pixels_in: usize,
    pixels_count: usize,
    done: bool,
    pixels: Ghost<Seq<RgbaColor>>,
}

impl PixelDecoder {
    /// The op-code bytes of the session.
    pub closed spec fn data(&self) -> Seq<u8> {
        self.data@
    }

    /// The pixels decoded so far.
    pub closed spec fn pixels(&self) -> Seq<RgbaColor> {
        self.pixels@
    }

    /// Where the next unit starts.
    pub closed spec fn position(&self) -> nat {
        self.pos as nat
    }

    pub closed spec fn pixels_count(&self) -> nat {
        self.pixels_count as nat
    }

    pub closed spec fn channels(&self) -> usize {
        self.channels
    }

    /// Whether the end marker has been read and checked.
    pub closed spec fn is_done(&self) -> bool {
        self.done
    }

    /// The recent-colors cache.
    pub closed spec fn cache(&self) -> Seq<RgbaColor> {
        self.cache@
    }

    /// The previous pixel and the counter match the pixels decoded so far.
    pub closed spec fn fields_agree(&self) -> bool {
        &&& self.cache@.len() == 64
        &&& self.last_px == prev_after(self.pixels@)
        &&& self.pixels_in == self.pixels@.len()
    }

    pub open spec fn valid(&self) -> bool {
        &&& self.fields_agree()
        &&& valid_channels(self.channels())
        &&& self.pixels().len() <= self.pixels_count()
        &&& decode_prefix(self.data(), self.pixels().len(), self.channels()) == Some(
            (self.pixels(), self.position(), self.cache()),
        )
        &&& self.is_done() ==> self.pixels().len() == self.pixels_count()
    }

    /// A session that decodes `pixels_count` pixels of `channels` bytes each
    /// from the op-code bytes `data`.
    pub fn new(data: Vec<u8>, pixels_count: usize, channels: usize) -> (d: PixelDecoder)
        requires
            valid_channels(channels),
        ensures
            d.valid(),
            d.data() == data@,
            d.pixels() == Seq::<RgbaColor>::empty(),
            d.pixels_count() == pixels_count,
            d.channels() == channels,
            !d.is_done(),
    {
        let mut cache: Vec<RgbaColor> = Vec::new();
        while cache.len() < CACHE_SIZE
            invariant
                cache@.len() <= 64,
                forall|i: int| 0 <= i < cache@.len() ==> cache@[i] == transparent(),
            decreases 64 - cache@.len(),
        {
            cache.push(RgbaColor { r: 0, g: 0, b: 0, a: 0 });
        }
        assert(cache@ =~= initial_cache());
        PixelDecoder {
            data,
            pos: 0,
            channels,
            cache,
            last_px: RgbaColor { r: 0, g: 0, b: 0, a: 255 },
            pixels_in: 0,
            pixels_count,
            done: false,
            pixels: Ghost(Seq::empty()),
        }
    }

    /// The same as `new`: the data are the op-code bytes as they stand.
    pub fn new_uncompressed(data: Vec<u8>, pixels_count: usize, channels: usize) -> (d: PixelDecoder)
        requires
            valid_channels(channels),
        ensures
            d.valid(),
            d.data() == data@,
            d.pixels() == Seq::<RgbaColor>::empty(),
            d.pixels_count() == pixels_count,
            d.channels() == channels,
            !d.is_done(),
    {
        PixelDecoder::new(data, pixels_count, channels)
    }

    /// A session over the op-code bytes held in the LZ4 frame `frame`.
    pub fn new_lz4(frame: Vec<u8>, pixels_count: usize, channels: usize) -> (r: Result<PixelDecoder, DecodeError>)
        requires
            valid_channels(channels),
        ensures
            lz4_unframe(frame@) is None <==> r is Err,
            r is Err ==> r->Err_0 == DecodeError::Compression,
            r is Ok ==> {
                let d = r->Ok_0;
                &&& d.valid()
                &&& d.data() == lz4_unframe(frame@)->Some_0
                &&& d.pixels() == Seq::<RgbaColor>::empty()
                &&& d.pixels_count() == pixels_count
                &&& d.channels() == channels
                &&& !d.is_done()
            },
    {
        match lz4_decompress(&frame) {
            Some(data) => Ok(PixelDecoder::new(data, pixels_count, channels)),
            None => Err(DecodeError::Compression),
        }
    }

    /// Decodes the next pixel and appends its channel bytes to `buf`,
    /// returning their number; once every pixel is out, checks the end marker
    /// and returns 0. On an error nothing changes.
    pub fn read(&mut self, buf: &mut Vec<u8>) -> (r: Result<usize, DecodeError>)
        requires
            old(self).valid(),
        ensures
            final(self).valid(),
            final(self).data() == old(self).data(),
            final(self).pixels_count() == old(self).pixels_count(),
            final(self).channels() == old(self).channels(),
            old(self).is_done() ==> r == Ok::<usize, DecodeError>(0) && *final(self) == *old(self)
                && final(buf)@ == old(buf)@,
            !old(self).is_done() && old(self).pixels().len() < old(self).pixels_count() ==> match next_unit(
                old(self).cache(),
                prev_after(old(self).pixels()),
                old(self).data(),
                old(self).position() as int,
                old(self).channels(),
            ) {
                Ok((p, n)) => {
                    &&& r == Ok::<usize, DecodeError>(old(self).channels())
                    &&& final(self).pixels() == old(self).pixels().push(p)
                    &&& final(self).position() == old(self).position() + n
                    &&& final(self).cache() == cache_after_unit(
                        old(self).cache(),
                        old(self).data()[old(self).position() as int],
                        p,
                    )
                    &&& final(buf)@ == old(buf)@ + channel_bytes(p, old(self).channels())
                    &&& !final(self).is_done()
                },
                Err(UnitFault::Truncated) => r == Err::<usize, DecodeError>(DecodeError::UnexpectedEnd)
                    && *final(self) == *old(self) && final(buf)@ == old(buf)@,
                Err(UnitFault::Invalid) => r == Err::<usize, DecodeError>(DecodeError::InvalidOp)
                    && *final(self) == *old(self) && final(buf)@ == old(buf)@,
            },
            !old(self).is_done() && old(self).pixels().len() == old(self).pixels_count() ==> {
                let pos = old(self).position() as int;
                let data = old(self).data();
                &&& final(buf)@ == old(buf)@
                &&& final(self).pixels() == old(self).pixels()
                &&& r == if pos + 8 > data.len() {
                    Err(DecodeError::UnexpectedEnd)
                } else if data.subrange(pos, pos + 8) != end_marker() {
                    Err(DecodeError::InvalidEndMarker)
                } else {
                    Ok::<usize, DecodeError>(0)
                }
                &&& final(self).is_done() == (r is Ok)
            },
    {
        if self.done {
            return Ok(0);
        }
        if self.pixels_in >= self.pixels_count {
            if 8 > self.data.len() - self.pos {
                return Err(DecodeError::UnexpectedEnd);
            }
            if !marker_at(&self.data, self.pos) {
                return Err(DecodeError::InvalidEndMarker);
            }
            self.done = true;
            return Ok(0);
        }
        match decode_unit_at(&self.data, self.pos, &self.cache, self.last_px, self.channels) {
            Ok((p, n)) => {
                let data_len = self.data.len();
                assert(self.pos + n <= data_len);
                let b = self.data[self.pos];
                if b > OP_INDEX_END {
                    let h = pixel_hash(p);
                    self.cache.set(h, p);
                }
                self.last_px = p;
                self.pixels_in = self.pixels_in + 1;
                self.pos = self.pos + n;
                self.pixels = Ghost(self.pixels@.push(p));
                proof {
                    assert(self.pixels@.drop_last() =~= old(self).pixels@);
                }
                buf.push(p.r);
                buf.push(p.g);
                buf.push(p.b);
                if self.channels == 4 {
                    buf.push(p.a);
                }
                assert(buf@ =~= old(buf)@ + channel_bytes(p, self.channels));
                Ok(self.channels)
            },
            Err(UnitFault::Truncated) => Err(DecodeError::UnexpectedEnd),
            Err(UnitFault::Invalid) => Err(DecodeError::InvalidOp),
        }
    }
}

} // verus!
