use vstd::prelude::*;
use crate::backend::{lz4_compress, lz4_frame_of, lz4_unframe, Backend};
use crate::grammar::{
    alpha_step, chosen_op, claims, encode_unit, end_marker, lemma_unit_round_trip, luma_rel,
    MAX_ALPHA_STEP, OP_ALPHA, OP_DIFF, OP_GRAY, OP_GRAY_ALPHA, OP_LUMA, OP_RGB, OP_RGBA,
};
use crate::pixel::{
    bytes_of, channel_bytes, channel_step, fits, gray, hash_of, pixel_hash, step, valid_channels,
    transparent, RgbaColor, CACHE_SIZE,
};
use crate::stream::{cache_after, encoded, lemma_cache_len, prev_after};

verus! {

/// Why an encoding session failed.
#[derive(Clone, Copy, PartialEq, Eq, Structural, Debug)]
pub enum EncodeError {
    /// The bytes handed over do not end on a pixel boundary.
    ChannelMismatch,
}

/// Appends to `out` the bytes that encode `px` after `prev`.
fn push_unit(out: &mut Vec<u8>, cache: &Vec<RgbaColor>, prev: RgbaColor, px: RgbaColor)
    requires
        cache@.len() == 64,
    ensures
        final(out)@ == old(out)@ + encode_unit(cache@, prev, px),
{
    let ghost unit = encode_unit(cache@, prev, px);
    let h = pixel_hash(px);
    if cache[h] == px {
        out.push(h as u8);
        assert(unit =~= seq![h as u8]);
        return ;
    }
    if px.r == prev.r && px.g == prev.g && px.b == prev.b && px.a != prev.a {
        let st = channel_step(px.a, prev.a, 0);
        if st <= MAX_ALPHA_STEP {
            assert(st == alpha_step(px, prev));
            out.push(OP_ALPHA + st - 1);
            assert(final(out)@ =~= old(out)@ + unit);
            return ;
        }
    }
    if px.a != prev.a {
        if px.is_gray() {
            out.push(OP_GRAY_ALPHA);
            out.push(px.r);
            out.push(px.a);
        } else {
            out.push(OP_RGBA);
            out.push(px.r);
            out.push(px.g);
            out.push(px.b);
            out.push(px.a);
        }
        assert(final(out)@ =~= old(out)@ + unit);
        return ;
    }
    let rv = channel_step(px.r, prev.r, 2);
    let gv = channel_step(px.g, prev.g, 2);
    let bv = channel_step(px.b, prev.b, 2);
    if rv < 4 && gv < 4 && bv < 4 {
        out.push(OP_DIFF + 16 * rv + 4 * gv + bv);
        assert(final(out)@ =~= old(out)@ + unit);
        return ;
    }
    let lg = channel_step(px.g, prev.g, 8);
    if lg < 16 {
        let lr = ((px.r as u16 + 512 - prev.r as u16 - lg as u16 + 10) % 256) as u8;
        let lb = ((px.b as u16 + 512 - prev.b as u16 - lg as u16 + 10) % 256) as u8;
        assert(lr == luma_rel(px.r, prev.r, lg as int));
        assert(lb == luma_rel(px.b, prev.b, lg as int));
        if lr < 4 && lb < 4 {
            out.push(OP_LUMA);
            out.push(16 * lg + 4 * lr + lb);
            assert(final(out)@ =~= old(out)@ + unit);
            return ;
        }
    }
    if px.is_gray() {
        out.push(OP_GRAY);
        out.push(px.r);
    } else {
        out.push(OP_RGB);
        out.push(px.r);
        out.push(px.g);
        out.push(px.b);
    }
    assert(final(out)@ =~= old(out)@ + unit);
}

/// Encodes a stream of pixel bytes, a fixed number of pixels with a fixed
/// channel count, into op-code bytes followed by the end marker.
pub struct PixelEncoder {
    backend: Backend,
    channels: usize,
    pixels_in: usize,
    pixels_count: usize,
    cache: Vec<RgbaColor>,
    prev_pixel: RgbaColor,
    buffer: Vec<u8>,
    out: Vec<u8>,
    finished: bool,
    pixels: Ghost<Seq<RgbaColor>>,
}

impl PixelEncoder {
    /// The pixels encoded so far.
    pub closed spec fn pixels(&self) -> Seq<RgbaColor> {
        self.pixels@
    }

    /// Bytes of a pixel that is not complete yet.
    pub closed spec fn pending(&self) -> Seq<u8> {
        self.buffer@
    }

    /// The op-code bytes written so far.
    pub closed spec fn output(&self) -> Seq<u8> {
        self.out@
    }

    /// Whether the end marker has been written.
    pub closed spec fn is_finished(&self) -> bool {
        self.finished
    }

    pub closed spec fn pixels_count(&self) -> nat {
        self.pixels_count as nat
    }

    pub closed spec fn channels(&self) -> usize {
        self.channels
    }

    pub closed spec fn backend(&self) -> Backend {
        self.backend
    }

    /// The cache, previous pixel and counter match the pixels taken so far.
    pub closed spec fn fields_agree(&self) -> bool {
        &&& self.cache@ == cache_after(self.pixels@)
        &&& self.prev_pixel == prev_after(self.pixels@)
        &&& self.pixels_in == self.pixels@.len()
    }

    /// Every pixel byte accepted so far.
    pub open spec fn input(&self) -> Seq<u8> {
        bytes_of(self.pixels(), self.channels()) + self.pending()
    }

    /// How many more bytes the session accepts.
    pub open spec fn remaining(&self) -> int {
        if self.is_finished() {
            0
        } else {
            (self.pixels_count() - self.pixels().len()) * self.channels() - self.pending().len()
        }
    }

    /// The session's state agrees with the pixels taken so far.
    pub open spec fn consistent(&self) -> bool {
        &&& self.fields_agree()
        &&& valid_channels(self.channels())
        &&& self.pixels().len() <= self.pixels_count()
        &&& forall|i: int| 0 <= i < self.pixels().len() ==> fits(#[trigger] self.pixels()[i], self.channels())
        &&& self.pending().len() < self.channels()
        &&& self.output() == encoded(self.pixels()) + if self.is_finished() {
            end_marker()
        } else {
            Seq::empty()
        }
    }

    pub open spec fn valid(&self) -> bool {
        &&& self.consistent()
        &&& self.pixels().len() == self.pixels_count() ==> self.is_finished()
        &&& self.is_finished() ==> self.pending().len() == 0
    }

    /// A session for `pixels_count` pixels of `channels` bytes each; with no
    /// pixels to come the end marker is written at once.
    pub fn new(backend: Backend, pixels_count: usize, channels: usize) -> (e: PixelEncoder)
        requires
            valid_channels(channels),
        ensures
            e.valid(),
            e.backend() == backend,
            e.channels() == channels,
            e.pixels_count() == pixels_count,
            e.pixels() == Seq::<RgbaColor>::empty(),
            e.pending() == Seq::<u8>::empty(),
            e.is_finished() == (pixels_count == 0),
    {
        let mut cache: Vec<RgbaColor> = Vec::new();
        while cache.len() < CACHE_SIZE
            invariant
                cache@.len() <= 64,
                forall|i: int| 0 <= i < cache@.len() ==> cache@[i] == transparent(),
            decreases 64 - cache@.len(),
        {
            cache.push(RgbaColor { r: 0, g: 0, b: 0, a: 0 });
        }
        assert(cache@ =~= cache_after(Seq::empty()));
        let mut e = PixelEncoder {
            backend,
            channels,
            pixels_in: 0,
            pixels_count,
            cache,
            prev_pixel: RgbaColor { r: 0, g: 0, b: 0, a: 255 },
            buffer: Vec::new(),
            out: Vec::new(),
            finished: false,
            pixels: Ghost(Seq::empty()),
        };
        if pixels_count == 0 {
            e.write_end_marker();
        }
        e
    }

    pub fn new_lz4(pixels_count: usize, channels: usize) -> (e: PixelEncoder)
        requires
            valid_channels(channels),
        ensures
            e.valid(),
            e.backend() == Backend::Lz4,
            e.channels() == channels,
            e.pixels_count() == pixels_count,
            e.pixels() == Seq::<RgbaColor>::empty(),
            e.pending() == Seq::<u8>::empty(),
            e.is_finished() == (pixels_count == 0),
    {
        PixelEncoder::new(Backend::Lz4, pixels_count, channels)
    }

    pub fn new_uncompressed(pixels_count: usize, channels: usize) -> (e: PixelEncoder)
        requires
            valid_channels(channels),
        ensures
            e.valid(),
            e.backend() == Backend::Uncompressed,
            e.channels() == channels,
            e.pixels_count() == pixels_count,
            e.pixels() == Seq::<RgbaColor>::empty(),
            e.pending() == Seq::<u8>::empty(),
            e.is_finished() == (pixels_count == 0),
    {
        PixelEncoder::new(Backend::Uncompressed, pixels_count, channels)
    }

    /// Encodes one more pixel.
    fn encode_pixel(&mut self, px: RgbaColor)
        requires
            old(self).valid(),
            !old(self).is_finished(),
            old(self).pixels().len() < old(self).pixels_count(),
            fits(px, old(self).channels()),
        ensures
            final(self).fields_agree(),
            final(self).pixels() == old(self).pixels().push(px),
            final(self).output() == encoded(final(self).pixels()),
            final(self).output() == old(self).output() + encode_unit(
                cache_after(old(self).pixels()),
                prev_after(old(self).pixels()),
                px,
            ),
            claims(
                chosen_op(cache_after(old(self).pixels()), prev_after(old(self).pixels()), px),
                final(self).output()[old(self).output().len() as int],
            ),
            cache_after(old(self).pixels())[hash_of(px)] == px ==> final(self).output()
                == old(self).output().push(hash_of(px) as u8),
            final(self).pending() == old(self).pending(),
            final(self).channels() == old(self).channels(),
            final(self).pixels_count() == old(self).pixels_count(),
            final(self).backend() == old(self).backend(),
            !final(self).is_finished(),
    {
        proof {
            lemma_cache_len(self.pixels@);
            lemma_unit_round_trip(self.cache@, self.prev_pixel, px);
        }
        push_unit(&mut self.out, &self.cache, self.prev_pixel, px);
        self.cache_pixel(px);
        self.prev_pixel = px;
        self.pixels_in = self.pixels_in + 1;
        self.pixels = Ghost(self.pixels@.push(px));
        proof {
            assert(self.pixels@.drop_last() =~= old(self).pixels@);
            let u = encode_unit(old(self).cache@, old(self).prev_pixel, px);
            assert(self.out@[old(self).out@.len() as int] == u[0]);
            assert(self.out@ =~= old(self).out@ + u);
        }
    }

    /// Stores `px` in its cache slot.
    fn cache_pixel(&mut self, px: RgbaColor)
        requires
            old(self).cache@.len() == 64,
        ensures
            final(self).cache@ == old(self).cache@.update(crate::pixel::hash_of(px), px),
            final(self).out == old(self).out,
            final(self).prev_pixel == old(self).prev_pixel,
            final(self).pixels_in == old(self).pixels_in,
            final(self).pixels == old(self).pixels,
            final(self).buffer == old(self).buffer,
            final(self).finished == old(self).finished,
            final(self).channels == old(self).channels,
            final(self).pixels_count == old(self).pixels_count,
            final(self).backend == old(self).backend,
    {
        let h = pixel_hash(px);
        self.cache.set(h, px);
    }

    /// Writes the end marker, unless it has been written already.
    fn write_end_marker(&mut self)
        requires
            old(self).consistent(),
            old(self).pending().len() == 0,
        ensures
            final(self).valid(),
            final(self).is_finished(),
            final(self).pixels() == old(self).pixels(),
            final(self).pending() == old(self).pending(),
            final(self).channels() == old(self).channels(),
            final(self).pixels_count() == old(self).pixels_count(),
            final(self).backend() == old(self).backend(),
            final(self).output() == if old(self).is_finished() {
                old(self).output()
            } else {
                old(self).output() + end_marker()
            },
    {
        if !self.finished {
            self.out.push(0);
            self.out.push(0);
            self.out.push(0);
            self.out.push(0);
            self.out.push(0);
            self.out.push(0);
            self.out.push(0);
            self.out.push(1);
            self.finished = true;
            assert(self.out@ =~= old(self).out@ + end_marker());
        }
    }
    /// Ends the session: writes the end marker, unless it has been written
    /// already; no pixel bytes are accepted after it. Fails, and changes
    /// nothing, while part of a pixel is pending.
    pub fn finish(&mut self) -> (r: Result<(), EncodeError>)
        requires
            old(self).valid(),
        ensures
            final(self).valid(),
            final(self).pixels() == old(self).pixels(),
            final(self).pending() == old(self).pending(),
            final(self).channels() == old(self).channels(),
            final(self).pixels_count() == old(self).pixels_count(),
            final(self).backend() == old(self).backend(),
            old(self).pending().len() != 0 ==> r == Err::<(), EncodeError>(EncodeError::ChannelMismatch)
                && final(self).is_finished() == old(self).is_finished(),
            old(self).pending().len() == 0 ==> r is Ok && final(self).is_finished(),
    {
        if self.buffer.len() != 0 {
            return Err(EncodeError::ChannelMismatch);
        }
        self.write_end_marker();
        Ok(())
    }

    /// Fails while part of a pixel is pending, which means that the bytes
    /// handed over do not match the channel count.
    pub fn flush(&self) -> (r: Result<(), EncodeError>)
        requires
            self.valid(),
        ensures
            r == if self.pending().len() == 0 {
                Ok(())
            } else {
                Err(EncodeError::ChannelMismatch)
            },
    {
        if self.buffer.len() == 0 {
            Ok(())
        } else {
            Err(EncodeError::ChannelMismatch)
        }
    }

    /// Takes the pixel bytes of `buf` in order, encoding each pixel as soon as
    /// it is complete and writing the end marker after the last one. Returns
    /// how many bytes were taken: all of them, or as many as the declared
    /// pixel count still accepts.
    pub fn write(&mut self, buf: &[u8]) -> (r: usize)
        requires
            old(self).valid(),
        ensures
            final(self).valid(),
            final(self).channels() == old(self).channels(),
            final(self).pixels_count() == old(self).pixels_count(),
            final(self).backend() == old(self).backend(),
            r == if old(self).remaining() < buf@.len() {
                old(self).remaining()
            } else {
                buf@.len() as int
            },
            final(self).input() == old(self).input() + buf@.take(r as int),
            final(self).is_finished() == (old(self).is_finished() || final(self).pixels().len()
                == final(self).pixels_count()),
    {
        let ghost c = self.channels as int;
        let ghost n = self.pixels@.len() as int;
        proof {
            if !self.finished {
                assert((self.pixels_count - n) * c >= c) by (nonlinear_arith)
                    requires self.pixels_count - n >= 1, c >= 3;
            }
        }
        let mut i: usize = 0;
        while i < buf.len() && !self.finished
            invariant
                self.valid(),
                i <= buf@.len(),
                self.channels == old(self).channels,
                self.pixels_count == old(self).pixels_count,
                self.backend == old(self).backend,
                self.input() == old(self).input() + buf@.take(i as int),
                self.remaining() + i == old(self).remaining(),
                !self.finished ==> self.remaining() >= 1,
                self.finished == (old(self).finished || self.pixels@.len() == self.pixels_count),
            decreases buf@.len() - i,
        {
            self.take_byte(buf[i]);
            i = i + 1;
            proof {
                assert(buf@.take(i as int) =~= buf@.take(i - 1).push(buf@[i - 1]));
            }
        }
        i
    }

    /// Takes one pixel byte.
    fn take_byte(&mut self, byte: u8)
        requires
            old(self).valid(),
            !old(self).finished,
            old(self).remaining() >= 1,
        ensures
            final(self).valid(),
            final(self).channels == old(self).channels,
            final(self).pixels_count == old(self).pixels_count,
            final(self).backend == old(self).backend,
            final(self).input() == old(self).input().push(byte),
            final(self).remaining() == old(self).remaining() - 1,
            !final(self).finished ==> final(self).remaining() >= 1,
            final(self).finished == (final(self).pixels@.len() == final(self).pixels_count),
    {
        let ghost before = *self;
        let ghost cc = self.channels as int;
        let ghost m = (self.pixels_count - self.pixels@.len()) as int;
        self.buffer.push(byte);
        if self.buffer.len() == self.channels {
            let px = if self.channels == 4 {
                RgbaColor { r: self.buffer[0], g: self.buffer[1], b: self.buffer[2], a: self.buffer[3] }
            } else {
                RgbaColor { r: self.buffer[0], g: self.buffer[1], b: self.buffer[2], a: 255 }
            };
            proof {
                assert(channel_bytes(px, self.channels) =~= self.buffer@);
                assert(m >= 1);
                assert((m - 1) * cc == m * cc - cc) by (nonlinear_arith);
                if m >= 2 {
                    assert((m - 1) * cc >= cc) by (nonlinear_arith)
                        requires
                            m - 1 >= 1,
                            cc >= 3,
                    ;
                }
            }
            self.buffer.clear();
            self.encode_pixel(px);
            proof {
                assert(self.pixels@.drop_last() =~= before.pixels@);
                assert(bytes_of(self.pixels@, cc as usize) == bytes_of(before.pixels@, cc as usize)
                    + channel_bytes(px, cc as usize));
                assert(self.input() =~= before.input().push(byte));
            }
            if self.pixels_in == self.pixels_count {
                self.write_end_marker();
            }
        } else {
            proof {
                assert(self.input() =~= before.input().push(byte));
                assert(m * cc >= cc) by (nonlinear_arith)
                    requires
                        m >= 1,
                        cc >= 3,
                ;
            }
        }
    }

    /// The bytes for the chosen transport: the op-code bytes as they stand,
    /// or the LZ4 frame that holds them.
    pub fn into_bytes(self) -> (r: Vec<u8>)
        requires
            self.valid(),
        ensures
            self.backend() == Backend::Uncompressed ==> r@ == self.output(),
            self.backend() == Backend::Lz4 ==> r@ == lz4_frame_of(self.output()) && lz4_unframe(r@)
                == Some(self.output()),
    {
        match self.backend {
            Backend::Uncompressed => self.out,
            Backend::Lz4 => match lz4_compress(&self.out) {
                Ok(v) => v,
                Err(_) => Vec::new(),
            },
        }
    }
}

} // verus!
