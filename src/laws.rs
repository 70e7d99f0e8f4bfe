use vstd::prelude::*;
use crate::decoder::PixelDecoder;
use crate::encoder::PixelEncoder;
use crate::grammar::{chosen_op, claims, fits_diff, lemma_grammar_exclusive, Op};
use crate::pixel::{bytes_of, channel_bytes, fits, hash_of, valid_channels, RgbaColor};
use crate::stream::{
    cache_after, decode_prefix, decode_stream, encoded, encoded_stream, lemma_decode_encoded,
    lemma_encoded_prefix, next_unit, prev_after,
};

verus! {

/// Round trip: a whole encoded stream of `px` decodes to `px`, and so to the
/// same pixel bytes.
pub proof fn lemma_round_trip(px: Seq<RgbaColor>, channels: usize)
    requires
        valid_channels(channels),
        forall|i: int| 0 <= i < px.len() ==> fits(#[trigger] px[i], channels),
    ensures
        decode_stream(encoded_stream(px), px.len(), channels) == Some(px),
        bytes_of(decode_stream(encoded_stream(px), px.len(), channels)->Some_0, channels)
            == bytes_of(px, channels),
{
    lemma_decode_encoded(px, crate::grammar::end_marker(), channels);
    let data = encoded_stream(px);
    let pos = encoded(px).len() as int;
    assert(data.subrange(pos, pos + 8) =~= crate::grammar::end_marker());
}

/// Round trip of a session: once an encoder has taken all its pixels, its
/// output decodes back to those pixels, and so to the bytes it took.
pub proof fn lemma_session_round_trip(e: PixelEncoder)
    requires
        e.valid(),
        e.pixels().len() == e.pixels_count(),
    ensures
        decode_stream(e.output(), e.pixels_count(), e.channels()) == Some(e.pixels()),
        bytes_of(e.pixels(), e.channels()) == e.input(),
{
    lemma_round_trip(e.pixels(), e.channels());
    assert(e.input() =~= bytes_of(e.pixels(), e.channels()));
}

/// Cache parity: after the first `i` pixels of an encoded stream the decoder
/// has decoded exactly those pixels, and its cache and previous pixel are the
/// encoder's after the same pixels.
pub proof fn lemma_cache_parity(px: Seq<RgbaColor>, i: int, channels: usize)
    requires
        valid_channels(channels),
        forall|j: int| 0 <= j < px.len() ==> fits(#[trigger] px[j], channels),
        0 <= i <= px.len(),
    ensures
        decode_prefix(encoded_stream(px), i as nat, channels) matches Some((d, pos, cache)) && d
            == px.take(i) && pos == encoded(px.take(i)).len() && cache == cache_after(px.take(i))
            && prev_after(d) == prev_after(px.take(i)),
{
    let head = px.take(i);
    lemma_encoded_prefix(px, i);
    let tail = encoded(px).subrange(encoded(head).len() as int, encoded(px).len() as int);
    let rest = tail + crate::grammar::end_marker();
    assert(encoded_stream(px) =~= encoded(head) + rest);
    assert forall|j: int| 0 <= j < head.len() implies fits(#[trigger] head[j], channels) by {
        assert(head[j] == px[j]);
    }
    lemma_decode_encoded(head, rest, channels);
}

/// A decoder over the stream of `px` follows the encoder read by read: after
/// `i` pixels it holds the first `i` pixels of `px`, the encoder's cache and
/// previous pixel after them; while pixels remain, the next unit gives the
/// next pixel of `px`; once all are out, the end marker stands where the
/// decoder looks for it.
pub proof fn lemma_decoder_follows_encoder(d: PixelDecoder, px: Seq<RgbaColor>)
    requires
        d.valid(),
        d.data() == encoded_stream(px),
        d.pixels_count() == px.len(),
        forall|j: int| 0 <= j < px.len() ==> fits(#[trigger] px[j], d.channels()),
    ensures
        d.pixels() == px.take(d.pixels().len() as int),
        d.cache() == cache_after(d.pixels()),
        d.position() == encoded(d.pixels()).len(),
        d.pixels().len() < px.len() ==> (next_unit(
            d.cache(),
            prev_after(d.pixels()),
            d.data(),
            d.position() as int,
            d.channels(),
        ) matches Ok((p, n)) && p == px[d.pixels().len() as int]),
        d.pixels().len() == px.len() ==> d.position() + 8 <= d.data().len() && d.data().subrange(
            d.position() as int,
            d.position() + 8int,
        ) == crate::grammar::end_marker(),
{
    let i = d.pixels().len() as int;
    lemma_cache_parity(px, i, d.channels());
    if i < px.len() {
        lemma_cache_parity(px, i + 1, d.channels());
        assert(px.take(i + 1) == px.take(i).push(px[i]));
    } else {
        assert(px.take(i) =~= px);
        lemma_round_trip(px, d.channels());
    }
}

/// Grammar exclusivity: no leading byte belongs to two unit kinds.
pub proof fn lemma_grammar_exclusivity(b: u8, o1: Op, o2: Op)
    requires
        claims(o1, b),
        claims(o2, b),
    ensures
        o1 == o2,
{
    lemma_grammar_exclusive(b, o1);
    lemma_grammar_exclusive(b, o2);
}

/// Where in the order the encoder tries a unit kind.
pub open spec fn rank(op: Op) -> nat {
    match op {
        Op::Index => 0,
        Op::AlphaDiff => 1,
        Op::GrayAlpha => 2,
        Op::Rgba => 3,
        Op::Diff => 4,
        Op::Luma => 5,
        Op::Gray => 6,
        Op::Rgb => 7,
        Op::RunLength => 8,
    }
}

/// Whether the unit kind `op` can represent `px` after `prev`.
pub open spec fn applies(op: Op, cache: Seq<RgbaColor>, prev: RgbaColor, px: RgbaColor) -> bool {
    match op {
        Op::Index => cache[hash_of(px)] == px,
        Op::AlphaDiff => crate::grammar::fits_alpha_diff(px, prev),
        Op::GrayAlpha => px.a != prev.a && crate::pixel::gray(px),
        Op::Rgba => px.a != prev.a,
        Op::Diff => px.a == prev.a && fits_diff(px, prev),
        Op::Luma => px.a == prev.a && crate::grammar::fits_luma(px, prev),
        Op::Gray => px.a == prev.a && crate::pixel::gray(px),
        Op::Rgb => px.a == prev.a,
        Op::RunLength => false,
    }
}

/// Priority: the encoder picks a unit kind that represents the pixel, and no
/// kind that comes earlier in its order could have.
pub proof fn lemma_priority(cache: Seq<RgbaColor>, prev: RgbaColor, px: RgbaColor, op: Op)
    requires
        applies(op, cache, prev, px),
    ensures
        applies(chosen_op(cache, prev, px), cache, prev, px),
        rank(chosen_op(cache, prev, px)) <= rank(op),
{
}

proof fn lemma_split_eq(a1: Seq<u8>, b1: Seq<u8>, a2: Seq<u8>, b2: Seq<u8>)
    requires
        a1 + b1 == a2 + b2,
        a1.len() == a2.len(),
    ensures
        a1 == a2,
        b1 == b2,
{
    let s = a1 + b1;
    assert(a1 =~= s.take(a1.len() as int));
    assert(a2 =~= s.take(a1.len() as int));
    assert(b1 =~= s.skip(a1.len() as int));
    assert(b2 =~= s.skip(a1.len() as int));
}

proof fn lemma_same_count(n1: int, n2: int, c: int, k1: int, k2: int)
    requires
        n1 * c + k1 == n2 * c + k2,
        0 <= k1 < c,
        0 <= k2 < c,
        n1 >= 0,
        n2 >= 0,
    ensures
        n1 == n2,
{
    assert(n1 == n2) by (nonlinear_arith)
        requires
            n1 * c + k1 == n2 * c + k2,
            0 <= k1 < c,
            0 <= k2 < c,
            n1 >= 0,
            n2 >= 0,
    ;
}

proof fn lemma_bytes_injective(xs: Seq<RgbaColor>, ys: Seq<RgbaColor>, channels: usize)
    requires
        valid_channels(channels),
        forall|i: int| 0 <= i < xs.len() ==> fits(#[trigger] xs[i], channels),
        forall|i: int| 0 <= i < ys.len() ==> fits(#[trigger] ys[i], channels),
        xs.len() == ys.len(),
        bytes_of(xs, channels) == bytes_of(ys, channels),
    ensures
        xs == ys,
    decreases xs.len(),
{
    if xs.len() > 0 {
        let (i1, i2) = (xs.drop_last(), ys.drop_last());
        lemma_bytes_len(i1, channels);
        lemma_bytes_len(i2, channels);
        lemma_split_eq(
            bytes_of(i1, channels),
            channel_bytes(xs.last(), channels),
            bytes_of(i2, channels),
            channel_bytes(ys.last(), channels),
        );
        let n = xs.len() - 1;
        assert(fits(xs[n], channels) && fits(ys[n], channels));
        assert(channel_bytes(xs.last(), channels)[0] == xs.last().r);
        assert(xs.last() == ys.last());
        assert forall|i: int| 0 <= i < i1.len() implies fits(#[trigger] i1[i], channels) by {
            assert(i1[i] == xs[i]);
        }
        assert forall|i: int| 0 <= i < i2.len() implies fits(#[trigger] i2[i], channels) by {
            assert(i2[i] == ys[i]);
        }
        lemma_bytes_injective(i1, i2, channels);
        assert(xs =~= i1.push(xs.last()));
        assert(ys =~= i2.push(ys.last()));
    } else {
        assert(xs =~= ys);
    }
}

/// Channel bytes determine the pixels: two sessions that took the same bytes
/// with the same channel count hold the same pixels and the same pending bytes.
pub proof fn lemma_bytes_determine_pixels(
    xs: Seq<RgbaColor>,
    k1: Seq<u8>,
    ys: Seq<RgbaColor>,
    k2: Seq<u8>,
    channels: usize,
)
    requires
        valid_channels(channels),
        forall|i: int| 0 <= i < xs.len() ==> fits(#[trigger] xs[i], channels),
        forall|i: int| 0 <= i < ys.len() ==> fits(#[trigger] ys[i], channels),
        k1.len() < channels,
        k2.len() < channels,
        bytes_of(xs, channels) + k1 == bytes_of(ys, channels) + k2,
    ensures
        xs == ys,
        k1 == k2,
{
    lemma_bytes_len(xs, channels);
    lemma_bytes_len(ys, channels);
    let b1 = bytes_of(xs, channels);
    let b2 = bytes_of(ys, channels);
    assert((b1 + k1).len() == (b2 + k2).len());
    lemma_same_count(xs.len() as int, ys.len() as int, channels as int, k1.len() as int, k2.len() as int);
    lemma_split_eq(b1, k1, b2, k2);
    lemma_bytes_injective(xs, ys, channels);
}

proof fn lemma_bytes_len(px: Seq<RgbaColor>, channels: usize)
    requires
        valid_channels(channels),
    ensures
        bytes_of(px, channels).len() == px.len() * channels,
    decreases px.len(),
{
    if px.len() > 0 {
        lemma_bytes_len(px.drop_last(), channels);
        let c = channels as int;
        assert((px.len() - 1) * c + c == px.len() * c) by (nonlinear_arith);
    }
}

/// Determinism: two encoders that took the same pixel bytes with the same
/// channel count, and have both written or both not written the end marker,
/// have written the same bytes.
pub proof fn lemma_encoding_deterministic(e1: PixelEncoder, e2: PixelEncoder)
    requires
        e1.valid(),
        e2.valid(),
        e1.channels() == e2.channels(),
        e1.input() == e2.input(),
        e1.is_finished() == e2.is_finished(),
    ensures
        e1.pixels() == e2.pixels(),
        e1.output() == e2.output(),
{
    lemma_bytes_determine_pixels(e1.pixels(), e1.pending(), e2.pixels(), e2.pending(), e1.channels());
}

/// The signed change from `p` to `c`, wrapped into [-128, 127].
pub open spec fn delta(c: u8, p: u8) -> int {
    (c - p + 384) % 256 - 128
}

proof fn lemma_coarse_channel(c: u8, p: u8)
    ensures
        (crate::pixel::step(c, p, 2) < 4) <==> (-2 <= delta(c, p) <= 1),
{
}

/// Range boundary: with alpha unchanged and no cache hit, changes of r, g, b
/// within [-2, 1] take a coarse difference, edges included; a change one
/// past either edge in any channel takes a luma difference or a literal.
pub proof fn lemma_diff_boundary(cache: Seq<RgbaColor>, prev: RgbaColor, px: RgbaColor)
    requires
        cache[hash_of(px)] != px,
        px.a == prev.a,
    ensures
        -2 <= delta(px.r, prev.r) <= 1 && -2 <= delta(px.g, prev.g) <= 1 && -2 <= delta(px.b, prev.b)
            <= 1 ==> chosen_op(cache, prev, px) == Op::Diff,
        delta(px.r, prev.r) == 2 || delta(px.r, prev.r) == -3 || delta(px.g, prev.g) == 2
            || delta(px.g, prev.g) == -3 || delta(px.b, prev.b) == 2 || delta(px.b, prev.b) == -3
            ==> chosen_op(cache, prev, px) == Op::Luma || chosen_op(cache, prev, px) == Op::Gray
            || chosen_op(cache, prev, px) == Op::Rgb,
{
    lemma_coarse_channel(px.r, prev.r);
    lemma_coarse_channel(px.g, prev.g);
    lemma_coarse_channel(px.b, prev.b);
    assert(!crate::grammar::fits_alpha_diff(px, prev));
    let op = chosen_op(cache, prev, px);
    if fits_diff(px, prev) {
        assert(op == Op::Diff);
    } else {
        assert(op == Op::Luma || op == Op::Gray || op == Op::Rgb);
    }
}

/// Alpha invariant: in a three-channel session, whose pixels are all opaque,
/// every pixel decoded from the encoded stream is opaque.
pub proof fn lemma_alpha_opaque(px: Seq<RgbaColor>)
    requires
        forall|i: int| 0 <= i < px.len() ==> (#[trigger] px[i]).a == 255,
    ensures
        decode_stream(encoded_stream(px), px.len(), 3) matches Some(d) && forall|i: int|
            0 <= i < d.len() ==> (#[trigger] d[i]).a == 255,
{
    assert forall|i: int| 0 <= i < px.len() implies fits(#[trigger] px[i], 3) by {
        assert(px[i].a == 255);
    }
    lemma_round_trip(px, 3);
}

} // verus!
