use vstd::prelude::*;
use crate::grammar::{
    chosen_op, encode_unit, end_marker, lemma_unit_round_trip, op_of, unit_len, unit_pixel, Op,
};
use crate::pixel::{fits, hash_of, initial_cache, opaque_black, RgbaColor};

verus! {

/// The cache once the pixels `px` have been processed.
pub open spec fn cache_after(px: Seq<RgbaColor>) -> Seq<RgbaColor>
    decreases px.len(),
{
    if px.len() == 0 {
        initial_cache()
    } else {
        cache_after(px.drop_last()).update(hash_of(px.last()), px.last())
    }
}

/// The previous pixel once the pixels `px` have been processed.
pub open spec fn prev_after(px: Seq<RgbaColor>) -> RgbaColor {
    if px.len() == 0 {
        opaque_black()
    } else {
        px.last()
    }
}

/// The op-code bytes of the pixels `px`, without the end marker.
pub open spec fn encoded(px: Seq<RgbaColor>) -> Seq<u8>
    decreases px.len(),
{
    if px.len() == 0 {
        Seq::empty()
    } else {
        encoded(px.drop_last()) + encode_unit(
            cache_after(px.drop_last()),
            prev_after(px.drop_last()),
            px.last(),
        )
    }
}

/// A whole stream: the op-code bytes of every pixel, then the end marker.
pub open spec fn encoded_stream(px: Seq<RgbaColor>) -> Seq<u8> {
    encoded(px) + end_marker()
}

/// Why the next unit of a stream cannot be decoded.
pub enum UnitFault {
    /// The data ends inside the unit.
    Truncated,
    /// The leading byte is reserved, or a unit that carries its own alpha
    /// gives a pixel that the channel count cannot hold.
    Invalid,
}

/// The unit kinds that write an alpha of their own; every other kind takes
/// alpha from the previous pixel or from a cache slot.
pub open spec fn carries_alpha(op: Op) -> bool {
    op == Op::AlphaDiff || op == Op::GrayAlpha || op == Op::Rgba
}

/// The unit that starts at `pos`: its pixel and its length, or why there is none.
/// A cache reference gives the slot's value as it stands, whatever it holds,
/// and a unit that inherits alpha keeps it whatever it is; only a unit that
/// writes its own alpha must give a pixel that the channel count can hold.
pub open spec fn next_unit(
    cache: Seq<RgbaColor>,
    prev: RgbaColor,
    data: Seq<u8>,
    pos: int,
    channels: usize,
) -> Result<(RgbaColor, nat), UnitFault> {
    if pos < 0 || pos >= data.len() || pos + unit_len(data[pos]) > data.len() {
        Err(UnitFault::Truncated)
    } else {
        let n = unit_len(data[pos]);
        match unit_pixel(cache, prev, data.subrange(pos, pos + n)) {
            Some(p) => if !carries_alpha(op_of(data[pos])) || fits(p, channels) {
                Ok((p, n))
            } else {
                Err(UnitFault::Invalid)
            },
            None => Err(UnitFault::Invalid),
        }
    }
}

/// The decoder's cache after a unit with leading byte `b` gave `p`: a cache
/// reference leaves it as it is, any other unit stores `p` in its slot.
pub open spec fn cache_after_unit(cache: Seq<RgbaColor>, b: u8, p: RgbaColor) -> Seq<RgbaColor> {
    if op_of(b) == Op::Index {
        cache
    } else {
        cache.update(hash_of(p), p)
    }
}

/// The first `n` pixels that `data` decodes to, where their bytes end, and
/// the decoder's cache after them; `None` where one of them cannot be decoded.
pub open spec fn decode_prefix(data: Seq<u8>, n: nat, channels: usize) -> Option<
    (Seq<RgbaColor>, nat, Seq<RgbaColor>),
>
    decreases n,
{
    if n == 0 {
        Some((Seq::empty(), 0, initial_cache()))
    } else {
        match decode_prefix(data, (n - 1) as nat, channels) {
            Some((px, pos, cache)) => match next_unit(
                cache,
                prev_after(px),
                data,
                pos as int,
                channels,
            ) {
                Ok((p, len)) => Some(
                    (px.push(p), pos + len, cache_after_unit(cache, data[pos as int], p)),
                ),
                Err(_) => None,
            },
            None => None,
        }
    }
}

/// The `n` pixels of a whole stream, when they decode and the end marker follows.
pub open spec fn decode_stream(data: Seq<u8>, n: nat, channels: usize) -> Option<Seq<RgbaColor>> {
    match decode_prefix(data, n, channels) {
        Some((px, pos, _)) => if pos + 8 <= data.len() && data.subrange(pos as int, pos + 8int)
            == end_marker() {
            Some(px)
        } else {
            None
        },
        None => None,
    }
}

pub proof fn lemma_cache_len(px: Seq<RgbaColor>)
    ensures
        cache_after(px).len() == 64,
    decreases px.len(),
{
    if px.len() > 0 {
        lemma_cache_len(px.drop_last());
    }
}

/// Decoding the op-code bytes of `px`, whatever follows them, gives `px` back,
/// stops at their end, and leaves the decoder with the encoder's cache.
pub proof fn lemma_decode_encoded(px: Seq<RgbaColor>, rest: Seq<u8>, channels: usize)
    requires
        forall|i: int| 0 <= i < px.len() ==> fits(#[trigger] px[i], channels),
    ensures
        decode_prefix(encoded(px) + rest, px.len(), channels) == Some(
            (px, encoded(px).len(), cache_after(px)),
        ),
    decreases px.len(),
{
    if px.len() > 0 {
        let init = px.drop_last();
        let p = px.last();
        let u = encode_unit(cache_after(init), prev_after(init), p);
        assert(encoded(px) + rest =~= encoded(init) + (u + rest));
        lemma_decode_encoded(init, u + rest, channels);
        lemma_cache_len(init);
        lemma_unit_round_trip(cache_after(init), prev_after(init), p);
        let data = encoded(px) + rest;
        let pos = encoded(init).len() as int;
        assert(data.subrange(pos, pos + u.len()) =~= u);
        assert(px.len() - 1 == init.len());
        assert(init.push(p) =~= px);
        if chosen_op(cache_after(init), prev_after(init), p) == Op::Index {
            assert(cache_after(init).update(hash_of(p), p) =~= cache_after(init));
        }
    }
}

/// The op-code bytes of a prefix of `px` are a prefix of those of `px`.
pub proof fn lemma_encoded_prefix(px: Seq<RgbaColor>, i: int)
    requires
        0 <= i <= px.len(),
    ensures
        encoded(px) =~= encoded(px.take(i)) + encoded(px).subrange(
            encoded(px.take(i)).len() as int,
            encoded(px).len() as int,
        ),
        encoded(px.take(i)).len() <= encoded(px).len(),
    decreases px.len(),
{
    if i < px.len() {
        lemma_encoded_prefix(px.drop_last(), i);
        assert(px.drop_last().take(i) =~= px.take(i));
    } else {
        assert(px.take(i) =~= px);
    }
}

} // verus!
