use vstd::prelude::*;
use crate::pixel::{gray, hash_of, lemma_unstep_step, same_rgb, step, unstep, RgbaColor};

verus! {

/// First and last leading byte of a cache reference.
pub const OP_INDEX: u8 = 0x00;
pub const OP_INDEX_END: u8 = 0x3f;
/// First and last leading byte of a coarse difference.
pub const OP_DIFF: u8 = 0x40;
pub const OP_DIFF_END: u8 = 0x7f;
/// First and last leading byte of an alpha-only difference.
pub const OP_ALPHA: u8 = 0x80;
pub const OP_ALPHA_END: u8 = 0xf6;
/// Leading bytes kept for run lengths; no stream holds them.
pub const OP_RUNLENGTH: u8 = 0xf7;
pub const OP_RUNLENGTH_END: u8 = 0xfa;
pub const OP_LUMA: u8 = 0xfb;
pub const OP_GRAY: u8 = 0xfc;
pub const OP_GRAY_ALPHA: u8 = 0xfd;
pub const OP_RGB: u8 = 0xfe;
pub const OP_RGBA: u8 = 0xff;

/// Largest alpha step, modulo 256, that an alpha-only difference carries.
pub const MAX_ALPHA_STEP: u8 = 0x77;

/// The marker written after the last pixel.
pub open spec fn end_marker() -> Seq<u8> {
    seq![0u8, 0u8, 0u8, 0u8, 0u8, 0u8, 0u8, 1u8]
}

/// The kinds of encoded unit, each named by the leading bytes it owns.
#[derive(Clone, Copy, PartialEq, Eq, Structural, Debug)]
pub enum Op {
    Index,
    AlphaDiff,
    GrayAlpha,
    Rgba,
    Diff,
    Luma,
    Gray,
    Rgb,
    RunLength,
}

/// Whether the leading byte `b` belongs to the unit kind `op`.
pub open spec fn claims(op: Op, b: u8) -> bool {
    match op {
        Op::Index => OP_INDEX <= b <= OP_INDEX_END,
        Op::Diff => OP_DIFF <= b <= OP_DIFF_END,
        Op::AlphaDiff => OP_ALPHA <= b <= OP_ALPHA_END,
        Op::RunLength => OP_RUNLENGTH <= b <= OP_RUNLENGTH_END,
        Op::Luma => b == OP_LUMA,
        Op::Gray => b == OP_GRAY,
        Op::GrayAlpha => b == OP_GRAY_ALPHA,
        Op::Rgb => b == OP_RGB,
        Op::Rgba => b == OP_RGBA,
    }
}

/// The unit kind that a leading byte selects.
pub open spec fn op_of(b: u8) -> Op {
    if b <= OP_INDEX_END {
        Op::Index
    } else if b <= OP_DIFF_END {
        Op::Diff
    } else if b <= OP_ALPHA_END {
        Op::AlphaDiff
    } else if b <= OP_RUNLENGTH_END {
        Op::RunLength
    } else if b == OP_LUMA {
        Op::Luma
    } else if b == OP_GRAY {
        Op::Gray
    } else if b == OP_GRAY_ALPHA {
        Op::GrayAlpha
    } else if b == OP_RGB {
        Op::Rgb
    } else {
        Op::Rgba
    }
}

/// Every leading byte belongs to exactly one unit kind: the one `op_of` gives.
pub proof fn lemma_grammar_exclusive(b: u8, op: Op)
    ensures
        claims(op_of(b), b),
        claims(op, b) <==> op == op_of(b),
{
}

/// The wrapped alpha change from `prev` to `px`.
pub open spec fn alpha_step(px: RgbaColor, prev: RgbaColor) -> int {
    step(px.a, prev.a, 0)
}

pub open spec fn fits_alpha_diff(px: RgbaColor, prev: RgbaColor) -> bool {
    same_rgb(px, prev) && px.a != prev.a && alpha_step(px, prev) <= MAX_ALPHA_STEP
}

/// Each of r, g, b lies within [-2, 1] of the previous pixel, modulo 256.
pub open spec fn fits_diff(px: RgbaColor, prev: RgbaColor) -> bool {
    step(px.r, prev.r, 2) < 4 && step(px.g, prev.g, 2) < 4 && step(px.b, prev.b, 2) < 4
}

pub open spec fn diff_byte(px: RgbaColor, prev: RgbaColor) -> int {
    OP_DIFF + 16 * step(px.r, prev.r, 2) + 4 * step(px.g, prev.g, 2) + step(px.b, prev.b, 2)
}

/// The green change, shifted up by 8.
pub open spec fn luma_green(px: RgbaColor, prev: RgbaColor) -> int {
    step(px.g, prev.g, 8)
}

/// The change of a red or blue channel less the green change, shifted up by 2.
pub open spec fn luma_rel(c: u8, p: u8, green: int) -> int {
    (c + 512 - p - green + 10) % 256
}

/// Green lies within [-8, 7], and red and blue within [-2, 1] of green's change.
pub open spec fn fits_luma(px: RgbaColor, prev: RgbaColor) -> bool {
    let gv = luma_green(px, prev);
    gv < 16 && luma_rel(px.r, prev.r, gv) < 4 && luma_rel(px.b, prev.b, gv) < 4
}

pub open spec fn luma_byte(px: RgbaColor, prev: RgbaColor) -> int {
    let gv = luma_green(px, prev);
    16 * gv + 4 * luma_rel(px.r, prev.r, gv) + luma_rel(px.b, prev.b, gv)
}

/// The unit kind that the encoder picks for `px`, the first rule that applies.
/// A literal with alpha is taken whenever alpha changed and no alpha-only
/// difference fits, a change to 255 included: every later kind keeps the
/// previous alpha, so only these two can carry the new one.
pub open spec fn chosen_op(cache: Seq<RgbaColor>, prev: RgbaColor, px: RgbaColor) -> Op {
    if cache[hash_of(px)] == px {
        Op::Index
    } else if fits_alpha_diff(px, prev) {
        Op::AlphaDiff
    } else if px.a != prev.a && gray(px) {
        Op::GrayAlpha
    } else if px.a != prev.a {
        Op::Rgba
    } else if fits_diff(px, prev) {
        Op::Diff
    } else if fits_luma(px, prev) {
        Op::Luma
    } else if gray(px) {
        Op::Gray
    } else {
        Op::Rgb
    }
}

/// The bytes that encode `px` after `prev`, with the cache as it stands.
pub open spec fn encode_unit(cache: Seq<RgbaColor>, prev: RgbaColor, px: RgbaColor) -> Seq<u8> {
    match chosen_op(cache, prev, px) {
        Op::Index => seq![hash_of(px) as u8],
        Op::AlphaDiff => seq![(OP_ALPHA + alpha_step(px, prev) - 1) as u8],
        Op::GrayAlpha => seq![OP_GRAY_ALPHA, px.r, px.a],
        Op::Rgba => seq![OP_RGBA, px.r, px.g, px.b, px.a],
        Op::Diff => seq![diff_byte(px, prev) as u8],
        Op::Luma => seq![OP_LUMA, luma_byte(px, prev) as u8],
        Op::Gray => seq![OP_GRAY, px.r],
        _ => seq![OP_RGB, px.r, px.g, px.b],
    }
}

/// Number of bytes that a unit with leading byte `b` takes.
pub open spec fn unit_len(b: u8) -> nat {
    match op_of(b) {
        Op::Luma => 2,
        Op::Gray => 2,
        Op::GrayAlpha => 3,
        Op::Rgb => 4,
        Op::Rgba => 5,
        _ => 1,
    }
}

/// The pixel that a coarse difference byte `b` gives after `prev`.
#[verifier::opaque]
pub open spec fn diff_pixel(prev: RgbaColor, b: u8) -> RgbaColor {
    let v = b - OP_DIFF;
    RgbaColor {
        r: unstep(prev.r, v / 16, 2),
        g: unstep(prev.g, (v / 4) % 4, 2),
        b: unstep(prev.b, v % 4, 2),
        a: prev.a,
    }
}

/// The pixel that a luma difference with payload `v` gives after `prev`.
#[verifier::opaque]
pub open spec fn luma_pixel(prev: RgbaColor, b: u8) -> RgbaColor {
    let v = b as int;
    let gv = v / 16;
    RgbaColor {
        r: unstep(prev.r, gv + (v / 4) % 4, 10),
        g: unstep(prev.g, gv, 8),
        b: unstep(prev.b, gv + v % 4, 10),
        a: prev.a,
    }
}

/// The pixel of a unit whose bytes are `u` (of length `unit_len(u[0])`);
/// `None` for a reserved leading byte.
pub open spec fn unit_pixel(cache: Seq<RgbaColor>, prev: RgbaColor, u: Seq<u8>) -> Option<RgbaColor> {
    let b = u[0];
    match op_of(b) {
        Op::Index => Some(cache[b as int]),
        Op::Diff => Some(diff_pixel(prev, b)),
        Op::AlphaDiff => Some(RgbaColor { a: unstep(prev.a, b - OP_ALPHA + 1, 0), ..prev }),
        Op::RunLength => None,
        Op::Luma => Some(luma_pixel(prev, u[1])),
        Op::Gray => Some(RgbaColor { r: u[1], g: u[1], b: u[1], a: prev.a }),
        Op::GrayAlpha => Some(RgbaColor { r: u[1], g: u[1], b: u[1], a: u[2] }),
        Op::Rgb => Some(RgbaColor { r: u[1], g: u[2], b: u[3], a: prev.a }),
        Op::Rgba => Some(RgbaColor { r: u[1], g: u[2], b: u[3], a: u[4] }),
    }
}

proof fn lemma_luma_channel(c: u8, p: u8, gv: int)
    requires
        0 <= gv < 16,
    ensures
        unstep(p, gv + luma_rel(c, p, gv), 10) == c,
{
}

proof fn lemma_diff_unit(prev: RgbaColor, px: RgbaColor)
    requires
        fits_diff(px, prev),
        px.a == prev.a,
    ensures
        OP_DIFF <= diff_byte(px, prev) <= OP_DIFF_END,
        diff_pixel(prev, diff_byte(px, prev) as u8) == px,
{
    reveal(diff_pixel);
    let (rv, gv, bv) = (step(px.r, prev.r, 2), step(px.g, prev.g, 2), step(px.b, prev.b, 2));
    let b = diff_byte(px, prev) as u8;
    let v = b - OP_DIFF;
    assert(v / 16 == rv && (v / 4) % 4 == gv && v % 4 == bv) by (nonlinear_arith)
        requires
            v == 16 * rv + 4 * gv + bv,
            0 <= rv < 4,
            0 <= gv < 4,
            0 <= bv < 4,
    ;
    lemma_unstep_step(px.r, prev.r, 2);
    lemma_unstep_step(px.g, prev.g, 2);
    lemma_unstep_step(px.b, prev.b, 2);
}

proof fn lemma_luma_unit(prev: RgbaColor, px: RgbaColor)
    requires
        fits_luma(px, prev),
        px.a == prev.a,
    ensures
        0 <= luma_byte(px, prev) < 256,
        luma_pixel(prev, luma_byte(px, prev) as u8) == px,
{
    reveal(luma_pixel);
    let gv = luma_green(px, prev);
    let rv = luma_rel(px.r, prev.r, gv);
    let bv = luma_rel(px.b, prev.b, gv);
    let v = luma_byte(px, prev);
    assert(v / 16 == gv && (v / 4) % 4 == rv && v % 4 == bv) by (nonlinear_arith)
        requires
            v == 16 * gv + 4 * rv + bv,
            0 <= rv < 4,
            0 <= gv < 16,
            0 <= bv < 4,
    ;
    assert(0 <= v < 256);
    lemma_unstep_step(px.g, prev.g, 8);
    lemma_luma_channel(px.r, prev.r, gv);
    lemma_luma_channel(px.b, prev.b, gv);
}

/// Decoding the bytes of one encoded pixel gives that pixel back.
pub proof fn lemma_unit_round_trip(cache: Seq<RgbaColor>, prev: RgbaColor, px: RgbaColor)
    requires
        cache.len() == 64,
    ensures
        encode_unit(cache, prev, px).len() == unit_len(encode_unit(cache, prev, px)[0]),
        unit_pixel(cache, prev, encode_unit(cache, prev, px)) == Some(px),
        claims(chosen_op(cache, prev, px), encode_unit(cache, prev, px)[0]),
        op_of(encode_unit(cache, prev, px)[0]) == chosen_op(cache, prev, px),
        chosen_op(cache, prev, px) == Op::Index ==> encode_unit(cache, prev, px) == seq![
            hash_of(px) as u8,
        ] && cache[hash_of(px)] == px,
{
    let u = encode_unit(cache, prev, px);
    match chosen_op(cache, prev, px) {
        Op::Index => {
            let h = hash_of(px);
            assert(0 <= h < 64);
            assert(u =~= seq![h as u8]);
            assert(op_of(h as u8) == Op::Index);
        },
        Op::Diff => {
            lemma_diff_unit(prev, px);
            assert(u =~= seq![diff_byte(px, prev) as u8]);
        },
        Op::Luma => {
            lemma_luma_unit(prev, px);
            assert(u =~= seq![OP_LUMA, luma_byte(px, prev) as u8]);
        },
        Op::AlphaDiff => {
            let st = alpha_step(px, prev);
            assert(1 <= st <= MAX_ALPHA_STEP);
            assert(u =~= seq![(OP_ALPHA + st - 1) as u8]);
            lemma_unstep_step(px.a, prev.a, 0);
        },
        Op::GrayAlpha => {
            assert(u =~= seq![OP_GRAY_ALPHA, px.r, px.a]);
        },
        Op::Rgba => {
            assert(u =~= seq![OP_RGBA, px.r, px.g, px.b, px.a]);
        },
        Op::Gray => {
            assert(u =~= seq![OP_GRAY, px.r]);
        },
        _ => {
            assert(u =~= seq![OP_RGB, px.r, px.g, px.b]);
        },
    }
}

} // verus!
