use vstd::prelude::*;

verus! {

/// Number of slots of the recent-colors cache.
pub const CACHE_SIZE: usize = 64;

/// A color with four byte channels.
#[derive(Clone, Copy, PartialEq, Eq, Structural, Debug)]
pub struct RgbaColor {
    pub r: u8,
    pub g: u8,
    pub b: u8,
    pub a: u8,
}

/// Opaque black: the previous pixel at the start of every session.
pub open spec fn opaque_black() -> RgbaColor {
    RgbaColor { r: 0, g: 0, b: 0, a: 255 }
}

/// Transparent black: the content of every cache slot at the start.
pub open spec fn transparent() -> RgbaColor {
    RgbaColor { r: 0, g: 0, b: 0, a: 0 }
}

/// The cache slot of a color.
pub open spec fn hash_of(p: RgbaColor) -> int {
    (3 * p.r + 5 * p.g + 7 * p.b + 11 * p.a) % 64
}

pub open spec fn gray(p: RgbaColor) -> bool {
    p.r == p.g && p.g == p.b
}

pub open spec fn same_rgb(p: RgbaColor, q: RgbaColor) -> bool {
    p.r == q.r && p.g == q.g && p.b == q.b
}

/// The wrapped difference `c - p` modulo 256, shifted up by `bias`.
pub open spec fn step(c: u8, p: u8, bias: int) -> int {
    (c + 256 - p + bias) % 256
}

/// Inverse of `step`: the channel that lies `v - bias` above `p`, modulo 256.
pub open spec fn unstep(p: u8, v: int, bias: int) -> u8 {
    ((p + v + 256 - bias) % 256) as u8
}

/// The cache at the start of a session.
pub open spec fn initial_cache() -> Seq<RgbaColor> {
    Seq::new(64, |i: int| transparent())
}

/// The bytes that a caller hands over (or gets back) for one pixel.
pub open spec fn channel_bytes(p: RgbaColor, channels: usize) -> Seq<u8> {
    if channels == 4 {
        seq![p.r, p.g, p.b, p.a]
    } else {
        seq![p.r, p.g, p.b]
    }
}

/// The bytes of a sequence of pixels, one after another.
pub open spec fn bytes_of(px: Seq<RgbaColor>, channels: usize) -> Seq<u8>
    decreases px.len(),
{
    if px.len() == 0 {
        Seq::empty()
    } else {
        bytes_of(px.drop_last(), channels) + channel_bytes(px.last(), channels)
    }
}

/// A channel count that a session may have.
pub open spec fn valid_channels(channels: usize) -> bool {
    channels == 3 || channels == 4
}

/// A pixel that a session of the given channel count can hold.
pub open spec fn fits(p: RgbaColor, channels: usize) -> bool {
    channels == 3 ==> p.a == 255
}

impl RgbaColor {
    pub fn new(r: u8, g: u8, b: u8, a: u8) -> (c: RgbaColor)
        ensures
            c == (RgbaColor { r, g, b, a }),
    {
        RgbaColor { r, g, b, a }
    }

    pub fn is_gray(&self) -> (r: bool)
        ensures
            r == gray(*self),
    {
        self.r == self.g && self.g == self.b
    }
}

pub fn pixel_hash(p: RgbaColor) -> (h: usize)
    ensures
        h == hash_of(p),
        h < 64,
{
    ((3 * (p.r as u32) + 5 * (p.g as u32) + 7 * (p.b as u32) + 11 * (p.a as u32)) % 64) as usize
}

/// Exec form of `step`.
pub fn channel_step(c: u8, p: u8, bias: u8) -> (v: u8)
    ensures
        v == step(c, p, bias as int),
{
    ((c as u16 + 256 - p as u16 + bias as u16) % 256) as u8
}

/// Exec form of `unstep`.
pub fn channel_unstep(p: u8, v: u8, bias: u8) -> (c: u8)
    ensures
        c == unstep(p, v as int, bias as int),
{
    ((p as u16 + v as u16 + 256 - bias as u16) % 256) as u8
}

pub proof fn lemma_unstep_step(c: u8, p: u8, bias: int)
    requires
        0 <= bias < 256,
    ensures
        unstep(p, step(c, p, bias), bias) == c,
{
}

} // verus!
