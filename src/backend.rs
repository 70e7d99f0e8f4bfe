use vstd::prelude::*;

verus! {

/// The byte transport beneath the op-code stream, chosen once per session.
#[derive(Clone, Copy, PartialEq, Eq, Structural, Debug)]
pub enum Backend {
    /// The op-code bytes as they are.
    Uncompressed,
    /// The op-code bytes inside one LZ4 frame.
    Lz4,
}

#[verifier::external_type_specification]
#[verifier::external_body]
pub struct ExLz4FrameError(lz4_flex::frame::Error);

/// The LZ4 frame that `lz4_flex` writes for `data` with its default frame settings.
pub uninterp spec fn lz4_frame_of(data: Seq<u8>) -> Seq<u8>;

/// What `lz4_flex`'s frame decoder yields when `read_to_end` reads from
/// `frame`: the contents of the first frame, up to its end mark (nothing for
/// empty input), or `None` where it fails.
pub uninterp spec fn lz4_unframe(frame: Seq<u8>) -> Option<Seq<u8>>;

/// Relies on `lz4_flex::frame::FrameEncoder` (`new`, `write_all`, `finish`) writing
/// into a `Vec`: with the default frame settings it does not fail (a `Vec`
/// never refuses a write, no content size is declared, and each block goes to
/// a buffer of the block's maximum compressed size); the frame it produces is
/// a function of the input bytes, and the frame decoder gives those bytes back.
#[verifier::external_body]
pub(crate) fn lz4_compress(data: &Vec<u8>) -> (r: Result<Vec<u8>, lz4_flex::frame::Error>)
    ensures
        r is Ok,
        r is Ok ==> r->Ok_0@ == lz4_frame_of(data@),
        r is Ok ==> lz4_unframe(r->Ok_0@) == Some(data@),
{
    let mut enc = lz4_flex::frame::FrameEncoder::new(Vec::new());
    std::io::Write::write_all(&mut enc, data.as_slice())?;
    enc.finish()
}

/// Relies on `lz4_flex::frame::FrameDecoder` reading a whole frame from a slice
/// with `read_to_end`: success and the bytes it yields depend on the frame alone.
#[verifier::external_body]
pub(crate) fn lz4_decompress(frame: &Vec<u8>) -> (r: Option<Vec<u8>>)
    ensures
        r is Some <==> lz4_unframe(frame@) is Some,
        r is Some ==> r->Some_0@ == lz4_unframe(frame@)->Some_0,
{
    let mut out = Vec::new();
    let mut dec = lz4_flex::frame::FrameDecoder::new(frame.as_slice());
    match std::io::Read::read_to_end(&mut dec, &mut out) {
        Ok(_) => Some(out),
        Err(_) => None,
    }
}

} // verus!
