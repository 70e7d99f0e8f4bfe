use koi::grammar::{
    OP_ALPHA, OP_GRAY, OP_GRAY_ALPHA, OP_LUMA, OP_RGB, OP_RGBA, OP_RUNLENGTH,
};
use koi::{Backend, DecodeError, EncodeError, PixelDecoder, PixelEncoder};

const MARKER: [u8; 8] = [0, 0, 0, 0, 0, 0, 0, 1];

fn encode(raw: &[u8], count: usize, channels: usize) -> Vec<u8> {
    let mut e = PixelEncoder::new_uncompressed(count, channels);
    assert_eq!(e.write(raw), raw.len());
    assert_eq!(e.flush(), Ok(()));
    e.into_bytes()
}

fn decode(data: Vec<u8>, count: usize, channels: usize) -> Result<Vec<u8>, DecodeError> {
    let mut d = PixelDecoder::new(data, count, channels);
    let mut out = Vec::new();
    loop {
        if d.read(&mut out)? == 0 {
            return Ok(out);
        }
    }
}

fn with_marker(units: &[u8]) -> Vec<u8> {
    let mut v = units.to_vec();
    v.extend_from_slice(&MARKER);
    v
}

fn sample_rgba(n: usize) -> Vec<u8> {
    let mut raw = Vec::new();
    let mut x: u32 = 12345;
    for i in 0..n {
        x = x.wrapping_mul(1103515245).wrapping_add(12345);
        let pick = (x >> 16) % 6;
        let base = (i as u32 * 7) as u8;
        let px = match pick {
            0 => [base, base, base, 255],
            1 => [base.wrapping_add(1), base, base.wrapping_sub(2), 255],
            2 => [(x >> 8) as u8, (x >> 3) as u8, (x >> 11) as u8, 255],
            3 => [10, 20, 30, (x >> 5) as u8],
            4 => [base, base, base, 128],
            _ => [0, 0, 0, 255],
        };
        raw.extend_from_slice(&px);
    }
    raw
}

#[test]
fn round_trip_rgba() {
    let raw = sample_rgba(500);
    let enc = encode(&raw, 500, 4);
    assert_eq!(decode(enc, 500, 4).unwrap(), raw);
}

#[test]
fn round_trip_rgb() {
    let rgba = sample_rgba(400);
    let raw: Vec<u8> = rgba.chunks(4).flat_map(|c| c[..3].to_vec()).collect();
    let enc = encode(&raw, 400, 3);
    assert_eq!(decode(enc, 400, 3).unwrap(), raw);
}

#[test]
fn round_trip_lz4() {
    let raw = sample_rgba(300);
    let mut e = PixelEncoder::new_lz4(300, 4);
    assert_eq!(e.write(&raw), raw.len());
    let frame = e.into_bytes();
    let plain = encode(&raw, 300, 4);
    assert_ne!(frame, plain);
    assert_eq!(&frame[..4], &[0x04, 0x22, 0x4d, 0x18]);
    let mut d = PixelDecoder::new_lz4(frame, 300, 4).unwrap();
    let mut out = Vec::new();
    while d.read(&mut out).unwrap() != 0 {}
    assert_eq!(out, raw);
}

#[test]
fn lz4_rejects_garbage() {
    assert!(matches!(
        PixelDecoder::new_lz4(vec![1, 2, 3, 4, 5], 1, 4),
        Err(DecodeError::Compression)
    ));
}

#[test]
fn repeated_pixel_uses_index() {
    let enc = encode(&[10, 10, 10, 255, 10, 10, 10, 255], 2, 4);
    assert_eq!(enc, with_marker(&[OP_GRAY, 10, 11]));
}

#[test]
fn alpha_only_change() {
    let enc = encode(&[0, 0, 0, 255, 0, 0, 0, 100], 2, 4);
    assert_eq!(enc, with_marker(&[0x6a, OP_ALPHA + 100]));
    assert_eq!(decode(enc, 2, 4).unwrap(), vec![0, 0, 0, 255, 0, 0, 0, 100]);
}

#[test]
fn large_change_is_rgb_literal() {
    let enc = encode(&[0, 0, 0, 255, 200, 5, 9, 255], 2, 4);
    assert_eq!(enc, with_marker(&[0x6a, OP_RGB, 200, 5, 9]));
}

#[test]
fn empty_image_is_only_marker() {
    let e = PixelEncoder::new(Backend::Uncompressed, 0, 4);
    assert_eq!(e.into_bytes(), MARKER.to_vec());
    assert_eq!(decode(MARKER.to_vec(), 0, 4).unwrap(), Vec::<u8>::new());
}

#[test]
fn corrupted_marker_fails_at_end() {
    let mut enc = encode(&[10, 10, 10, 255, 10, 10, 10, 255], 2, 4);
    let n = enc.len();
    enc[n - 1] = 7;
    let mut d = PixelDecoder::new(enc, 2, 4);
    let mut out = Vec::new();
    assert_eq!(d.read(&mut out), Ok(4));
    assert_eq!(d.read(&mut out), Ok(4));
    assert_eq!(d.read(&mut out), Err(DecodeError::InvalidEndMarker));
    assert_eq!(out, vec![10, 10, 10, 255, 10, 10, 10, 255]);
}

#[test]
fn reads_after_end_return_zero() {
    let mut d = PixelDecoder::new(MARKER.to_vec(), 0, 3);
    let mut out = Vec::new();
    assert_eq!(d.read(&mut out), Ok(0));
    assert_eq!(d.read(&mut out), Ok(0));
}

#[test]
fn truncated_stream() {
    let mut d = PixelDecoder::new(vec![OP_RGB, 1, 2], 1, 4);
    let mut out = Vec::new();
    assert_eq!(d.read(&mut out), Err(DecodeError::UnexpectedEnd));
    let mut d = PixelDecoder::new(vec![0x6a, 0, 0, 0], 1, 4);
    assert_eq!(d.read(&mut out), Ok(4));
    assert_eq!(d.read(&mut out), Err(DecodeError::UnexpectedEnd));
}

#[test]
fn reserved_op_is_invalid() {
    let mut d = PixelDecoder::new(with_marker(&[OP_RUNLENGTH]), 1, 4);
    let mut out = Vec::new();
    assert_eq!(d.read(&mut out), Err(DecodeError::InvalidOp));
    assert!(out.is_empty());
}

#[test]
fn coarse_edges_and_beyond() {
    // +1 and -2 are at the edges of the coarse range
    let enc = encode(&[1, 254, 0, 255], 1, 4);
    assert_eq!(enc, with_marker(&[0x40 + 3 * 16 + 0 * 4 + 2]));
    // +2 on red: luma cannot hold red relative to green either
    let enc = encode(&[2, 0, 0, 255], 1, 4);
    assert_eq!(enc, with_marker(&[OP_RGB, 2, 0, 0]));
    // -3 on every channel: a gray pixel that luma holds
    let enc = encode(&[253, 253, 253, 255], 1, 4);
    assert_eq!(enc, with_marker(&[OP_LUMA, 16 * 5 + 4 * 2 + 2]));
}

#[test]
fn luma_difference() {
    let enc = encode(&[0, 0, 0, 255, 5, 6, 7, 255], 2, 4);
    assert_eq!(enc, with_marker(&[0x6a, OP_LUMA, 231]));
    assert_eq!(decode(enc, 2, 4).unwrap(), vec![0, 0, 0, 255, 5, 6, 7, 255]);
}

#[test]
fn gray_alpha_and_rgba_literals() {
    let raw = [50, 50, 50, 10, 1, 2, 3, 20];
    let enc = encode(&raw, 2, 4);
    assert_eq!(enc, with_marker(&[OP_GRAY_ALPHA, 50, 10, OP_RGBA, 1, 2, 3, 20]));
    assert_eq!(decode(enc, 2, 4).unwrap(), raw.to_vec());
}

#[test]
fn three_channel_decode_is_opaque() {
    let raw = [9, 9, 9, 100, 3, 40];
    let enc = encode(&raw, 2, 3);
    assert_eq!(decode(enc, 2, 3).unwrap(), raw.to_vec());
    let mut d = PixelDecoder::new(with_marker(&[OP_RGBA, 1, 2, 3, 4]), 1, 3);
    let mut out = Vec::new();
    assert_eq!(d.read(&mut out), Err(DecodeError::InvalidOp));
    // a cache reference gives the slot as it stands, even one never written
    let mut d = PixelDecoder::new(with_marker(&[5]), 1, 3);
    let mut out = Vec::new();
    assert_eq!(d.read(&mut out), Ok(3));
    assert_eq!(out, vec![0, 0, 0]);
    assert_eq!(d.read(&mut out), Ok(0));
    let mut d = PixelDecoder::new(with_marker(&[0]), 1, 4);
    let mut out = Vec::new();
    assert_eq!(d.read(&mut out), Ok(4));
    assert_eq!(out, vec![0, 0, 0, 0]);
}

#[test]
fn inherited_alpha_is_kept_in_three_channels() {
    // the never-written slot gives alpha 0; the RGB literal after it keeps
    // that alpha and decodes without error
    let mut d = PixelDecoder::new(with_marker(&[5, OP_RGB, 1, 2, 3]), 2, 3);
    let mut out = Vec::new();
    assert_eq!(d.read(&mut out), Ok(3));
    assert_eq!(d.read(&mut out), Ok(3));
    assert_eq!(d.read(&mut out), Ok(0));
    assert_eq!(out, vec![0, 0, 0, 1, 2, 3]);
    // a gray literal and a coarse difference inherit alpha too
    let mut d = PixelDecoder::new(with_marker(&[5, OP_GRAY, 9, 0x6a]), 3, 3);
    let mut out = Vec::new();
    assert_eq!(d.read(&mut out), Ok(3));
    assert_eq!(d.read(&mut out), Ok(3));
    assert_eq!(d.read(&mut out), Ok(3));
    assert_eq!(d.read(&mut out), Ok(0));
    assert_eq!(out, vec![0, 0, 0, 9, 9, 9, 9, 9, 9]);
    // a unit with its own alpha must still give an opaque pixel
    let mut d = PixelDecoder::new(with_marker(&[OP_GRAY_ALPHA, 9, 10]), 1, 3);
    assert_eq!(d.read(&mut out), Err(DecodeError::InvalidOp));
}

#[test]
fn index_reference_leaves_cache_alone() {
    // slot 5 still holds transparent black; reading it must not store that
    // value in slot 0, where the gray literal (0,0,0,64) now lives
    let mut d = PixelDecoder::new(with_marker(&[OP_GRAY_ALPHA, 0, 64, 5, 0]), 3, 4);
    let mut out = Vec::new();
    assert_eq!(d.read(&mut out), Ok(4));
    assert_eq!(d.read(&mut out), Ok(4));
    assert_eq!(d.read(&mut out), Ok(4));
    assert_eq!(d.read(&mut out), Ok(0));
    assert_eq!(out, vec![0, 0, 0, 64, 0, 0, 0, 0, 0, 0, 0, 64]);
}

#[test]
fn encoding_is_deterministic() {
    let raw = sample_rgba(200);
    assert_eq!(encode(&raw, 200, 4), encode(&raw, 200, 4));
    let mut e = PixelEncoder::new_uncompressed(200, 4);
    let mut taken = 0;
    for chunk in raw.chunks(7) {
        taken += e.write(chunk);
    }
    assert_eq!(taken, raw.len());
    assert_eq!(e.into_bytes(), encode(&raw, 200, 4));
}

#[test]
fn partial_pixel_is_channel_mismatch() {
    let mut e = PixelEncoder::new_uncompressed(2, 4);
    assert_eq!(e.write(&[1, 2, 3, 4, 5, 6]), 6);
    assert_eq!(e.flush(), Err(EncodeError::ChannelMismatch));
    assert_eq!(e.finish(), Err(EncodeError::ChannelMismatch));
    assert_eq!(e.write(&[7, 8]), 2);
    assert_eq!(e.flush(), Ok(()));
}

#[test]
fn bytes_past_the_last_pixel_are_not_taken() {
    let mut e = PixelEncoder::new_uncompressed(1, 3);
    assert_eq!(e.write(&[100, 2, 3, 4, 5]), 3);
    assert_eq!(e.write(&[6]), 0);
    assert_eq!(e.into_bytes(), with_marker(&[OP_RGB, 100, 2, 3]));
}

#[test]
fn finish_ends_the_session_early() {
    let mut e = PixelEncoder::new_uncompressed(3, 4);
    assert_eq!(e.write(&[0, 0, 0, 255]), 4);
    assert_eq!(e.finish(), Ok(()));
    assert_eq!(e.finish(), Ok(()));
    assert_eq!(e.write(&[1, 1, 1, 255]), 0);
    assert_eq!(e.into_bytes(), with_marker(&[0x6a]));
}

#[test]
fn alpha_step_edge() {
    // the largest alpha step that one byte carries, and one past it
    let enc = encode(&[0, 0, 0, 255, 0, 0, 0, 118], 2, 4);
    assert_eq!(enc, with_marker(&[0x6a, 0xf6]));
    let enc = encode(&[0, 0, 0, 255, 0, 0, 0, 119], 2, 4);
    assert_eq!(enc, with_marker(&[0x6a, OP_GRAY_ALPHA, 0, 119]));
}
