//! Video metadata as Media Foundation reports it: frame size and frame rate
//! packed into 64-bit attributes, duration in 100 ns units.
use vstd::prelude::*;

verus! {

/// Resolution, exact frame rate (`fps_num / fps_den`, such as 30000/1001) and duration of a video.
#[derive(Debug, Clone, Copy, PartialEq, Eq, Structural)]
pub struct VideoMeta {
    pub width: u32,
    pub height: u32,
    pub fps_num: u32,
    pub fps_den: u32,
    pub duration_ms: u64,
}

/// 2^32.
pub open spec fn two_pow_32() -> int {
    0x1_0000_0000
}

/// Packs two 32-bit halves into one attribute value: `hi` in the upper half, `lo` in the lower.
pub fn pack_u32_pair(hi: u32, lo: u32) -> (r: u64)
    ensures
        r == hi * two_pow_32() + lo,
{
    let r = ((hi as u64) << 32u64) | (lo as u64);
    assert(((hi as u64) << 32u64) | (lo as u64) == (hi as u64) * 0x1_0000_0000u64 + (lo as u64))
        by (bit_vector);
    r
}

/// The lower and upper halves of an attribute value.
pub fn split_u64(v: u64) -> (r: (u32, u32))
    ensures
        r.0 == v % (two_pow_32() as u64),
        r.1 == v / (two_pow_32() as u64),
{
    let lo = (v & 0xFFFF_FFFFu64) as u32;
    let hi = (v >> 32u64) as u32;
    assert(v & 0xFFFF_FFFFu64 == v % 0x1_0000_0000u64) by (bit_vector);
    assert(v >> 32u64 == v / 0x1_0000_0000u64) by (bit_vector);
    (lo, hi)
}

/// `MF_MT_FRAME_SIZE`: width in the lower half, height in the upper half.
pub fn unpack_frame_size(size: u64) -> (r: (u32, u32))
    ensures
        r.0 == size % (two_pow_32() as u64),
        r.1 == size / (two_pow_32() as u64),
{
    split_u64(size)
}

/// `MF_MT_FRAME_RATE`: numerator in the upper half, denominator in the lower half;
/// a missing attribute or a zero numerator gives `(0, 0)` (frame rate unknown).
pub fn unpack_frame_rate(rate: Option<u64>) -> (r: (u32, u32))
    ensures
        match rate {
            Some(v) if v / (two_pow_32() as u64) != 0 => r.0 == v / (two_pow_32() as u64) && r.1
                == v % (two_pow_32() as u64),
            _ => r == (0u32, 0u32),
        },
{
    match rate {
        Some(v) => {
            let (lo, hi) = split_u64(v);
            if hi != 0 {
                (hi, lo)
            } else {
                (0, 0)
            }
        },
        None => (0, 0),
    }
}

/// `MF_PD_DURATION` (100 ns units) in whole milliseconds; 0 when missing.
pub fn duration_ms_from(duration_100ns: Option<u64>) -> (r: u64)
    ensures
        match duration_100ns {
            Some(v) => r == v / 10_000,
            None => r == 0,
        },
{
    match duration_100ns {
        Some(v) => v / 10_000,
        None => 0,
    }
}

/// The metadata of a video from its frame-size, frame-rate and duration attributes.
pub fn video_meta_from(frame_size: u64, frame_rate: Option<u64>, duration_100ns: Option<u64>) -> (r:
    VideoMeta)
    ensures
        (r.width, r.height) == unpack_frame_size_spec(frame_size),
        (r.fps_num, r.fps_den) == unpack_frame_rate_spec(frame_rate),
        r.duration_ms == duration_ms_spec(duration_100ns),
        r.width == frame_size % 0x1_0000_0000,
        r.height == frame_size / 0x1_0000_0000,
        duration_100ns matches Some(v) ==> r.duration_ms * 10_000 <= v < (r.duration_ms + 1)
            * 10_000,
        duration_100ns is None ==> r.duration_ms == 0,
{
    let (width, height) = unpack_frame_size(frame_size);
    let (fps_num, fps_den) = unpack_frame_rate(frame_rate);
    VideoMeta { width, height, fps_num, fps_den, duration_ms: duration_ms_from(duration_100ns) }
}

pub open spec fn unpack_frame_size_spec(size: u64) -> (u32, u32) {
    ((size % (two_pow_32() as u64)) as u32, (size / (two_pow_32() as u64)) as u32)
}

pub open spec fn unpack_frame_rate_spec(rate: Option<u64>) -> (u32, u32) {
    match rate {
        Some(v) if v / (two_pow_32() as u64) != 0 => (
            (v / (two_pow_32() as u64)) as u32,
            (v % (two_pow_32() as u64)) as u32,
        ),
        _ => (0u32, 0u32),
    }
}

pub open spec fn duration_ms_spec(d: Option<u64>) -> u64 {
    match d {
        Some(v) => v / 10_000,
        None => 0,
    }
}

/// Law: a duration of `v` units of 100 ns is `v / 10_000` whole milliseconds, for
/// every 64-bit `v` (the milliseconds times 10 000 are at most `v`, one more
/// millisecond would be more); a missing duration is 0.
pub proof fn law_duration_whole_ms(v: u64)
    ensures
        duration_ms_spec(Some(v)) * 10_000 <= v < (duration_ms_spec(Some(v)) + 1) * 10_000,
        duration_ms_spec(None) == 0,
{
}

/// Law: the metadata reads the width from the lower and the height from the upper 32
/// bits of the frame size, and the frame rate as numerator (upper) over denominator
/// (lower) when the numerator is not 0, else as unknown (0/0).
pub proof fn law_meta_attribute_halves(frame_size: u64, frame_rate: Option<u64>)
    ensures
        unpack_frame_size_spec(frame_size).0 == frame_size % 0x1_0000_0000,
        unpack_frame_size_spec(frame_size).1 == frame_size / 0x1_0000_0000,
        match frame_rate {
            Some(v) => if v >= 0x1_0000_0000 {
                unpack_frame_rate_spec(frame_rate) == ((v / 0x1_0000_0000) as u32, (v
                    % 0x1_0000_0000) as u32)
            } else {
                unpack_frame_rate_spec(frame_rate) == (0u32, 0u32)
            },
            None => unpack_frame_rate_spec(frame_rate) == (0u32, 0u32),
        },
{
}

/// Law: a frame size packed as the encoder is configured (height high, width low)
/// unpacks to the same width and height.
pub proof fn law_frame_size_round_trip(width: u32, height: u32)
    ensures
        unpack_frame_size_spec((height * two_pow_32() + width) as u64) == (width, height),
{
    let v = (height * two_pow_32() + width) as u64;
    assert(v % (two_pow_32() as u64) == width && v / (two_pow_32() as u64) == height) by (nonlinear_arith)
        requires
            v == height * two_pow_32() + width,
            width < two_pow_32(),
            two_pow_32() == 0x1_0000_0000,
    ;
}

/// Law: a frame rate packed as the encoder is configured (numerator high,
/// denominator low) unpacks to the same fraction whenever the numerator is not 0.
pub proof fn law_frame_rate_round_trip(num: u32, den: u32)
    requires
        num != 0,
    ensures
        unpack_frame_rate_spec(Some((num * two_pow_32() + den) as u64)) == (num, den),
{
    let v = (num * two_pow_32() + den) as u64;
    assert(v % (two_pow_32() as u64) == den && v / (two_pow_32() as u64) == num) by (nonlinear_arith)
        requires
            v == num * two_pow_32() + den,
            den < two_pow_32(),
            two_pow_32() == 0x1_0000_0000,
    ;
}

} // verus!
