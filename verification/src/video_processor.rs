//! Frame sampling: the presentation timestamp and the file name of every
//! decoded picture.

use vstd::prelude::*;
use vstd::string::*;
use vstd::arithmetic::div_mod::lemma_div_is_ordered;
use vstd::arithmetic::mul::lemma_mul_inequality;
use crate::text::{at_least_padded, push_four_digits};

verus! {

/// Millionths in one second.
pub const MICROS_PER_SECOND: i64 = 1_000_000;

/// The unit in which a stream counts presentation time: `num / den` seconds.
#[derive(Debug, Clone, Copy, PartialEq, Eq, Structural)]
pub struct TimeBase {
    pub num: i32,
    pub den: i32,
}

/// Why frame sampling failed.
#[derive(Debug, Clone, Copy, PartialEq, Eq, Structural)]
pub enum FrameError {
    /// The video has no video stream.
    NoVideoStream,
    /// The decoder refused packets and gave no picture at all.
    DecodeError,
    /// The time base has a denominator that is not positive.
    InvalidTimeBase,
    /// A picture's timestamp does not fit in 64 bits of millionths.
    TimestampOutOfRange,
}

/// The presentation time of a picture in millionths of a second, rounded
/// down: `pts * num / den` seconds. A picture without a presentation
/// timestamp counts as one at 0.
pub open spec fn timestamp_of(pts: Option<i64>, base: TimeBase) -> int
    recommends
        base.den > 0,
{
    let ticks: int = match pts {
        Some(p) => p as int,
        None => 0,
    };
    (ticks * base.num * 1_000_000) / (base.den as int)
}

/// Whether a timestamp can be held in 64 bits.
pub open spec fn fits_i64(t: int) -> bool {
    i64::MIN <= t <= i64::MAX
}

/// The timestamps of a run of pictures, in order.
pub open spec fn timestamps_of(pts: Seq<Option<i64>>, base: TimeBase) -> Seq<int> {
    Seq::new(pts.len(), |i: int| timestamp_of(pts[i], base))
}

/// The integers held by a list of timestamps.
pub open spec fn as_ints(ts: Seq<i64>) -> Seq<int> {
    Seq::new(ts.len(), |i: int| ts[i] as int)
}

/// The quotient of `n` by a positive `d`, rounded down.
fn floor_div(n: i128, d: i128) -> (q: i128)
    requires
        d > 0,
        -0x4000_0000_0000_0000_0000_0000_0000_0000 <= n <= 0x4000_0000_0000_0000_0000_0000_0000_0000,
        d <= 0x8000_0000,
    ensures
        q == n / d,
{
    if n >= 0 {
        n / d
    } else {
        let m: i128 = -n;
        let up: i128 = (m + (d - 1)) / d;
        assert(-up == n / d) by (nonlinear_arith)
            requires
                d > 0,
                m == -n,
                m > 0,
                up == (m + (d - 1)) / (d as int),
        ;
        -up
    }
}

/// The presentation time of one picture, in millionths of a second.
///
/// Fails with `InvalidTimeBase` when the denominator is not positive, and
/// with `TimestampOutOfRange` when the result does not fit in 64 bits.
pub fn frame_timestamp(pts: Option<i64>, base: TimeBase) -> (r: Result<i64, FrameError>)
    ensures
        match r {
            Ok(t) => base.den > 0 && t == timestamp_of(pts, base),
            Err(FrameError::InvalidTimeBase) => base.den <= 0,
            Err(FrameError::TimestampOutOfRange) => base.den > 0 && !fits_i64(
                timestamp_of(pts, base),
            ),
            Err(_) => false,
        },
{
    if base.den <= 0 {
        return Err(FrameError::InvalidTimeBase);
    }
    let ticks: i128 = match pts {
        Some(p) => p as i128,
        None => 0,
    };
    assert(-0x8000_0000_0000_0000 * 0x8000_0000 <= ticks * base.num <= 0x8000_0000_0000_0000
        * 0x8000_0000) by (nonlinear_arith)
        requires
            -0x8000_0000_0000_0000 <= ticks <= 0x8000_0000_0000_0000,
            -0x8000_0000 <= base.num <= 0x8000_0000,
    ;
    let scaled: i128 = ticks * (base.num as i128);
    let n: i128 = scaled * 1_000_000;
    let q: i128 = floor_div(n, base.den as i128);
    if q < i64::MIN as i128 || q > i64::MAX as i128 {
        Err(FrameError::TimestampOutOfRange)
    } else {
        Ok(q as i64)
    }
}

/// The name of the file that holds the picture with the given index:
/// `frame_`, the index in at least four digits, `.png`.
pub open spec fn frame_name(index: nat) -> Seq<char> {
    "frame_"@ + at_least_padded(index, 4) + ".png"@
}

/// The name of the file that holds the picture with the given index.
pub fn frame_file_name(index: u32) -> (name: String)
    ensures
        name@ == frame_name(index as nat),
{
    let mut name = String::from_str("frame_");
    push_four_digits(&mut name, index as u64);
    name.append(".png");
    assert(name@ =~= frame_name(index as nat));
    name
}

/// Whether the timestamp of every picture can be held in 64 bits.
pub open spec fn all_fit(pts: Seq<Option<i64>>, base: TimeBase) -> bool {
    forall|i: int| 0 <= i < pts.len() ==> fits_i64(#[trigger] timestamp_of(pts[i], base))
}

/// The presentation timestamps of a run of pictures, one per picture and
/// in order, given each picture's presentation timestamp in units of the
/// time base.
///
/// Fails where `frame_timestamp` fails for the time base or for any picture.
pub fn frame_timestamps(picture_pts: &Vec<Option<i64>>, base: TimeBase) -> (r: Result<
    Vec<i64>,
    FrameError,
>)
    ensures
        match r {
            Ok(timestamps) => {
                &&& base.den > 0
                &&& all_fit(picture_pts@, base)
                &&& timestamps@.len() == picture_pts@.len()
                &&& as_ints(timestamps@) == timestamps_of(picture_pts@, base)
            },
            Err(FrameError::InvalidTimeBase) => base.den <= 0,
            Err(FrameError::TimestampOutOfRange) => base.den > 0 && !all_fit(picture_pts@, base),
            Err(_) => false,
        },
{
    if base.den <= 0 {
        return Err(FrameError::InvalidTimeBase);
    }
    let mut timestamps: Vec<i64> = Vec::new();
    let mut i: usize = 0;
    while i < picture_pts.len()
        invariant
            i <= picture_pts.len(),
            base.den > 0,
            timestamps@.len() == i,
            forall|k: int|
                0 <= k < i ==> (#[trigger] timestamps@[k]) as int == timestamp_of(
                    picture_pts@[k],
                    base,
                ),
        decreases picture_pts.len() - i,
    {
        match frame_timestamp(picture_pts[i], base) {
            Ok(t) => {
                timestamps.push(t);
            },
            Err(e) => {
                assert(!fits_i64(timestamp_of(picture_pts@[i as int], base)));
                return Err(FrameError::TimestampOutOfRange);
            },
        }
        i += 1;
    }
    assert(as_ints(timestamps@) =~= timestamps_of(picture_pts@, base));
    assert forall|k: int| 0 <= k < picture_pts@.len() implies fits_i64(
        #[trigger] timestamp_of(picture_pts@[k], base),
    ) by {
        assert(timestamps@[k] as int == timestamp_of(picture_pts@[k], base));
    }
    Ok(timestamps)
}

/// What decoding a video's primary video stream gave.
#[derive(Debug, Clone)]
pub struct DecodedStream {
    /// The unit of the stream's presentation timestamps.
    pub time_base: TimeBase,
    /// The presentation timestamp of every picture the decoder gave, in
    /// decoding order, those released at the end of the stream included.
    pub picture_pts: Vec<Option<i64>>,
    /// How many packets the decoder refused.
    pub rejected_packets: usize,
}

/// Why sampling the frames of a video fails, if it does. A video without
/// a video stream has nothing to sample. A stream of which the decoder
/// refused packets and gave no picture has failed as a whole; packets
/// refused beside decoded pictures fail nothing. The time base and the
/// pictures' timestamps are then held to what `frame_timestamps` asks.
pub open spec fn sampling_error(stream: Option<&DecodedStream>) -> Option<FrameError> {
    match stream {
        None => Some(FrameError::NoVideoStream),
        Some(decoded) => if decoded.picture_pts@.len() == 0 && decoded.rejected_packets > 0 {
            Some(FrameError::DecodeError)
        } else if decoded.time_base.den <= 0 {
            Some(FrameError::InvalidTimeBase)
        } else if !all_fit(decoded.picture_pts@, decoded.time_base) {
            Some(FrameError::TimestampOutOfRange)
        } else {
            None
        },
    }
}

/// The presentation timestamps of the sampled frames of a video: one per
/// picture that the decoder gave, in decoding order.
///
/// `stream` holds what decoding the primary video stream gave, or nothing
/// where the video has no video stream. Fails exactly where
/// `sampling_error` names an error, with that error.
pub fn extract_frames(stream: Option<&DecodedStream>) -> (r: Result<Vec<i64>, FrameError>)
    ensures
        match r {
            Ok(timestamps) => {
                &&& sampling_error(stream) is None
                &&& stream matches Some(decoded)
                &&& timestamps@.len() == decoded.picture_pts@.len()
                &&& as_ints(timestamps@) == timestamps_of(decoded.picture_pts@, decoded.time_base)
            },
            Err(e) => sampling_error(stream) == Some(e),
        },
{
    match stream {
        None => Err(FrameError::NoVideoStream),
        Some(decoded) => {
            if decoded.picture_pts.len() == 0 && decoded.rejected_packets > 0 {
                Err(FrameError::DecodeError)
            } else {
                frame_timestamps(&decoded.picture_pts, decoded.time_base)
            }
        },
    }
}

/// The ticks of a picture: its presentation timestamp, or 0 without one.
pub open spec fn ticks_of(pts: Option<i64>) -> int {
    match pts {
        Some(p) => p as int,
        None => 0,
    }
}

/// With a time base that is not negative, pictures whose presentation
/// timestamps never decrease get timestamps that never decrease.
pub proof fn lemma_timestamps_non_decreasing(pts: Seq<Option<i64>>, base: TimeBase)
    requires
        base.num >= 0,
        base.den > 0,
        forall|i: int, j: int|
            0 <= i <= j < pts.len() ==> ticks_of(#[trigger] pts[i]) <= ticks_of(#[trigger] pts[j]),
    ensures
        timestamps_of(pts, base).len() == pts.len(),
        forall|i: int, j: int|
            0 <= i <= j < pts.len() ==> (#[trigger] timestamps_of(pts, base)[i]) <= (
            #[trigger] timestamps_of(pts, base)[j]),
{
    assert forall|i: int, j: int| 0 <= i <= j < pts.len() implies (#[trigger] timestamps_of(
        pts,
        base,
    )[i]) <= (#[trigger] timestamps_of(pts, base)[j]) by {
        let a = ticks_of(pts[i]);
        let b = ticks_of(pts[j]);
        let k = base.num * 1_000_000;
        assert(a <= b);
        lemma_mul_inequality(a, b, k);
        assert(a * base.num * 1_000_000 == a * k) by (nonlinear_arith)
            requires
                k == base.num * 1_000_000,
        ;
        assert(b * base.num * 1_000_000 == b * k) by (nonlinear_arith)
            requires
                k == base.num * 1_000_000,
        ;
        lemma_div_is_ordered(a * k, b * k, base.den as int);
    }
}

} // verus!
