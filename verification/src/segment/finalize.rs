//! The finishing of a media segment.

use vstd::prelude::*;
use crate::error::{HlsError, Result};
use crate::media::{audio_index, SegmentInfo, StreamIndex};
use crate::timebase::{rescale_ts, rescaled, Rational};
use super::box_laws::{first_time, is_timed, law_first_time_is_target, leaves};
use super::isobmff::{
    decode_time, fragment_containers, tfdt_patch, track_tfdt_patch, try_patch_tfdts,
    try_patch_tfdts_per_track, walked,
};
use super::muxer::{find_media_segment_offset, media_from, type_at};
use super::packets::{clock_90k, MediaKind};

verus! {

/// A number, or 0 if it is negative.
pub open spec fn not_negative(t: int) -> int {
    if t < 0 {
        0
    } else {
        t
    }
}

/// A 32-bit number as a signed one, modulo 2^32.
pub open spec fn signed_rate(rate: u32) -> i32 {
    if rate <= i32::MAX {
        rate as i32
    } else {
        (rate - 0x1_0000_0000) as i32
    }
}

fn to_signed_rate(rate: u32) -> (r: i32)
    ensures
        r == signed_rate(rate),
{
    if rate <= i32::MAX as u32 {
        rate as i32
    } else {
        (rate as i64 - 0x1_0000_0000) as i32
    }
}

/// The clock of an audio track and the delay of its encoder. A track that is not known
/// runs at 48 kHz without delay; the AAC encoder delays by 1024 samples.
pub open spec fn audio_clock(index: StreamIndex, track: Option<usize>, transcode: bool) -> (
    Rational,
    i64,
) {
    match track {
        Some(t) => match audio_index(index.audio_streams@, t) {
            Some(i) => (
                Rational(1, signed_rate(index.audio_streams@[i].sample_rate)),
                if transcode {
                    1024
                } else {
                    index.audio_streams@[i].encoder_delay
                },
            ),
            None => (Rational(1, 48000), 0),
        },
        None => (Rational(1, 48000), 0),
    }
}

/// What the finishing of a segment goes by.
#[derive(Debug, Clone, Copy)]
pub struct Finish {
    pub kind: MediaKind,
    /// Whether the audio was transcoded.
    pub transcode: bool,
    pub video_timebase: Rational,
    pub audio_track: Option<usize>,
    /// The decode time of the first video packet of an interleaved segment.
    pub first_video_dts: Option<i64>,
    /// The decode time of the first audio packet of an interleaved segment.
    pub first_audio_dts: Option<i64>,
    /// The decode time of the first packet.
    pub first_packet_dts: Option<i64>,
}

/// The start of a segment in ticks of a clock, not before 0.
pub open spec fn start_in(f: Finish, segment: SegmentInfo, clock: Rational) -> int {
    not_negative(rescaled(segment.start_pts as int, f.video_timebase, clock))
}

/// The decode time that the video of a segment starts with: that of its first packet, or
/// else the start of the segment.
pub open spec fn video_time(f: Finish, segment: SegmentInfo, first: Option<i64>) -> int {
    match first {
        Some(dts) => not_negative(dts as int),
        None => start_in(f, segment, clock_90k()),
    }
}

/// The decode time that the audio of an interleaved segment starts with: that of its first
/// packet, or else the start of the segment, less the delay of the encoder.
pub open spec fn interleaved_audio_time(
    f: Finish,
    segment: SegmentInfo,
    index: StreamIndex,
) -> int {
    let (clock, delay) = audio_clock(index, f.audio_track, f.transcode);
    match f.first_audio_dts {
        Some(dts) => not_negative(dts - delay),
        None => not_negative(start_in(f, segment, clock) - delay),
    }
}

/// The decode time that a segment of one track starts with.
pub open spec fn single_time(f: Finish, segment: SegmentInfo, index: StreamIndex) -> int {
    if f.kind is Video {
        video_time(f, segment, f.first_packet_dts)
    } else {
        match f.first_packet_dts {
            Some(dts) => not_negative(
                dts - audio_clock(index, f.audio_track, f.transcode).1,
            ),
            None => {
                let track = match f.audio_track {
                    Some(t) => t,
                    None => 0,
                };
                match audio_index(index.audio_streams@, track) {
                    Some(i) => start_in(
                        f,
                        segment,
                        Rational(1, signed_rate(index.audio_streams@[i].sample_rate)),
                    ),
                    None => 0,
                }
            },
        }
    }
}

/// The number of the first fragment of a segment, modulo 2^32: segments count from 0,
/// fragments from 1.
pub open spec fn fragment_number(segment: SegmentInfo) -> u32 {
    ((segment.sequence + 1) % 0x1_0000_0000) as u32
}

/// Media data with its decode times and fragment numbers set, and whether all of them could
/// be.
pub open spec fn timed_media(
    f: Finish,
    segment: SegmentInfo,
    index: StreamIndex,
    media: Seq<u8>,
) -> (bool, Seq<u8>) {
    if f.kind is Av {
        let (patch, bytes) = walked(
            track_tfdt_patch(
                fragment_number(segment),
                1,
                2,
                video_time(f, segment, f.first_video_dts) as u64,
                interleaved_audio_time(f, segment, index) as u64,
            ),
            media,
            fragment_containers(),
        );
        (!patch.truncated, bytes)
    } else {
        let (patch, bytes) = walked(
            tfdt_patch(single_time(f, segment, index) as u64, fragment_number(segment)),
            media,
            fragment_containers(),
        );
        (!patch.truncated, bytes)
    }
}

/// The box that opens a media segment: type `styp`, brand `iso8`, version 512, compatible
/// with `iso8` and `cmfc`.
pub open spec fn styp_box() -> Seq<u8> {
    seq![
        0u8, 0, 0, 24,
        's' as u8, 't' as u8, 'y' as u8, 'p' as u8,
        'i' as u8, 's' as u8, 'o' as u8, '8' as u8,
        0, 0, 2, 0,
        'i' as u8, 's' as u8, 'o' as u8, '8' as u8,
        'c' as u8, 'm' as u8, 'f' as u8, 'c' as u8,
    ]
}

fn make_styp_box() -> (bytes: Vec<u8>)
    ensures
        bytes@ == styp_box(),
{
    let bytes: Vec<u8> = vec![
        0u8, 0, 0, 24,
        's' as u8, 't' as u8, 'y' as u8, 'p' as u8,
        'i' as u8, 's' as u8, 'o' as u8, '8' as u8,
        0, 0, 2, 0,
        'i' as u8, 's' as u8, 'o' as u8, '8' as u8,
        'c' as u8, 'm' as u8, 'f' as u8, 'c' as u8,
    ];
    assert(bytes@ =~= styp_box());
    bytes
}

fn find_audio_clock(index: &StreamIndex, track: Option<usize>, transcode: bool) -> (clock: (
    Rational,
    i64,
))
    ensures
        clock == audio_clock(*index, track, transcode),
{
    match track {
        Some(t) => match index.get_audio_stream(t) {
            Ok(info) => (
                Rational::new(1, to_signed_rate(info.sample_rate)),
                if transcode {
                    1024
                } else {
                    info.encoder_delay
                },
            ),
            Err(_) => (Rational::new(1, 48000), 0),
        },
        None => (Rational::new(1, 48000), 0),
    }
}

fn less_delay(t: i64, delay: i64) -> (r: u64)
    ensures
        r == not_negative(t - delay),
{
    let d: i128 = t as i128 - delay as i128;
    if d < 0 {
        0
    } else {
        d as u64
    }
}

fn start_ticks(f: &Finish, segment: &SegmentInfo, clock: Rational) -> (t: i64)
    ensures
        t == start_in(*f, *segment, clock),
{
    let t: i64 = rescale_ts(segment.start_pts, f.video_timebase, clock);
    if t < 0 {
        0
    } else {
        t
    }
}

fn video_ticks(f: &Finish, segment: &SegmentInfo, first: Option<i64>) -> (t: u64)
    ensures
        t == video_time(*f, *segment, first),
{
    match first {
        Some(dts) => if dts < 0 {
            0
        } else {
            dts as u64
        },
        None => start_ticks(f, segment, Rational(1, 90000)) as u64,
    }
}

fn single_ticks(f: &Finish, segment: &SegmentInfo, index: &StreamIndex) -> (t: u64)
    ensures
        t == single_time(*f, *segment, *index),
{
    if f.kind == MediaKind::Video {
        return video_ticks(f, segment, f.first_packet_dts);
    }
    match f.first_packet_dts {
        Some(dts) => {
            let (_clock, delay): (Rational, i64) = find_audio_clock(
                index,
                f.audio_track,
                f.transcode,
            );
            less_delay(dts, delay)
        },
        None => {
            let track: usize = match f.audio_track {
                Some(t) => t,
                None => 0,
            };
            match index.get_audio_stream(track) {
                Ok(info) => start_ticks(
                    f,
                    segment,
                    Rational(1, to_signed_rate(info.sample_rate)),
                ) as u64,
                Err(_) => 0,
            }
        },
    }
}

fn first_fragment(sequence: usize) -> (n: u32)
    ensures
        n == (sequence + 1) % 0x1_0000_0000,
{
    ((sequence as u64 % 0x1_0000_0000 + 1) % 0x1_0000_0000) as u32
}

/// Finishes a media segment: cuts off the initialization part of what the muxer wrote, sets
/// the decode times and the fragment numbers, and puts the opening box in front.
pub fn finalize_segment(
    f: &Finish,
    segment: &SegmentInfo,
    index: &StreamIndex,
    full_data: Vec<u8>,
) -> (r: Result<Vec<u8>>)
    ensures
        match media_from(full_data@, 0) {
            None => r matches Err(HlsError::Muxing(m)) && m@
                == "No media segment data found (moof/styp missing)"@,
            Some(pos) => {
                let media = full_data@.subrange(pos, full_data@.len() as int);
                let (done, bytes) = timed_media(*f, *segment, *index, media);
                if done {
                    r matches Ok(out) && out@ == styp_box() + bytes
                } else {
                    r matches Err(HlsError::Muxing(m)) && m@ == "Truncated tfdt box"@
                }
            },
        },
{
    let mut full_data: Vec<u8> = full_data;
    let offset: usize = match find_media_segment_offset(full_data.as_slice()) {
        Some(pos) => pos,
        None => {
            return Err(
                HlsError::Muxing("No media segment data found (moof/styp missing)".to_owned()),
            );
        },
    };
    let mut media: Vec<u8> = full_data.split_off(offset);
    let number: u32 = first_fragment(segment.sequence);
    let done: bool = if f.kind == MediaKind::Av {
        let (clock, delay): (Rational, i64) = find_audio_clock(index, f.audio_track, f.transcode);
        let audio: u64 = match f.first_audio_dts {
            Some(dts) => less_delay(dts, delay),
            None => less_delay(start_ticks(f, segment, clock), delay),
        };
        let video: u64 = video_ticks(f, segment, f.first_video_dts);
        try_patch_tfdts_per_track(&mut media, number, 1, 2, video, audio)
    } else {
        let time: u64 = single_ticks(f, segment, index);
        try_patch_tfdts(&mut media, time, number)
    };
    if !done {
        return Err(HlsError::Muxing("Truncated tfdt box".to_owned()));
    }
    let mut out: Vec<u8> = make_styp_box();
    out.append(&mut media);
    Ok(out)
}

/// A finished segment starts with a box that opens a media segment.
pub proof fn law_finished_segment_opens(bytes: Seq<u8>)
    ensures
        media_from(styp_box() + bytes, 0) == Some(0int),
{
    let data = styp_box() + bytes;
    assert(type_at(data, 0) =~= super::isobmff::fourcc('s', 't', 'y', 'p')@);
}

/// A finished segment of one track starts with the decode time that it should start with
/// (cut to 32 bits in a box of that width).
pub proof fn law_segment_starts_on_time(
    f: Finish,
    segment: SegmentInfo,
    index: StreamIndex,
    media: Seq<u8>,
    i: int,
)
    requires
        !(f.kind is Av),
        0 <= i < leaves(media, fragment_containers()).len(),
        is_timed(leaves(media, fragment_containers())[i]),
        first_time(leaves(media, fragment_containers()).take(i)) is None,
    ensures
        ({
            let boxes = leaves(media, fragment_containers());
            let after = leaves(
                timed_media(f, segment, index, media).1,
                fragment_containers(),
            );
            decode_time(after[i].payload) == if boxes[i].payload[0] == 1 {
                single_time(f, segment, index)
            } else {
                single_time(f, segment, index) % 0x1_0000_0000
            }
        }),
{
    let time = single_time(f, segment, index);
    assert(0 <= time <= u64::MAX);
    law_first_time_is_target(media, time as u64, fragment_number(segment), i);
}

} // verus!
