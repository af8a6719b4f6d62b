//! Where a finished segment lies in time, said of the boxes in it.

use vstd::prelude::*;
use crate::big_endian::be32;
use crate::media::{audio_index, AudioStreamInfo, SegmentInfo, StreamIndex};
use crate::search::lemma_first_index_found;
use crate::timebase::{rescaled, Rational};
use super::box_laws::{
    current_track, first_time, first_track_time, fragment_count, is_timed, law_patch_tfdts,
    law_patch_tfdts_per_track, leaves, numbered_count,
};
use super::finalize::{timed_media, Finish};
use super::isobmff::{decode_time, fourcc, fragment_containers};

verus! {

/// The audio stream of a track is the one at `n`.
pub open spec fn is_stream_of(streams: Seq<AudioStreamInfo>, track: usize, n: int) -> bool {
    0 <= n < streams.len() && streams[n].stream_index == track && forall|m: int|
        0 <= m < n ==> (#[trigger] streams[m]).stream_index != track
}

/// A time that is not before 0.
pub open spec fn clipped(t: int) -> int {
    if t > 0 {
        t
    } else {
        0
    }
}

proof fn lemma_stream(streams: Seq<AudioStreamInfo>, track: usize, n: int)
    requires
        is_stream_of(streams, track, n),
    ensures
        audio_index(streams, track) == Some(n),
{
    let p = |i: int| streams[i].stream_index == track;
    assert forall|m: int| 0 <= m < n implies !(#[trigger] p(m)) by {
        assert(streams[m].stream_index != track);
    }
    lemma_first_index_found(streams.len() as int, p, n);
}

/// A time, cut to the width of the box that holds it.
pub open spec fn in_box(payload: Seq<u8>, t: int) -> int {
    if payload[0] == 1 {
        t % 0x1_0000_0000_0000_0000
    } else {
        t % 0x1_0000_0000
    }
}

/// In an interleaved segment, the first decode time of the video, the track 1, becomes that of
/// its first packet, and that of the audio, the track 2, becomes that of its first packet less
/// the delay of the encoder: 1024 samples if the audio was transcoded. All others keep their
/// distance to it.
pub proof fn law_interleaved_segment_lies(
    f: Finish,
    segment: SegmentInfo,
    index: StreamIndex,
    media: Seq<u8>,
    i: int,
    n: int,
)
    requires
        f.kind is Av,
        f.audio_track is Some,
        is_stream_of(index.audio_streams@, f.audio_track->Some_0, n),
        f.first_video_dts is Some,
        f.first_audio_dts is Some,
        0 <= i < leaves(media, fragment_containers()).len(),
        is_timed(leaves(media, fragment_containers())[i]),
    ensures
        ({
            let boxes = leaves(media, fragment_containers());
            let after = leaves(timed_media(f, segment, index, media).1, fragment_containers());
            let track = current_track(boxes.take(i));
            let delay = if f.transcode {
                1024
            } else {
                index.audio_streams@[n].encoder_delay as int
            };
            let own = decode_time(boxes[i].payload) as int;
            &&& track == 1 ==> decode_time(after[i].payload) == in_box(
                boxes[i].payload,
                own + (clipped(f.first_video_dts->Some_0 as int) - first_track_time(
                    boxes,
                    1,
                )->Some_0),
            )
            &&& track == 2 ==> decode_time(after[i].payload) == in_box(
                boxes[i].payload,
                own + (clipped(f.first_audio_dts->Some_0 - delay) - first_track_time(
                    boxes,
                    2,
                )->Some_0),
            )
            &&& track != 1 && track != 2 ==> after[i].payload == boxes[i].payload
        }),
{
    lemma_stream(index.audio_streams@, f.audio_track->Some_0, n);
    let video = super::finalize::video_time(f, segment, f.first_video_dts);
    let audio = super::finalize::interleaved_audio_time(f, segment, index);
    law_patch_tfdts_per_track(
        media,
        super::finalize::fragment_number(segment),
        1,
        2,
        video as u64,
        audio as u64,
        i,
    );
}

/// In a segment of one track, the first decode time becomes that of its first packet, for audio
/// less the delay of the encoder: 1024 samples if it was transcoded. All others keep their
/// distance to it.
pub proof fn law_single_segment_lies(
    f: Finish,
    segment: SegmentInfo,
    index: StreamIndex,
    media: Seq<u8>,
    i: int,
    n: int,
)
    requires
        !(f.kind is Av),
        f.kind is Audio ==> f.audio_track is Some && is_stream_of(
            index.audio_streams@,
            f.audio_track->Some_0,
            n,
        ),
        f.first_packet_dts is Some,
        0 <= i < leaves(media, fragment_containers()).len(),
        is_timed(leaves(media, fragment_containers())[i]),
    ensures
        ({
            let boxes = leaves(media, fragment_containers());
            let after = leaves(timed_media(f, segment, index, media).1, fragment_containers());
            let delay = if f.kind is Video {
                0int
            } else if f.transcode {
                1024
            } else {
                index.audio_streams@[n].encoder_delay as int
            };
            decode_time(after[i].payload) == in_box(
                boxes[i].payload,
                decode_time(boxes[i].payload) + (clipped(f.first_packet_dts->Some_0 - delay)
                    - first_time(boxes)->Some_0),
            )
        }),
{
    if f.kind is Audio {
        lemma_stream(index.audio_streams@, f.audio_track->Some_0, n);
    }
    let time = super::finalize::single_time(f, segment, index);
    assert(0 <= time <= u64::MAX);
    law_patch_tfdts(media, time as u64, super::finalize::fragment_number(segment), i);
}

/// Without packets, the first decode time of a segment of one track becomes the start of the
/// segment, on the clock of the track.
pub proof fn law_empty_segment_lies(
    f: Finish,
    segment: SegmentInfo,
    index: StreamIndex,
    media: Seq<u8>,
    i: int,
    n: int,
)
    requires
        !(f.kind is Av),
        f.kind is Audio ==> f.audio_track is Some && is_stream_of(
            index.audio_streams@,
            f.audio_track->Some_0,
            n,
        ) && index.audio_streams@[n].sample_rate <= i32::MAX,
        f.first_packet_dts is None,
        0 <= i < leaves(media, fragment_containers()).len(),
        is_timed(leaves(media, fragment_containers())[i]),
    ensures
        ({
            let boxes = leaves(media, fragment_containers());
            let after = leaves(timed_media(f, segment, index, media).1, fragment_containers());
            let clock = if f.kind is Video {
                Rational(1, 90000)
            } else {
                Rational(1, index.audio_streams@[n].sample_rate as i32)
            };
            let start = clipped(rescaled(segment.start_pts as int, f.video_timebase, clock));
            decode_time(after[i].payload) == in_box(
                boxes[i].payload,
                decode_time(boxes[i].payload) + (start - first_time(boxes)->Some_0),
            )
        }),
{
    if f.kind is Audio {
        lemma_stream(index.audio_streams@, f.audio_track->Some_0, n);
    }
    let time = super::finalize::single_time(f, segment, index);
    assert(0 <= time <= u64::MAX);
    law_patch_tfdts(media, time as u64, super::finalize::fragment_number(segment), i);
}

/// The fragments of a segment are numbered on from the number of the segment, which counts from 1.
#[verifier::rlimit(40)]
pub proof fn law_fragments_are_numbered(
    f: Finish,
    segment: SegmentInfo,
    index: StreamIndex,
    media: Seq<u8>,
    i: int,
)
    requires
        0 <= i < leaves(media, fragment_containers()).len(),
        leaves(media, fragment_containers())[i].btype == fourcc('m', 'f', 'h', 'd')@,
        leaves(media, fragment_containers())[i].payload.len() >= 8,
    ensures
        ({
            let boxes = leaves(media, fragment_containers());
            let after = leaves(timed_media(f, segment, index, media).1, fragment_containers());
            let count = if f.kind is Av {
                numbered_count(boxes.take(i))
            } else {
                fragment_count(boxes.take(i))
            };
            be32(after[i].payload, 4) == (segment.sequence + 1 + count) % 0x1_0000_0000
        }),
{
    let boxes = leaves(media, fragment_containers());
    let number = super::finalize::fragment_number(segment);
    assert(fourcc('m', 'f', 'h', 'd')@[0] == 'm' as u8);
    assert(fourcc('t', 'f', 'd', 't')@[0] == 't' as u8);
    assert(!is_timed(boxes[i]));
    let count = if f.kind is Av {
        numbered_count(boxes.take(i))
    } else {
        fragment_count(boxes.take(i))
    };
    vstd::arithmetic::div_mod::lemma_add_mod_noop_right(
        count as int,
        segment.sequence + 1,
        0x1_0000_0000,
    );
    assert((number + count) % 0x1_0000_0000 == (segment.sequence + 1 + count) % 0x1_0000_0000);
    if f.kind is Av {
        law_patch_tfdts_per_track(
            media,
            number,
            1,
            2,
            super::finalize::video_time(f, segment, f.first_video_dts) as u64,
            super::finalize::interleaved_audio_time(f, segment, index) as u64,
            i,
        );
    } else {
        law_patch_tfdts(media, super::finalize::single_time(f, segment, index) as u64, number, i);
    }
}

} // verus!
