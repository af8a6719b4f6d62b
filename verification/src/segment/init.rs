//! Initialization segments.

use vstd::prelude::*;
use crate::error::{HlsError, Result};
use crate::media::{audio_index, not_found_text, StreamIndex, VideoStreamInfo};
use crate::playlist::variant::opt_str;
use crate::timebase::Rational;
use crate::transcode::pipeline::{bitrate_for, get_recommended_bitrate};
use super::generator::{is_aac_wanted, wants_aac, StreamDesc, StreamUse};
use super::isobmff::{
    fix_trex_durations, fix_trex_durations_per_track, trex_fixed, trex_fixed_per_track,
};

verus! {

/// What an initialization segment describes.
#[derive(Debug, Clone, Copy)]
pub struct InitSegmentBuilder<'a> {
    pub index: &'a StreamIndex,
    pub video_idx: Option<usize>,
    pub audio_idx: Option<usize>,
    /// Whether the audio is transcoded to AAC.
    pub transcode_audio_to_aac: bool,
}

/// The streams of an initialization segment.
#[derive(Debug, Clone)]
pub struct InitPlan {
    pub uses: Vec<StreamUse>,
    pub has_video: bool,
    pub has_audio: bool,
}

/// Whether the builder takes a stream as video: the track that was set, or, if none was set,
/// every video stream.
pub open spec fn takes_video(b: InitSegmentBuilder<'_>, s: StreamDesc) -> bool {
    (b.video_idx is None && b.audio_idx is None && s.is_video) || b.video_idx == Some(s.index)
}

/// Whether the builder takes a stream as audio.
pub open spec fn takes_audio(b: InitSegmentBuilder<'_>, s: StreamDesc) -> bool {
    (b.video_idx is None && b.audio_idx is None && s.is_audio) || b.audio_idx == Some(s.index)
}

/// The bit rate at which an audio stream is encoded; one that is not known has two channels.
pub open spec fn init_rate(b: InitSegmentBuilder<'_>, track: usize) -> Option<u64> {
    if b.transcode_audio_to_aac {
        match audio_index(b.index.audio_streams@, track) {
            Some(i) => Some(bitrate_for(b.index.audio_streams@[i].channels)),
            None => Some(bitrate_for(2)),
        }
    } else {
        None
    }
}

/// The streams that the builder takes, in the order of the file.
pub open spec fn init_uses(b: InitSegmentBuilder<'_>, streams: Seq<StreamDesc>) -> Seq<StreamUse>
    decreases streams.len(),
{
    if streams.len() == 0 {
        Seq::empty()
    } else {
        let before = init_uses(b, streams.drop_last());
        let s = streams.last();
        if takes_video(b, s) {
            before.push(StreamUse { index: s.index, is_video: true, aac_bitrate: None })
        } else if takes_audio(b, s) {
            before.push(
                StreamUse { index: s.index, is_video: false, aac_bitrate: init_rate(b, s.index) },
            )
        } else {
            before
        }
    }
}

/// There is video among some streams.
pub open spec fn any_video(uses: Seq<StreamUse>) -> bool {
    exists|i: int| 0 <= i < uses.len() && (#[trigger] uses[i]).is_video
}

/// There is audio among some streams.
pub open spec fn any_audio(uses: Seq<StreamUse>) -> bool {
    exists|i: int| 0 <= i < uses.len() && !(#[trigger] uses[i]).is_video
}

proof fn lemma_any_push(uses: Seq<StreamUse>, u: StreamUse)
    ensures
        any_video(uses.push(u)) == (any_video(uses) || u.is_video),
        any_audio(uses.push(u)) == (any_audio(uses) || !u.is_video),
{
    let more = uses.push(u);
    assert(more[uses.len() as int] == u);
    if any_video(uses) {
        let i = choose|i: int| 0 <= i < uses.len() && (#[trigger] uses[i]).is_video;
        assert(more[i] == uses[i]);
    }
    if any_audio(uses) {
        let i = choose|i: int| 0 <= i < uses.len() && !(#[trigger] uses[i]).is_video;
        assert(more[i] == uses[i]);
    }
}

/// The length of a video frame in ticks of 1/90000 s, with the arithmetic of unsigned 64-bit
/// numbers, cut to 32 bits. 30 frames a second are the fallback.
pub open spec fn frame_ticks(framerate: Rational) -> u32 {
    if framerate.0 > 0 {
        let den = framerate.1 as int % 0x1_0000_0000_0000_0000;
        (90000 * den % 0x1_0000_0000_0000_0000 / framerate.0 as int % 0x1_0000_0000) as u32
    } else {
        3000
    }
}

/// The length of the frames of the first video stream.
pub open spec fn video_frame_ticks(streams: Seq<VideoStreamInfo>) -> u32 {
    if streams.len() > 0 {
        frame_ticks(streams[0].framerate)
    } else {
        3000
    }
}

/// An initialization segment with the default sample durations set: those of a video frame
/// for video, 1024 samples for audio. With both, track 1 is the video and track 2 the audio.
pub open spec fn with_durations(
    streams: Seq<VideoStreamInfo>,
    data: Seq<u8>,
    has_video: bool,
    has_audio: bool,
) -> Seq<u8> {
    if has_video && has_audio {
        trex_fixed_per_track(data, 1, video_frame_ticks(streams), 2, 1024)
    } else if has_video {
        trex_fixed(data, video_frame_ticks(streams))
    } else {
        trex_fixed(data, 1024)
    }
}

fn to_frame_ticks(framerate: Rational) -> (ticks: u32)
    ensures
        ticks == frame_ticks(framerate),
{
    if framerate.0 <= 0 {
        return 3000;
    }
    let den: u64 = if framerate.1 >= 0 {
        framerate.1 as u64
    } else {
        0xffff_ffff_ffff_ffff - ((-1 - framerate.1 as i64) as u64)
    };
    assert(den == framerate.1 as int % 0x1_0000_0000_0000_0000);
    let scaled: u128 = 90000 * den as u128;
    let cut: u64 = (scaled % 0x1_0000_0000_0000_0000) as u64;
    let ticks: u64 = cut / (framerate.0 as u64);
    (ticks % 0x1_0000_0000) as u32
}

impl<'a> InitSegmentBuilder<'a> {
    /// An initialization segment for all streams of a file.
    pub fn new(index: &'a StreamIndex) -> (b: Self)
        ensures
            b == (InitSegmentBuilder {
                index,
                video_idx: None,
                audio_idx: None,
                transcode_audio_to_aac: false,
            }),
    {
        InitSegmentBuilder { index, video_idx: None, audio_idx: None, transcode_audio_to_aac: false }
    }

    /// Takes a video track.
    pub fn with_video_track(self, idx: usize) -> (b: Self)
        ensures
            b == (InitSegmentBuilder { video_idx: Some(idx), ..self }),
    {
        InitSegmentBuilder { video_idx: Some(idx), ..self }
    }

    /// Takes an audio track.
    pub fn with_audio_track(self, idx: usize) -> (b: Self)
        ensures
            b == (InitSegmentBuilder { audio_idx: Some(idx), ..self }),
    {
        InitSegmentBuilder { audio_idx: Some(idx), ..self }
    }

    /// Sets whether the audio is transcoded to AAC.
    pub fn transcode_audio_to_aac(self, transcode: bool) -> (b: Self)
        ensures
            b == (InitSegmentBuilder { transcode_audio_to_aac: transcode, ..self }),
    {
        InitSegmentBuilder { transcode_audio_to_aac: transcode, ..self }
    }

    fn is_video_target(&self, s: &StreamDesc) -> (b: bool)
        ensures
            b == takes_video(*self, *s),
    {
        (self.video_idx.is_none() && self.audio_idx.is_none() && s.is_video) || (match self.video_idx {
            Some(v) => v == s.index,
            None => false,
        })
    }

    fn is_audio_target(&self, s: &StreamDesc) -> (b: bool)
        ensures
            b == takes_audio(*self, *s),
    {
        (self.video_idx.is_none() && self.audio_idx.is_none() && s.is_audio) || (match self.audio_idx {
            Some(a) => a == s.index,
            None => false,
        })
    }

    fn find_rate(&self, track: usize) -> (rate: Option<u64>)
        ensures
            rate == init_rate(*self, track),
    {
        if self.transcode_audio_to_aac {
            match self.index.get_audio_stream(track) {
                Ok(info) => Some(get_recommended_bitrate(info.channels)),
                Err(_) => Some(get_recommended_bitrate(2)),
            }
        } else {
            None
        }
    }

    /// Picks the streams of the segment out of those of the file.
    pub fn plan(&self, streams: &[StreamDesc]) -> (r: Result<InitPlan>)
        ensures
            ({
                let uses = init_uses(*self, streams@);
                if self.video_idx is Some && !any_video(uses) {
                    r matches Err(HlsError::StreamNotFound(m)) && m@ == "Video stream not found"@
                } else if self.audio_idx is Some && !any_audio(uses) {
                    r matches Err(HlsError::StreamNotFound(m)) && m@ == "Audio stream not found"@
                } else {
                    r matches Ok(plan) && plan.uses@ == uses && plan.has_video == any_video(uses)
                        && plan.has_audio == any_audio(uses)
                }
            }),
    {
        let mut uses: Vec<StreamUse> = Vec::new();
        let mut has_video: bool = false;
        let mut has_audio: bool = false;
        let mut i: usize = 0;
        while i < streams.len()
            invariant
                i <= streams@.len(),
                uses@ == init_uses(*self, streams@.take(i as int)),
                has_video == any_video(uses@),
                has_audio == any_audio(uses@),
            decreases streams.len() - i,
        {
            assert(streams@.take(i + 1).drop_last() =~= streams@.take(i as int));
            let s: StreamDesc = streams[i];
            let ghost before = uses@;
            if self.is_video_target(&s) {
                uses.push(StreamUse { index: s.index, is_video: true, aac_bitrate: None });
                has_video = true;
                proof {
                    lemma_any_push(before, uses@.last());
                }
            } else if self.is_audio_target(&s) {
                let aac_bitrate: Option<u64> = self.find_rate(s.index);
                uses.push(StreamUse { index: s.index, is_video: false, aac_bitrate });
                has_audio = true;
                proof {
                    lemma_any_push(before, uses@.last());
                }
            }
            i += 1;
        }
        assert(streams@.take(streams@.len() as int) =~= streams@);
        if self.video_idx.is_some() && !has_video {
            return Err(HlsError::StreamNotFound("Video stream not found".to_owned()));
        }
        if self.audio_idx.is_some() && !has_audio {
            return Err(HlsError::StreamNotFound("Audio stream not found".to_owned()));
        }
        Ok(InitPlan { uses, has_video, has_audio })
    }

    /// Sets the default sample durations of a written initialization segment.
    pub fn apply_trex_fixes(&self, data: &mut Vec<u8>, has_video: bool, has_audio: bool)
        ensures
            final(data)@ == with_durations(
                self.index.video_streams@,
                old(data)@,
                has_video,
                has_audio,
            ),
    {
        let frame: u32 = if self.index.video_streams.len() > 0 {
            to_frame_ticks(self.index.video_streams[0].framerate)
        } else {
            3000
        };
        if has_video && has_audio {
            fix_trex_durations_per_track(data, 1, frame, 2, 1024);
        } else if has_video {
            fix_trex_durations(data, frame);
        } else {
            fix_trex_durations(data, 1024);
        }
    }
}

/// The first packets of the tracks of an initialization segment, as they are found.
#[derive(Debug, Clone, Copy, PartialEq, Eq)]
pub struct FirstPackets {
    pub video: Option<usize>,
    pub audio: Option<usize>,
}

/// All tracks that were set have their first packet. Without a set track there is nothing to
/// wait for.
pub open spec fn has_all(b: InitSegmentBuilder<'_>, f: FirstPackets) -> bool {
    (b.video_idx is None || f.video is Some) && (b.audio_idx is None || f.audio is Some)
}

/// The first packets once the packet at `at`, of the stream `s`, is taken in.
pub open spec fn with_peeked(
    b: InitSegmentBuilder<'_>,
    f: FirstPackets,
    s: StreamDesc,
    at: usize,
) -> FirstPackets {
    if takes_video(b, s) && f.video is None {
        FirstPackets { video: Some(at), ..f }
    } else if takes_audio(b, s) && f.audio is None {
        FirstPackets { audio: Some(at), ..f }
    } else {
        f
    }
}

impl<'a> InitSegmentBuilder<'a> {
    /// Looks at the packet at `at`, of the stream `s`; tells whether it was the last to look
    /// at.
    pub fn peek(&self, first: &mut FirstPackets, s: &StreamDesc, at: usize) -> (done: bool)
        ensures
            *final(first) == with_peeked(*self, *old(first), *s, at),
            done == has_all(*self, *final(first)),
    {
        if self.is_video_target(s) && first.video.is_none() {
            first.video = Some(at);
        } else if self.is_audio_target(s) && first.audio.is_none() {
            first.audio = Some(at);
        }
        (self.video_idx.is_none() || first.video.is_some()) && (self.audio_idx.is_none()
            || first.audio.is_some())
    }
}

/// The first packets among those of the streams in `order`, and whether the looking has
/// ended.
pub open spec fn peeked(b: InitSegmentBuilder<'_>, order: Seq<StreamDesc>) -> (FirstPackets, bool)
    decreases order.len(),
{
    if order.len() == 0 {
        (FirstPackets { video: None, audio: None }, false)
    } else {
        let (f, done) = peeked(b, order.drop_last());
        if done {
            (f, true)
        } else {
            let g = with_peeked(b, f, order.last(), (order.len() - 1) as usize);
            (g, has_all(b, g))
        }
    }
}

/// Finds the first packets of the tracks of an initialization segment; `order` gives the
/// stream of each packet.
pub fn peek_first_packets(b: &InitSegmentBuilder<'_>, order: &[StreamDesc]) -> (first:
    FirstPackets)
    ensures
        first == peeked(*b, order@).0,
{
    let mut first = FirstPackets { video: None, audio: None };
    let mut i: usize = 0;
    while i < order.len()
        invariant
            i <= order@.len(),
            peeked(*b, order@.take(i as int)) == (first, false),
        decreases order.len() - i,
    {
        assert(order@.take(i + 1).drop_last() =~= order@.take(i as int));
        if b.peek(&mut first, &order[i], i) {
            proof {
                lemma_peeked_stays(*b, order@, i + 1);
            }
            return first;
        }
        i += 1;
    }
    assert(order@.take(order@.len() as int) =~= order@);
    first
}

proof fn lemma_peeked_stays(b: InitSegmentBuilder<'_>, order: Seq<StreamDesc>, n: int)
    requires
        0 <= n <= order.len(),
        peeked(b, order.take(n)).1,
    ensures
        peeked(b, order) == peeked(b, order.take(n)),
    decreases order.len(),
{
    if n < order.len() {
        assert(order.drop_last().take(n) =~= order.take(n));
        lemma_peeked_stays(b, order.drop_last(), n);
    } else {
        assert(order.take(n) =~= order);
    }
}

/// Prepares the initialization segment of the video.
pub fn generate_video_init_segment<'a>(index: &'a StreamIndex) -> (r: Result<
    InitSegmentBuilder<'a>,
>)
    ensures
        if index.video_streams@.len() == 0 {
            r matches Err(HlsError::NoVideoStream)
        } else {
            r matches Ok(b) && b == (InitSegmentBuilder {
                index,
                video_idx: Some(index.video_streams@[0].stream_index),
                audio_idx: None,
                transcode_audio_to_aac: false,
            })
        },
{
    match index.primary_video() {
        None => Err(HlsError::NoVideoStream),
        Some(v) => Ok(InitSegmentBuilder::new(index).with_video_track(v.stream_index)),
    }
}

/// Prepares the initialization segment of an audio track.
pub fn generate_audio_init_segment<'a>(
    index: &'a StreamIndex,
    track_index: usize,
    requested_transcode: Option<&str>,
) -> (r: Result<InitSegmentBuilder<'a>>)
    ensures
        if audio_index(index.audio_streams@, track_index) is None {
            r matches Err(HlsError::StreamNotFound(m)) && m@ == not_found_text(
                "audio"@,
                track_index,
            )
        } else {
            r matches Ok(b) && b == (InitSegmentBuilder {
                index,
                video_idx: None,
                audio_idx: Some(track_index),
                transcode_audio_to_aac: wants_aac(
                    opt_str(requested_transcode),
                    index.audio_streams@,
                    track_index,
                ),
            })
        },
{
    if let Err(e) = index.get_audio_stream(track_index) {
        return Err(e);
    }
    let aac: bool = is_aac_wanted(index, track_index, requested_transcode);
    Ok(InitSegmentBuilder::new(index).with_audio_track(track_index).transcode_audio_to_aac(aac))
}

/// Prepares the initialization segment of a video track with interleaved audio.
pub fn generate_interleaved_init_segment<'a>(
    index: &'a StreamIndex,
    video_idx: usize,
    audio_idx: usize,
    requested_audio_transcode: Option<&str>,
) -> (b: InitSegmentBuilder<'a>)
    ensures
        b == (InitSegmentBuilder {
            index,
            video_idx: Some(video_idx),
            audio_idx: Some(audio_idx),
            transcode_audio_to_aac: wants_aac(
                opt_str(requested_audio_transcode),
                index.audio_streams@,
                audio_idx,
            ),
        }),
{
    let aac: bool = is_aac_wanted(index, audio_idx, requested_audio_transcode);
    InitSegmentBuilder::new(index).with_video_track(video_idx).with_audio_track(
        audio_idx,
    ).transcode_audio_to_aac(aac)
}

} // verus!
