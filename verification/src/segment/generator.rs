//! What goes into a segment: the decisions around demuxing and muxing.

use vstd::prelude::*;
use crate::error::{HlsError, Result};
use crate::media::{
    audio_index, not_found_text, segment_index, AudioStreamInfo, Id, SegmentInfo, StreamIndex,
};
use crate::playlist::variant::opt_str;
use crate::search::{first_index, lemma_first_index_found, lemma_first_index_none};
use crate::text::same_text;
use crate::timebase::{rescale_ts, rescaled, Rational};
use crate::transcode::pipeline::{bitrate_for, get_recommended_bitrate};
use super::packets::{shown_at, shown_time, MediaKind, PacketInfo, Verdict};

verus! {

/// What a media segment is made from.
#[derive(Debug, Clone, Copy, PartialEq, Eq)]
pub struct MediaJob {
    pub kind: MediaKind,
    pub video_track: Option<usize>,
    pub audio_track: Option<usize>,
    /// Whether the audio is transcoded to AAC.
    pub transcode: bool,
}

/// AAC was asked for, or the audio stream is marked for it.
pub open spec fn wants_aac(
    requested: Option<Seq<char>>,
    streams: Seq<AudioStreamInfo>,
    track: usize,
) -> bool {
    requested == Some("aac"@) || match audio_index(streams, track) {
        Some(i) => streams[i].transcode_to == Some(Id::AAC),
        None => false,
    }
}

/// Whether the audio of a track is to be transcoded to AAC.
pub fn is_aac_wanted(index: &StreamIndex, track: usize, requested: Option<&str>) -> (wanted: bool)
    ensures
        wanted == wants_aac(opt_str(requested), index.audio_streams@, track),
{
    if let Some(name) = requested {
        if same_text(name, "aac") {
            return true;
        }
    }
    match index.get_audio_stream(track) {
        Ok(info) => match info.transcode_to {
            Some(id) => id == Id::AAC,
            None => false,
        },
        Err(_) => false,
    }
}

/// The text for a file that lacks video or audio.
pub open spec fn both_needed_text() -> Seq<char> {
    "Interleaved segment requires both video and audio streams"@
}

/// Prepares a segment of video with interleaved audio.
pub fn plan_interleaved_segment(
    index: &StreamIndex,
    video_idx: usize,
    audio_idx: usize,
    requested_audio_transcode: Option<&str>,
) -> (r: Result<MediaJob>)
    ensures
        if index.video_streams@.len() == 0 || index.audio_streams@.len() == 0 {
            r matches Err(HlsError::StreamNotFound(m)) && m@ == both_needed_text()
        } else {
            r == Ok::<MediaJob, HlsError>(
                MediaJob {
                    kind: MediaKind::Av,
                    video_track: Some(video_idx),
                    audio_track: Some(audio_idx),
                    transcode: wants_aac(
                        opt_str(requested_audio_transcode),
                        index.audio_streams@,
                        audio_idx,
                    ),
                },
            )
        },
{
    if index.video_streams.len() == 0 || index.audio_streams.len() == 0 {
        return Err(
            HlsError::StreamNotFound(
                "Interleaved segment requires both video and audio streams".to_owned(),
            ),
        );
    }
    Ok(
        MediaJob {
            kind: MediaKind::Av,
            video_track: Some(video_idx),
            audio_track: Some(audio_idx),
            transcode: is_aac_wanted(index, audio_idx, requested_audio_transcode),
        },
    )
}

/// Prepares a segment of video.
pub fn plan_video_segment(index: &StreamIndex, track_index: usize, sequence: usize) -> (r: Result<
    (SegmentInfo, MediaJob),
>)
    ensures
        match segment_index(index.segments@, sequence) {
            None => r matches Err(HlsError::SegmentNotFound {
                stream_id,
                segment_type,
                sequence: s,
            }) && stream_id@ == index.stream_id@ && segment_type@ == "video"@ && s == sequence,
            Some(i) => r matches Ok((segment, job)) && segment == index.segments@[i] && job == (
            MediaJob {
                kind: MediaKind::Video,
                video_track: Some(track_index),
                audio_track: None,
                transcode: false,
            }),
        },
{
    match index.get_segment("video", sequence) {
        Err(e) => Err(e),
        Ok(segment) => Ok(
            (
                *segment,
                MediaJob {
                    kind: MediaKind::Video,
                    video_track: Some(track_index),
                    audio_track: None,
                    transcode: false,
                },
            ),
        ),
    }
}

/// Prepares a segment of audio.
pub fn plan_audio_segment(
    index: &StreamIndex,
    track_index: usize,
    sequence: usize,
    requested_transcode: Option<&str>,
) -> (r: Result<(SegmentInfo, MediaJob)>)
    ensures
        match segment_index(index.segments@, sequence) {
            None => r matches Err(HlsError::SegmentNotFound {
                stream_id,
                segment_type,
                sequence: s,
            }) && stream_id@ == index.stream_id@ && segment_type@ == "audio"@ && s == sequence,
            Some(i) => if audio_index(index.audio_streams@, track_index) is None {
                r matches Err(HlsError::StreamNotFound(m)) && m@ == not_found_text(
                    "audio"@,
                    track_index,
                )
            } else {
                r matches Ok((segment, job)) && segment == index.segments@[i] && job == (MediaJob {
                    kind: MediaKind::Audio,
                    video_track: None,
                    audio_track: Some(track_index),
                    transcode: wants_aac(
                        opt_str(requested_transcode),
                        index.audio_streams@,
                        track_index,
                    ),
                })
            },
        },
{
    let segment: SegmentInfo = match index.get_segment("audio", sequence) {
        Err(e) => {
            return Err(e);
        },
        Ok(segment) => *segment,
    };
    if let Err(e) = index.get_audio_stream(track_index) {
        return Err(e);
    }
    Ok(
        (
            segment,
            MediaJob {
                kind: MediaKind::Audio,
                video_track: None,
                audio_track: Some(track_index),
                transcode: is_aac_wanted(index, track_index, requested_transcode),
            },
        ),
    )
}

/// Where a demuxer is sent, in microseconds: to `target`, and in no case behind `limit`.
#[derive(Debug, Clone, Copy, PartialEq, Eq, Structural)]
pub struct Seek {
    pub target: i64,
    pub limit: i64,
}

/// The slack that lets a seek find a key frame that is shown later than it is decoded.
pub const SEEK_SLACK_US: i64 = 500_000;

/// The seek to the start of a segment.
pub open spec fn main_seek(start_us: int) -> Seek {
    Seek { target: (start_us + SEEK_SLACK_US) as i64, limit: (start_us + 2_000_000) as i64 }
}

/// The seek to the audio in front of a segment that is transcoded: one second earlier.
pub open spec fn preroll_seek(job: MediaJob, start_us: int) -> Option<Seek> {
    if job.transcode && job.audio_track is Some {
        Some(
            Seek {
                target: if start_us < 1_000_000 {
                    0
                } else {
                    (start_us - 1_000_000) as i64
                },
                limit: (start_us + SEEK_SLACK_US) as i64,
            },
        )
    } else {
        None
    }
}

/// Where the demuxer is sent for a segment that starts at `start_us`: for the audio in front
/// of it, if that is needed, and then for the segment.
pub fn plan_seeks(job: &MediaJob, start_us: i64) -> (seeks: (Option<Seek>, Seek))
    requires
        i64::MIN + 1_000_000 <= start_us <= i64::MAX - 2_000_000,
    ensures
        seeks == (preroll_seek(*job, start_us as int), main_seek(start_us as int)),
{
    let preroll: Option<Seek> = if job.transcode && job.audio_track.is_some() {
        Some(
            Seek {
                target: if start_us < 1_000_000 {
                    0
                } else {
                    start_us - 1_000_000
                },
                limit: start_us + SEEK_SLACK_US,
            },
        )
    } else {
        None
    };
    (preroll, Seek { target: start_us + SEEK_SLACK_US, limit: start_us + 2_000_000 })
}

/// Decides on a packet in front of a transcoded segment: those of the audio track are kept,
/// up to where the segment takes over.
pub fn judge_preroll(p: &PacketInfo, audio_track: usize, limit_us: i64) -> (verdict: Verdict)
    ensures
        verdict == if p.stream_id != audio_track {
            Verdict::Skip
        } else if rescaled(shown_at(p.pts, p.dts) as int, p.timebase, Rational(1, 1_000_000))
            >= limit_us {
            Verdict::Stop
        } else {
            Verdict::Keep
        },
{
    if p.stream_id != audio_track {
        Verdict::Skip
    } else if rescale_ts(shown_time(p.pts, p.dts), p.timebase, Rational(1, 1_000_000))
        >= limit_us {
        Verdict::Stop
    } else {
        Verdict::Keep
    }
}

/// A stream of an opened file.
#[derive(Debug, Clone, Copy, PartialEq, Eq)]
pub struct StreamDesc {
    pub index: usize,
    pub is_video: bool,
    pub is_audio: bool,
}

/// A stream that is given to the muxer.
#[derive(Debug, Clone, Copy, PartialEq, Eq)]
pub struct StreamUse {
    pub index: usize,
    pub is_video: bool,
    /// The bit rate of the AAC encoder that stands in for the stream, if there is one.
    pub aac_bitrate: Option<u64>,
}

/// The bit rate at which an audio track is encoded, if it is.
pub open spec fn aac_rate(job: MediaJob, streams: Seq<AudioStreamInfo>, track: usize) -> Option<
    u64,
> {
    if job.transcode {
        Some(bitrate_for(streams[audio_index(streams, track)->Some_0].channels))
    } else {
        None
    }
}

/// The stream is the audio of an interleaved segment.
pub open spec fn is_job_audio(job: MediaJob, s: StreamDesc) -> bool {
    s.is_audio && job.audio_track == Some(s.index)
}

/// What one stream of the file contributes to an interleaved segment.
pub open spec fn interleaved_use(
    job: MediaJob,
    audio: Seq<AudioStreamInfo>,
    s: StreamDesc,
) -> Seq<StreamUse> {
    (if s.is_video && job.video_track == Some(s.index) {
        seq![StreamUse { index: s.index, is_video: true, aac_bitrate: None }]
    } else {
        Seq::empty()
    }) + (if is_job_audio(job, s) {
        seq![
            StreamUse {
                index: s.index,
                is_video: false,
                aac_bitrate: aac_rate(job, audio, s.index),
            },
        ]
    } else {
        Seq::empty()
    })
}

/// The streams of an interleaved segment, in the order of the file.
pub open spec fn interleaved_uses(
    job: MediaJob,
    audio: Seq<AudioStreamInfo>,
    streams: Seq<StreamDesc>,
) -> Seq<StreamUse>
    decreases streams.len(),
{
    if streams.len() == 0 {
        Seq::empty()
    } else {
        interleaved_uses(job, audio, streams.drop_last()) + interleaved_use(
            job,
            audio,
            streams.last(),
        )
    }
}

/// The stream can be the only one of a segment.
pub open spec fn is_single(job: MediaJob, s: StreamDesc) -> bool {
    let target = if job.video_track is Some {
        job.video_track
    } else {
        job.audio_track
    };
    (if job.kind is Video {
        s.is_video
    } else {
        s.is_audio
    }) && (target is None || target == Some(s.index))
}

/// The name of a kind of segment.
pub open spec fn kind_name(kind: MediaKind) -> Seq<char> {
    match kind {
        MediaKind::Video => "video"@,
        MediaKind::Audio => "audio"@,
        MediaKind::Av => "av"@,
    }
}

/// The streams of a segment, or the audio stream about which nothing is known.
pub open spec fn job_uses(
    job: MediaJob,
    audio: Seq<AudioStreamInfo>,
    streams: Seq<StreamDesc>,
) -> std::result::Result<Seq<StreamUse>, usize> {
    if job.kind is Av {
        if (exists|i: int| 0 <= i < streams.len() && is_job_audio(job, #[trigger] streams[i]))
            && audio_index(audio, job.audio_track->Some_0) is None {
            Err(job.audio_track->Some_0)
        } else {
            Ok(interleaved_uses(job, audio, streams))
        }
    } else {
        match first_index(streams.len() as int, |i: int| is_single(job, streams[i])) {
            None => Ok(Seq::empty()),
            Some(i) => {
                let s = streams[i];
                if job.kind is Video {
                    Ok(seq![StreamUse { index: s.index, is_video: true, aac_bitrate: None }])
                } else if job.transcode && audio_index(audio, s.index) is None {
                    Err(s.index)
                } else {
                    Ok(
                        seq![
                            StreamUse {
                                index: s.index,
                                is_video: false,
                                aac_bitrate: aac_rate(job, audio, s.index),
                            },
                        ],
                    )
                }
            },
        }
    }
}

fn is_track(track: Option<usize>, index: usize) -> (b: bool)
    ensures
        b == (track == Some(index)),
{
    match track {
        Some(t) => t == index,
        None => false,
    }
}

fn use_audio(job: &MediaJob, index: &StreamIndex, track: usize) -> (r: Result<StreamUse>)
    ensures
        match r {
            Ok(u) => audio_index(index.audio_streams@, track) is Some && u == (StreamUse {
                index: track,
                is_video: false,
                aac_bitrate: aac_rate(*job, index.audio_streams@, track),
            }),
            Err(e) => audio_index(index.audio_streams@, track) is None && (e matches
                HlsError::StreamNotFound(m) && m@ == not_found_text("audio"@, track)),
        },
{
    match index.get_audio_stream(track) {
        Err(e) => Err(e),
        Ok(info) => Ok(
            StreamUse {
                index: track,
                is_video: false,
                aac_bitrate: if job.transcode {
                    Some(get_recommended_bitrate(info.channels))
                } else {
                    None
                },
            },
        ),
    }
}

fn register_interleaved(job: &MediaJob, index: &StreamIndex, streams: &[StreamDesc]) -> (r: Result<
    Vec<StreamUse>,
>)
    requires
        job.kind is Av,
    ensures
        match job_uses(*job, index.audio_streams@, streams@) {
            Ok(uses) => r matches Ok(out) && out@ == uses,
            Err(track) => r matches Err(HlsError::StreamNotFound(m)) && m@ == not_found_text(
                "audio"@,
                track,
            ),
        },
{
    let mut out: Vec<StreamUse> = Vec::new();
    let mut i: usize = 0;
    while i < streams.len()
        invariant
            i <= streams@.len(),
            job.kind is Av,
            out@ == interleaved_uses(*job, index.audio_streams@, streams@.take(i as int)),
            (exists|j: int| 0 <= j < i && is_job_audio(*job, #[trigger] streams@[j]))
                ==> audio_index(index.audio_streams@, job.audio_track->Some_0) is Some,
        decreases streams.len() - i,
    {
        let s: StreamDesc = streams[i];
        assert(streams@.take(i + 1).drop_last() =~= streams@.take(i as int));
        let ghost before = out@;
        if s.is_video && is_track(job.video_track, s.index) {
            out.push(StreamUse { index: s.index, is_video: true, aac_bitrate: None });
        }
        if s.is_audio && is_track(job.audio_track, s.index) {
            assert(is_job_audio(*job, streams@[i as int]));
            match use_audio(job, index, s.index) {
                Err(e) => {
                    return Err(e);
                },
                Ok(u) => {
                    out.push(u);
                },
            }
        }
        assert(out@ =~= before + interleaved_use(*job, index.audio_streams@, s));
        i += 1;
    }
    assert(streams@.take(streams@.len() as int) =~= streams@);
    Ok(out)
}

fn register_single(job: &MediaJob, index: &StreamIndex, streams: &[StreamDesc]) -> (r: Result<
    Vec<StreamUse>,
>)
    requires
        !(job.kind is Av),
    ensures
        match job_uses(*job, index.audio_streams@, streams@) {
            Ok(uses) => r matches Ok(out) && out@ == uses,
            Err(track) => r matches Err(HlsError::StreamNotFound(m)) && m@ == not_found_text(
                "audio"@,
                track,
            ),
        },
{
    let ghost p = |i: int| is_single(*job, streams@[i]);
    let target: Option<usize> = if job.video_track.is_some() {
        job.video_track
    } else {
        job.audio_track
    };
    let mut out: Vec<StreamUse> = Vec::new();
    let mut i: usize = 0;
    while i < streams.len()
        invariant
            i <= streams@.len(),
            !(job.kind is Av),
            out@.len() == 0,
            target == if job.video_track is Some {
                job.video_track
            } else {
                job.audio_track
            },
            p == (|i: int| is_single(*job, streams@[i])),
            forall|j: int| 0 <= j < i ==> !(#[trigger] p(j)),
        decreases streams.len() - i,
    {
        let s: StreamDesc = streams[i];
        let fits: bool = if job.kind == MediaKind::Video {
            s.is_video
        } else {
            s.is_audio
        };
        if fits && (target.is_none() || is_track(target, s.index)) {
            proof {
                assert(p(i as int));
                lemma_first_index_found(streams@.len() as int, p, i as int);
            }
            if job.kind == MediaKind::Video {
                out.push(StreamUse { index: s.index, is_video: true, aac_bitrate: None });
                assert(out@ =~= seq![
                    StreamUse { index: s.index, is_video: true, aac_bitrate: None },
                ]);
            } else if job.transcode {
                match use_audio(job, index, s.index) {
                    Err(e) => {
                        return Err(e);
                    },
                    Ok(u) => {
                        out.push(u);
                        assert(out@ =~= seq![u]);
                    },
                }
            } else {
                out.push(StreamUse { index: s.index, is_video: false, aac_bitrate: None });
                assert(out@ =~= seq![
                    StreamUse { index: s.index, is_video: false, aac_bitrate: None },
                ]);
            }
            return Ok(out);
        }
        i += 1;
    }
    proof {
        lemma_first_index_none(streams@.len() as int, p);
    }
    assert(out@ =~= Seq::<StreamUse>::empty());
    Ok(out)
}

/// Picks the streams of a segment out of those of the file.
pub fn register_streams(job: &MediaJob, index: &StreamIndex, streams: &[StreamDesc]) -> (r: Result<
    Vec<StreamUse>,
>)
    ensures
        match job_uses(*job, index.audio_streams@, streams@) {
            Err(track) => r matches Err(HlsError::StreamNotFound(m)) && m@ == not_found_text(
                "audio"@,
                track,
            ),
            Ok(uses) => if uses.len() == 0 {
                r matches Err(HlsError::StreamNotFound(m)) && m@ == "No "@ + kind_name(job.kind)
                    + " stream found"@
            } else {
                r matches Ok(out) && out@ == uses
            },
        },
{
    let found: Result<Vec<StreamUse>> = if job.kind == MediaKind::Av {
        register_interleaved(job, index, streams)
    } else {
        register_single(job, index, streams)
    };
    match found {
        Err(e) => Err(e),
        Ok(out) => if out.len() > 0 {
            Ok(out)
        } else {
            let mut m: String = "No ".to_owned();
            m.push_str(
                match job.kind {
                    MediaKind::Video => "video",
                    MediaKind::Audio => "audio",
                    MediaKind::Av => "av",
                },
            );
            m.push_str(" stream found");
            Err(HlsError::StreamNotFound(m))
        },
    }
}

/// Whether the muxer has to see packets before it writes the movie box: it has to for every
/// segment with audio.
pub fn needs_delay_moov(kind: MediaKind) -> (needed: bool)
    ensures
        needed == !(kind is Video),
{
    kind == MediaKind::Audio || kind == MediaKind::Av
}

} // verus!
