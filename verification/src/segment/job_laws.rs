//! What a segment is made from, said of the streams of the file.

use vstd::prelude::*;
use crate::big_endian::be32;
use crate::media::{audio_index, AudioStreamInfo, Id, VideoStreamInfo};
use crate::search::{lemma_first_index_found, lemma_first_index_holds, first_index};
use crate::timebase::Rational;
use super::box_laws::{
    differs_only_in, law_fix_trex_durations, law_fix_trex_durations_per_track, leaves,
    trex_containers,
};
use super::finish_laws::is_stream_of;
use super::generator::{
    interleaved_use, interleaved_uses, is_job_audio, job_uses, wants_aac, MediaJob, StreamDesc,
    StreamUse,
};
use super::init::{
    frame_ticks, init_uses, takes_audio, takes_video, with_durations, InitSegmentBuilder,
};
use super::isobmff::fourcc;

verus! {

proof fn lemma_audio_index(streams: Seq<AudioStreamInfo>, track: usize)
    ensures
        match audio_index(streams, track) {
            Some(n) => is_stream_of(streams, track, n),
            None => forall|n: int| !#[trigger] is_stream_of(streams, track, n),
        },
{
    let p = |i: int| streams[i].stream_index == track;
    lemma_first_index_holds(streams.len() as int, p);
    match first_index(streams.len() as int, p) {
        Some(n) => {
            assert forall|m: int| 0 <= m < n implies (#[trigger] streams[m]).stream_index
                != track by {
                assert(!p(m));
            }
            assert(p(n));
        },
        None => {
            assert forall|n: int| !#[trigger] is_stream_of(streams, track, n) by {
                if is_stream_of(streams, track, n) {
                    assert(!p(n));
                }
            }
        },
    }
}

/// Audio is transcoded exactly if AAC is asked for or the stream is marked for it.
pub proof fn law_when_transcoded(
    requested: Option<Seq<char>>,
    streams: Seq<AudioStreamInfo>,
    track: usize,
)
    ensures
        wants_aac(requested, streams, track) == (requested == Some("aac"@) || exists|n: int|
            #[trigger] is_stream_of(streams, track, n) && streams[n].transcode_to == Some(Id::AAC)),
{
    lemma_audio_index(streams, track);
    if exists|n: int| #[trigger]
        is_stream_of(streams, track, n) && streams[n].transcode_to == Some(Id::AAC) {
        let n = choose|n: int| #[trigger]
            is_stream_of(streams, track, n) && streams[n].transcode_to == Some(Id::AAC);
        let m = audio_index(streams, track)->Some_0;
        if m < n {
            assert(streams[m].stream_index != track);
        } else if n < m {
            assert(streams[n].stream_index != track);
        }
    }
}

/// The bit rate of AAC for a number of channels.
pub open spec fn aac_rate_for(channels: u16) -> u64 {
    if channels < 2 {
        64_000
    } else if channels > 2 {
        192_000
    } else {
        128_000
    }
}

/// A stream of the file is used in an interleaved segment: as the video, or as the audio, which
/// may be transcoded.
pub open spec fn is_used(
    job: MediaJob,
    audio: Seq<AudioStreamInfo>,
    s: StreamDesc,
    u: StreamUse,
) -> bool {
    &&& u.index == s.index
    &&& if u.is_video {
        s.is_video && job.video_track == Some(s.index) && u.aac_bitrate is None
    } else {
        &&& s.is_audio && job.audio_track == Some(s.index)
        &&& u.aac_bitrate is Some == job.transcode
        &&& forall|n: int| #[trigger]
            is_stream_of(audio, s.index, n) && job.transcode ==> u.aac_bitrate == Some(
                aac_rate_for(audio[n].channels),
            )
    }
}

proof fn lemma_rate(job: MediaJob, audio: Seq<AudioStreamInfo>, track: usize)
    requires
        job.transcode ==> audio_index(audio, track) is Some,
    ensures
        super::generator::aac_rate(job, audio, track) is Some == job.transcode,
        forall|n: int| #[trigger]
            is_stream_of(audio, track, n) && job.transcode ==> super::generator::aac_rate(
                job,
                audio,
                track,
            ) == Some(aac_rate_for(audio[n].channels)),
{
    lemma_audio_index(audio, track);
    assert forall|n: int| #[trigger] is_stream_of(audio, track, n) && job.transcode implies
        super::generator::aac_rate(job, audio, track) == Some(aac_rate_for(audio[n].channels)) by {
        let m = audio_index(audio, track)->Some_0;
        if m < n {
            assert(audio[m].stream_index != track);
        } else if n < m {
            assert(audio[n].stream_index != track);
        }
    }
}

/// A use is that of some stream.
pub open spec fn comes_from(
    job: MediaJob,
    audio: Seq<AudioStreamInfo>,
    streams: Seq<StreamDesc>,
    u: StreamUse,
) -> bool {
    exists|i: int| 0 <= i < streams.len() && is_used(job, audio, #[trigger] streams[i], u)
}

/// A stream is used, as video or as audio.
pub open spec fn has_use(uses: Seq<StreamUse>, index: usize, is_video: bool) -> bool {
    exists|k: int|
        0 <= k < uses.len() && (#[trigger] uses[k]).is_video == is_video && uses[k].index == index
}

proof fn lemma_more_uses(a: Seq<StreamUse>, b: Seq<StreamUse>, index: usize, is_video: bool)
    requires
        has_use(a, index, is_video) || has_use(b, index, is_video),
    ensures
        has_use(a + b, index, is_video),
{
    if has_use(a, index, is_video) {
        let k = choose|k: int|
            0 <= k < a.len() && (#[trigger] a[k]).is_video == is_video && a[k].index == index;
        assert((a + b)[k] == a[k]);
    } else {
        let k = choose|k: int|
            0 <= k < b.len() && (#[trigger] b[k]).is_video == is_video && b[k].index == index;
        assert((a + b)[a.len() + k] == b[k]);
    }
}

proof fn lemma_own_uses(job: MediaJob, audio: Seq<AudioStreamInfo>, s: StreamDesc)
    requires
        job.audio_track is Some && job.transcode ==> audio_index(audio, job.audio_track->Some_0)
            is Some,
    ensures
        ({
            let own = interleaved_use(job, audio, s);
            &&& forall|k: int| 0 <= k < own.len() ==> is_used(job, audio, s, #[trigger] own[k])
            &&& s.is_video && job.video_track == Some(s.index) ==> has_use(own, s.index, true)
            &&& s.is_audio && job.audio_track == Some(s.index) ==> has_use(own, s.index, false)
        }),
{
    let own = interleaved_use(job, audio, s);
    if is_job_audio(job, s) {
        lemma_rate(job, audio, s.index);
        assert(!own[own.len() - 1].is_video);
    }
    if s.is_video && job.video_track == Some(s.index) {
        assert(own[0].is_video);
    }
}

/// An interleaved segment uses the video track and the audio track of the job, and nothing else.
pub proof fn law_interleaved_uses(
    job: MediaJob,
    audio: Seq<AudioStreamInfo>,
    streams: Seq<StreamDesc>,
)
    requires
        job.audio_track is Some && job.transcode ==> audio_index(audio, job.audio_track->Some_0)
            is Some,
    ensures
        ({
            let uses = interleaved_uses(job, audio, streams);
            &&& forall|k: int|
                0 <= k < uses.len() ==> comes_from(job, audio, streams, #[trigger] uses[k])
            &&& forall|i: int|
                0 <= i < streams.len() && (#[trigger] streams[i]).is_video && job.video_track
                    == Some(streams[i].index) ==> has_use(uses, streams[i].index, true)
            &&& forall|i: int|
                0 <= i < streams.len() && (#[trigger] streams[i]).is_audio && job.audio_track
                    == Some(streams[i].index) ==> has_use(uses, streams[i].index, false)
        }),
    decreases streams.len(),
{
    let uses = interleaved_uses(job, audio, streams);
    if streams.len() > 0 {
        let rest = streams.drop_last();
        let l = streams.len() - 1;
        let s = streams[l];
        assert(s == streams.last());
        let before = interleaved_uses(job, audio, rest);
        let own = interleaved_use(job, audio, s);
        assert(uses == before + own);
        law_interleaved_uses(job, audio, rest);
        lemma_own_uses(job, audio, s);
        assert forall|k: int| 0 <= k < uses.len() implies comes_from(
            job,
            audio,
            streams,
            #[trigger] uses[k],
        ) by {
            if k < before.len() {
                assert(uses[k] == before[k]);
                assert(comes_from(job, audio, rest, before[k]));
                let i = choose|i: int|
                    0 <= i < rest.len() && is_used(job, audio, #[trigger] rest[i], before[k]);
                assert(streams[i] == rest[i]);
            } else {
                assert(uses[k] == own[k - before.len()]);
                assert(is_used(job, audio, streams[l], uses[k]));
            }
        }
        assert forall|i: int|
            0 <= i < streams.len() && (#[trigger] streams[i]).is_video && job.video_track == Some(
                streams[i].index,
            ) implies has_use(uses, streams[i].index, true) by {
            if i < l {
                assert(rest[i] == streams[i]);
            }
            lemma_more_uses(before, own, streams[i].index, true);
        }
        assert forall|i: int|
            0 <= i < streams.len() && (#[trigger] streams[i]).is_audio && job.audio_track == Some(
                streams[i].index,
            ) implies has_use(uses, streams[i].index, false) by {
            if i < l {
                assert(rest[i] == streams[i]);
            }
            lemma_more_uses(before, own, streams[i].index, false);
        }
    }
}

/// A segment of one track uses one stream of the file: the first of the right kind, and the track
/// of the job if it names one; audio may be transcoded.
pub proof fn law_single_use(
    job: MediaJob,
    audio: Seq<AudioStreamInfo>,
    streams: Seq<StreamDesc>,
    i: int,
    n: int,
)
    requires
        !(job.kind is Av),
        job.kind is Video ==> job.audio_track is None,
        job.kind is Audio ==> job.video_track is None,
        0 <= i < streams.len(),
        ({
            let track = if job.kind is Video {
                job.video_track
            } else {
                job.audio_track
            };
            &&& track == Some(streams[i].index)
            &&& if job.kind is Video {
                streams[i].is_video
            } else {
                streams[i].is_audio && is_stream_of(audio, streams[i].index, n)
            }
            &&& forall|j: int| 0 <= j < i ==> Some((#[trigger] streams[j]).index) != track
        }),
    ensures
        job_uses(job, audio, streams) == Ok::<Seq<StreamUse>, usize>(
            seq![
                StreamUse {
                    index: streams[i].index,
                    is_video: job.kind is Video,
                    aac_bitrate: if job.kind is Audio && job.transcode {
                        Some(aac_rate_for(audio[n].channels))
                    } else {
                        None
                    },
                },
            ],
        ),
{
    let p = |j: int| super::generator::is_single(job, streams[j]);
    assert(p(i));
    assert forall|j: int| 0 <= j < i implies !(#[trigger] p(j)) by {
        assert(Some(streams[j].index) != Some(streams[i].index));
    }
    lemma_first_index_found(streams.len() as int, p, i);
    lemma_audio_index(audio, streams[i].index);
    if job.kind is Audio {
        assert(is_stream_of(audio, streams[i].index, n));
        lemma_rate(job, audio, streams[i].index);
    }
}

/// A picture of a video with a frame rate lasts one frame, in whole ticks of 1/90000 s.
pub proof fn law_frame_ticks(framerate: Rational)
    requires
        framerate.0 > 0,
        framerate.1 > 0,
        90000 * framerate.1 < 0x1_0000_0000 * framerate.0,
    ensures
        frame_ticks(framerate) * framerate.0 <= 90000 * framerate.1 < (frame_ticks(framerate) + 1)
            * framerate.0,
{
    let (n, d) = (90000 * framerate.1 as int, framerate.0 as int);
    let q = n / d;
    vstd::arithmetic::div_mod::lemma_fundamental_div_mod(n, d);
    assert(0 <= q < 0x1_0000_0000) by (nonlinear_arith)
        requires
            q == n / d,
            0 <= n < 0x1_0000_0000 * d,
            d > 0,
    ;
    assert(frame_ticks(framerate) == q);
    assert(q * d <= n < (q + 1) * d) by (nonlinear_arith)
        requires
            n == d * q + n % d,
            0 <= n % d < d,
    ;
}

/// The track defaults of an initialization segment: a picture lasts one frame of the first video
/// stream, and a frame of audio 1024 samples. With both, the video is the track 1 and the audio
/// the track 2; with one of them, all tracks get its length.
pub proof fn law_init_durations(
    streams: Seq<VideoStreamInfo>,
    data: Seq<u8>,
    has_video: bool,
    has_audio: bool,
    i: int,
)
    requires
        0 <= i < leaves(data, trex_containers()).len(),
        leaves(data, trex_containers())[i].btype == fourcc('t', 'r', 'e', 'x')@,
        leaves(data, trex_containers())[i].payload.len() >= 16,
    ensures
        ({
            let b = leaves(data, trex_containers())[i];
            let a = leaves(
                with_durations(streams, data, has_video, has_audio),
                trex_containers(),
            )[i];
            let frame = if streams.len() > 0 {
                frame_ticks(streams[0].framerate)
            } else {
                3000
            };
            let track = be32(b.payload, 4);
            &&& differs_only_in(b.payload, a.payload, 12, 16)
            &&& has_video && has_audio && track == 1 ==> be32(a.payload, 12) == frame
            &&& has_video && has_audio && track == 2 ==> be32(a.payload, 12) == 1024
            &&& has_video && has_audio && track != 1 && track != 2 ==> a.payload == b.payload
            &&& has_video && !has_audio ==> be32(a.payload, 12) == frame
            &&& !has_video ==> be32(a.payload, 12) == 1024
        }),
{
    let frame = super::init::video_frame_ticks(streams);
    if has_video && has_audio {
        law_fix_trex_durations_per_track(data, 1, frame, 2, 1024, i);
    } else if has_video {
        law_fix_trex_durations(data, frame, i);
    } else {
        law_fix_trex_durations(data, 1024, i);
    }
}

/// A stream is taken into an initialization segment as video: it is the video track, or there is
/// no track named at all and it is video.
pub open spec fn is_taken_as_video(b: InitSegmentBuilder<'_>, s: StreamDesc) -> bool {
    if b.video_idx is None && b.audio_idx is None {
        s.is_video
    } else {
        b.video_idx == Some(s.index)
    }
}

/// A stream is taken into an initialization segment as audio, unless it is as video.
pub open spec fn is_taken_as_audio(b: InitSegmentBuilder<'_>, s: StreamDesc) -> bool {
    !is_taken_as_video(b, s) && if b.video_idx is None && b.audio_idx is None {
        s.is_audio
    } else {
        b.audio_idx == Some(s.index)
    }
}

/// The streams of an initialization segment are those that are taken, each once and in order;
/// audio that is transcoded is announced at the bit rate for its channels.
pub proof fn law_init_uses(b: InitSegmentBuilder<'_>, streams: Seq<StreamDesc>) -> (from: Seq<int>)
    ensures
        ({
            let uses = init_uses(b, streams);
            &&& from.len() == uses.len()
            &&& forall|k: int| 0 <= k < from.len() ==> 0 <= #[trigger] from[k] < streams.len()
            &&& forall|k: int, l: int| 0 <= k < l < from.len() ==> from[k] < from[l]
            &&& forall|i: int|
                0 <= i < streams.len() ==> from.contains(i) == (is_taken_as_video(
                    b,
                    #[trigger] streams[i],
                ) || is_taken_as_audio(b, streams[i]))
            &&& forall|k: int|
                0 <= k < uses.len() ==> (#[trigger] uses[k]).index == streams[from[k]].index
                    && uses[k].is_video == is_taken_as_video(b, streams[from[k]]) && (
                uses[k].aac_bitrate is Some == (!uses[k].is_video && b.transcode_audio_to_aac))
            &&& forall|k: int, n: int|
                0 <= k < uses.len() && #[trigger] is_stream_of(
                    b.index.audio_streams@,
                    (#[trigger] uses[k]).index,
                    n,
                ) && uses[k].aac_bitrate is Some ==> uses[k].aac_bitrate == Some(
                    aac_rate_for(b.index.audio_streams@[n].channels),
                )
        }),
    decreases streams.len(),
{
    let uses = init_uses(b, streams);
    if streams.len() == 0 {
        Seq::empty()
    } else {
        let rest = streams.drop_last();
        let l = streams.len() - 1;
        let s = streams[l];
        assert(s == streams.last());
        let before = init_uses(b, rest);
        let old_from = law_init_uses(b, rest);
        let taken = is_taken_as_video(b, s) || is_taken_as_audio(b, s);
        assert(takes_video(b, s) == is_taken_as_video(b, s));
        assert(!takes_video(b, s) ==> takes_audio(b, s) == is_taken_as_audio(b, s));
        let from = if taken {
            old_from.push(l)
        } else {
            old_from
        };
        lemma_audio_index(b.index.audio_streams@, s.index);
        assert forall|i: int| 0 <= i < streams.len() implies from.contains(i) == (
        is_taken_as_video(b, #[trigger] streams[i]) || is_taken_as_audio(b, streams[i])) by {
            if i < l {
                assert(rest[i] == streams[i]);
                if old_from.contains(i) {
                    let k = old_from.index_of(i);
                    assert(from[k] == i);
                }
                if from.contains(i) {
                    let k = from.index_of(i);
                    assert(old_from[k] == i);
                }
            } else if taken {
                assert(from[old_from.len() as int] == l);
            } else if from.contains(l) {
                let k = from.index_of(l);
                assert(old_from[k] == l);
            }
        }
        assert forall|k: int| 0 <= k < uses.len() implies (#[trigger] uses[k]).index
            == streams[from[k]].index && uses[k].is_video == is_taken_as_video(
            b,
            streams[from[k]],
        ) && (uses[k].aac_bitrate is Some == (!uses[k].is_video && b.transcode_audio_to_aac)) by {
            if k < before.len() {
                assert(uses[k] == before[k]);
                assert(rest[old_from[k]] == streams[from[k]]);
            }
        }
        assert forall|k: int, n: int|
            0 <= k < uses.len() && #[trigger] is_stream_of(
                b.index.audio_streams@,
                (#[trigger] uses[k]).index,
                n,
            ) && uses[k].aac_bitrate is Some implies uses[k].aac_bitrate == Some(
            aac_rate_for(b.index.audio_streams@[n].channels),
        ) by {
            if k < before.len() {
                assert(uses[k] == before[k]);
                assert(is_stream_of(b.index.audio_streams@, before[k].index, n));
            } else {
                let m = audio_index(b.index.audio_streams@, s.index)->Some_0;
                if m < n {
                    assert(b.index.audio_streams@[m].stream_index != s.index);
                } else if n < m {
                    assert(b.index.audio_streams@[n].stream_index != s.index);
                }
            }
        }
        from
    }
}

} // verus!
