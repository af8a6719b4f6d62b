//! Where a segment is looked for, and what its initialization segment is made from.

use vstd::prelude::*;
use super::generator::{main_seek, preroll_seek, MediaJob, StreamDesc};
use super::init::{peeked, takes_audio, takes_video, InitSegmentBuilder};
use super::muxer::{init_part, media_from};
use super::subtitles::{aligned_time, SubtitleWindow};

verus! {

/// A seek aims half a second behind the start of the segment and may end up to two seconds behind
/// it. Where audio is transcoded, another one aims one second in front, but not in front of the
/// file, and ends no later than half a second behind the start.
pub proof fn law_seeks(job: MediaJob, start_us: i64)
    requires
        i64::MIN + 1_000_000 <= start_us <= i64::MAX - 2_000_000,
    ensures
        main_seek(start_us as int).target - start_us == 500_000,
        main_seek(start_us as int).limit - start_us == 2_000_000,
        preroll_seek(job, start_us as int) is Some == (job.transcode && job.audio_track is Some),
        preroll_seek(job, start_us as int) matches Some(s) ==> {
            &&& s.limit - start_us == 500_000
            &&& s.target >= 0
            &&& s.target == 0 || start_us - s.target == 1_000_000
            &&& start_us >= 1_000_000 ==> start_us - s.target == 1_000_000
        },
{
}

/// The first packets of an initialization segment: of all packets up to the one that completes
/// them, the earliest of the video track and the earliest of the audio track. None is passed over,
/// and nothing is read behind the one that completes them.
pub proof fn law_first_packets(b: InitSegmentBuilder<'_>, order: Seq<StreamDesc>)
    requires
        order.len() <= usize::MAX,
        forall|i: int|
            0 <= i < order.len() ==> !(takes_video(b, #[trigger] order[i]) && takes_audio(b, order[i])),
    ensures
        ({
            let (f, done) = peeked(b, order);
            &&& f.video matches Some(at) ==> at < order.len() && takes_video(b, order[at as int])
                && forall|j: int| 0 <= j < at ==> !takes_video(b, #[trigger] order[j])
            &&& f.audio matches Some(at) ==> at < order.len() && takes_audio(b, order[at as int])
                && forall|j: int| 0 <= j < at ==> !takes_audio(b, #[trigger] order[j])
            &&& !done && f.video is None ==> forall|j: int|
                0 <= j < order.len() ==> !takes_video(b, #[trigger] order[j])
            &&& !done && f.audio is None ==> forall|j: int|
                0 <= j < order.len() ==> !takes_audio(b, #[trigger] order[j])
            &&& order.len() > 0 ==> done == ((b.video_idx is Some ==> f.video is Some) && (
            b.audio_idx is Some ==> f.audio is Some))
        }),
    decreases order.len(),
{
    if order.len() > 0 {
        let before = order.drop_last();
        assert forall|i: int| 0 <= i < before.len() implies !(takes_video(b, #[trigger] before[i])
            && takes_audio(b, before[i])) by {
            assert(before[i] == order[i]);
        }
        law_first_packets(b, before);
        assert(forall|j: int| 0 <= j < before.len() ==> #[trigger] order[j] == before[j]);
        let n = order.len() - 1;
        assert(order.last() == order[n]);
        assert(!(takes_video(b, order[n]) && takes_audio(b, order[n])));
    }
}

/// A subtitle lies as far behind the start of the video as it lies behind the start of its own
/// stream.
pub proof fn law_subtitle_time_is_aligned(w: SubtitleWindow, video_start: i64, pts: i64)
    requires
        i64::MIN <= pts - w.start_time <= i64::MAX,
        i64::MIN <= pts - w.start_time + video_start <= i64::MAX,
    ensures
        aligned_time(w, video_start, pts) - video_start == pts - w.start_time,
{
    let x = pts - w.start_time + video_start;
    assert((x + 0x8000_0000_0000_0000) % 0x1_0000_0000_0000_0000 == x + 0x8000_0000_0000_0000);
}

/// The initialization segment is what stands in front of the first box of a media segment: all of
/// it, and nothing else. Without such a box it is all there is.
pub proof fn law_initialization_part(data: Seq<u8>)
    ensures
        match media_from(data, 0) {
            Some(pos) => 0 <= pos <= data.len() ==> init_part(data).len() == pos && init_part(data)
                + data.skip(pos) == data,
            None => init_part(data) == data,
        },
{
    if let Some(pos) = media_from(data, 0) {
        if 0 <= pos <= data.len() {
            assert(init_part(data) + data.skip(pos) =~= data);
        }
    }
}

} // verus!
