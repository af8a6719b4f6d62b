//! What holds of the playlists of single tracks: their entries cover the timeline, and the names
//! in them are read as what they name.

use vstd::prelude::*;
use crate::media::SegmentInfo;
use crate::params::opt_nat;
use crate::url_grammar::{item_name, AudioSegmentView, UrlTypeView, VideoSegmentView};
use crate::url_laws::{codec_is_lower, law_item_name_reads_back};
use super::variant::{
    audio_segment_name, clustering, clusters, interleaved_segment_name, longest, longest_cluster,
    make_room, subtitle_target, target_duration, video_segment_name, with_segment, Cluster,
    CLUSTER_CAP_US,
};

verus! {

/// How long segments are together, in microseconds.
pub open spec fn total_length(segments: Seq<SegmentInfo>) -> nat
    decreases segments.len(),
{
    if segments.len() == 0 {
        0
    } else {
        total_length(segments.drop_last()) + segments.last().duration_us as nat
    }
}

/// How long entries are together, in microseconds.
pub open spec fn total_cluster_length(list: Seq<Cluster>) -> nat
    decreases list.len(),
{
    if list.len() == 0 {
        0
    } else {
        total_cluster_length(list.drop_last()) + list.last().length_us as nat
    }
}

proof fn lemma_total_push(list: Seq<Cluster>, c: Cluster)
    ensures
        total_cluster_length(list.push(c)) == total_cluster_length(list) + c.length_us,
{
    assert(list.push(c).drop_last() =~= list);
}

/// The open entry never outgrows the cap, unless by one segment alone.
proof fn lemma_open_length(segments: Seq<SegmentInfo>, silent: spec_fn(usize) -> bool)
    ensures
        ({
            let c = clustering(segments, silent);
            &&& c.length <= CLUSTER_CAP_US || exists|i: int|
                0 <= i < segments.len() && c.length == (#[trigger] segments[i]).duration_us
            &&& c.length <= u64::MAX
        }),
    decreases segments.len(),
{
    if segments.len() > 0 {
        let before = segments.drop_last();
        lemma_open_length(before, silent);
        let c = clustering(before, silent);
        let last = segments.last();
        let n = clustering(segments, silent);
        assert(segments[segments.len() - 1] == last);
        if n.length > CLUSTER_CAP_US {
            assert(n.length == last.duration_us);
        }
    }
}

/// The entries are together as long as the segments.
pub proof fn law_clusters_keep_length(segments: Seq<SegmentInfo>, silent: spec_fn(usize) -> bool)
    ensures
        total_cluster_length(clusters(segments, silent)) == total_length(segments),
{
    lemma_clustering_length(segments, silent);
    lemma_open_length(segments, silent);
    let c = clustering(segments, silent);
    if c.length > 0 {
        lemma_total_push(c.done, clusters(segments, silent).last());
    }
}

proof fn lemma_clustering_length(segments: Seq<SegmentInfo>, silent: spec_fn(usize) -> bool)
    ensures
        ({
            let c = clustering(segments, silent);
            total_cluster_length(c.done) + c.length == total_length(segments)
        }),
    decreases segments.len(),
{
    if segments.len() > 0 {
        let before = segments.drop_last();
        lemma_clustering_length(before, silent);
        lemma_open_length(before, silent);
        lemma_open_length(segments, silent);
        let c = clustering(before, silent);
        let last = segments.last();
        let room = make_room(c, last);
        let n = clustering(segments, silent);
        if room.done.len() > c.done.len() {
            lemma_total_push(c.done, room.done.last());
        }
        if !silent(last.sequence) {
            assert(room.length + last.duration_us <= u64::MAX) by {
                if room.length > 0 {
                    assert(room.length + last.duration_us <= CLUSTER_CAP_US);
                }
            }
            lemma_total_push(room.done, n.done.last());
        }
    }
}

/// No entry is longer than the cap, unless it is as long as one segment alone.
pub proof fn law_clusters_keep_cap(
    segments: Seq<SegmentInfo>,
    silent: spec_fn(usize) -> bool,
    k: int,
)
    requires
        0 <= k < clusters(segments, silent).len(),
    ensures
        ({
            let length = clusters(segments, silent)[k].length_us;
            length <= CLUSTER_CAP_US || exists|i: int|
                0 <= i < segments.len() && length == (#[trigger] segments[i]).duration_us
        }),
{
    lemma_open_length(segments, silent);
    if k < clustering(segments, silent).done.len() {
        lemma_done_cap(segments, silent, k);
    }
}

proof fn lemma_done_cap(segments: Seq<SegmentInfo>, silent: spec_fn(usize) -> bool, k: int)
    requires
        0 <= k < clustering(segments, silent).done.len(),
    ensures
        ({
            let length = clustering(segments, silent).done[k].length_us;
            length <= CLUSTER_CAP_US || exists|i: int|
                0 <= i < segments.len() && length == (#[trigger] segments[i]).duration_us
        }),
    decreases segments.len(),
{
    if segments.len() > 0 {
        let before = segments.drop_last();
        let c = clustering(before, silent);
        let last = segments.last();
        let length = clustering(segments, silent).done[k].length_us;
        lemma_open_length(before, silent);
        assert(segments[segments.len() - 1] == last);
        if k < c.done.len() {
            lemma_done_cap(before, silent, k);
            if length > CLUSTER_CAP_US {
                let i = choose|i: int|
                    0 <= i < before.len() && length == (#[trigger] before[i]).duration_us;
                assert(segments[i] == before[i]);
            }
        } else if length > CLUSTER_CAP_US {
            let room = make_room(c, last);
            if k < room.done.len() {
                let i = choose|i: int|
                    0 <= i < before.len() && c.length == (#[trigger] before[i]).duration_us;
                assert(segments[i] == before[i]);
            } else {
                assert(length == last.duration_us);
            }
        }
    }
}

/// Segments that are numbered from 0 on, none of them empty.
pub open spec fn is_timeline(segments: Seq<SegmentInfo>) -> bool {
    forall|i: int|
        0 <= i < segments.len() ==> (#[trigger] segments[i]).sequence == i
            && segments[i].duration_us > 0
}

/// The entries share out the segments in front of `end`: their ranges follow each other, the
/// first one starts with the first segment, the last one ends in front of `end`, and each is
/// as long as its segments together.
pub open spec fn shares_out(list: Seq<Cluster>, segments: Seq<SegmentInfo>, end: int) -> bool {
    &&& list.len() == 0 ==> end == 0
    &&& list.len() > 0 ==> list[0].first == 0 && list.last().last + 1 == end
    &&& forall|k: int| 0 < k < list.len() ==> (#[trigger] list[k]).first == list[k - 1].last + 1
    &&& forall|k: int| 0 <= k < list.len() ==> is_sum(#[trigger] list[k], segments)
}

/// An entry is as long as its segments together.
pub open spec fn is_sum(c: Cluster, segments: Seq<SegmentInfo>) -> bool {
    &&& c.first <= c.last < segments.len()
    &&& c.length_us == total_length(segments.subrange(c.first as int, c.last + 1))
}

/// The entries of a timeline cover each segment once and in order, and each entry is as long
/// as its segments together.
pub proof fn law_clusters_cover(segments: Seq<SegmentInfo>, silent: spec_fn(usize) -> bool)
    requires
        is_timeline(segments),
    ensures
        shares_out(clusters(segments, silent), segments, segments.len() as int),
{
    lemma_clustering_covers(segments, silent);
    lemma_open_length(segments, silent);
    let c = clustering(segments, silent);
    if c.length > 0 {
        let last = clusters(segments, silent).last();
        assert(segments[segments.len() - 1].sequence == segments.len() - 1);
        lemma_one_more_cluster(c.done, segments, c.start->Some_0 as int, last);
    }
}

proof fn lemma_one_more_cluster(
    list: Seq<Cluster>,
    segments: Seq<SegmentInfo>,
    end: int,
    c: Cluster,
)
    requires
        shares_out(list, segments, end),
        c.first == end,
        is_sum(c, segments),
    ensures
        shares_out(list.push(c), segments, c.last + 1),
{
    let all = list.push(c);
    assert forall|k: int| 0 <= k < all.len() implies is_sum(#[trigger] all[k], segments) by {
        if k < list.len() {
            assert(all[k] == list[k]);
        }
    }
    assert forall|k: int| 0 < k < all.len() implies (#[trigger] all[k]).first == all[k - 1].last
        + 1 by {
        if k < list.len() {
            assert(all[k] == list[k]);
        }
    }
}

proof fn lemma_one_more_segment(list: Seq<Cluster>, segments: Seq<SegmentInfo>, end: int)
    requires
        segments.len() > 0,
        shares_out(list, segments.drop_last(), end),
    ensures
        shares_out(list, segments, end),
{
    let before = segments.drop_last();
    assert forall|k: int| 0 <= k < list.len() implies is_sum(#[trigger] list[k], segments) by {
        let c = list[k];
        assert(is_sum(c, before));
        assert(segments.subrange(c.first as int, c.last + 1) =~= before.subrange(
            c.first as int,
            c.last + 1,
        ));
    }
}

proof fn lemma_clustering_covers(segments: Seq<SegmentInfo>, silent: spec_fn(usize) -> bool)
    requires
        is_timeline(segments),
    ensures
        ({
            let c = clustering(segments, silent);
            match c.start {
                Some(s) => s < segments.len() && c.length > 0 && c.length == total_length(
                    segments.subrange(s as int, segments.len() as int),
                ) && shares_out(c.done, segments, s as int),
                None => c.length == 0 && shares_out(c.done, segments, segments.len() as int),
            }
        }),
    decreases segments.len(),
{
    if segments.len() > 0 {
        let before = segments.drop_last();
        let end = before.len() as int;
        assert forall|i: int| 0 <= i < before.len() implies (#[trigger] before[i]).sequence == i
            && before[i].duration_us > 0 by {
            assert(before[i] == segments[i]);
        }
        lemma_clustering_covers(before, silent);
        lemma_open_length(before, silent);
        lemma_open_length(segments, silent);
        let c = clustering(before, silent);
        let last = segments[end];
        assert(last.sequence == end);
        let room = make_room(c, last);
        let n = with_segment(c, last, silent(last.sequence));
        match c.start {
            Some(s) => {
                lemma_one_more_segment(c.done, segments, s as int);
                assert(segments.subrange(s as int, end) =~= before.subrange(s as int, end));
                if room.done.len() > c.done.len() {
                    lemma_one_more_cluster(c.done, segments, s as int, room.done.last());
                }
            },
            None => {
                lemma_one_more_segment(c.done, segments, end);
            },
        }
        let start = room.start->Some_0 as int;
        assert(shares_out(room.done, segments, start));
        let open = segments.subrange(start, end + 1);
        assert(open.drop_last() =~= segments.subrange(start, end));
        assert(open.last() == last);
        if start == end {
            assert(segments.subrange(start, end) =~= Seq::<SegmentInfo>::empty());
        }
        assert(room.length == total_length(segments.subrange(start, end)));
        assert(room.length + last.duration_us == total_length(open));
        if !silent(last.sequence) {
            assert(room.length + last.duration_us <= u64::MAX) by {
                if room.length > 0 {
                    assert(room.length + last.duration_us <= CLUSTER_CAP_US);
                }
            }
            lemma_one_more_cluster(room.done, segments, start, n.done.last());
        }
    }
}

proof fn lemma_longest_cluster(list: Seq<Cluster>, k: int)
    requires
        0 <= k < list.len(),
    ensures
        list[k].length_us <= longest_cluster(list),
    decreases list.len(),
{
    if k < list.len() - 1 {
        lemma_longest_cluster(list.drop_last(), k);
    }
}

proof fn lemma_longest(segments: Seq<SegmentInfo>, i: int)
    requires
        0 <= i < segments.len(),
    ensures
        segments[i].duration_us <= longest(segments),
    decreases segments.len(),
{
    if i < segments.len() - 1 {
        lemma_longest(segments.drop_last(), i);
    }
}

/// No segment is longer than the target duration of a playlist, and the target is at
/// least six seconds.
pub proof fn law_target_covers_segments(segments: Seq<SegmentInfo>, i: int)
    requires
        0 <= i < segments.len(),
        segments[i].duration_us <= u32::MAX as nat * 1_000_000,
    ensures
        segments[i].duration_us <= target_duration(segments) * 1_000_000,
        target_duration(segments) >= 6,
{
    lemma_longest(segments, i);
}

/// No entry of a subtitle playlist is longer than its target duration.
pub proof fn law_target_covers_clusters(segments: Seq<SegmentInfo>, list: Seq<Cluster>, k: int)
    requires
        0 <= k < list.len(),
        list[k].length_us <= u32::MAX as nat * 1_000_000,
    ensures
        list[k].length_us <= subtitle_target(segments, list) * 1_000_000,
{
    lemma_longest_cluster(list, k);
}

/// The segments that a video playlist names read back as those segments.
pub proof fn law_video_entries_read_back(track: usize, segment: Option<usize>)
    ensures
        item_name(video_segment_name(track, segment)) == Some(
            UrlTypeView::VideoSegment(
                VideoSegmentView {
                    track_id: track as nat,
                    audio_track_id: None,
                    audio_transcode_to: None,
                    segment_id: opt_nat(segment),
                },
            ),
        ),
{
    law_item_name_reads_back(
        UrlTypeView::VideoSegment(
            VideoSegmentView {
                track_id: track as nat,
                audio_track_id: None,
                audio_transcode_to: None,
                segment_id: opt_nat(segment),
            },
        ),
    );
}

/// The segments that an interleaved playlist names read back as those segments, if the codec
/// is made of lower case letters.
pub proof fn law_interleaved_entries_read_back(
    video: usize,
    audio: usize,
    codec: Option<Seq<char>>,
    segment: Option<usize>,
)
    requires
        codec_is_lower(codec),
    ensures
        item_name(interleaved_segment_name(video, audio, codec, segment)) == Some(
            UrlTypeView::VideoSegment(
                VideoSegmentView {
                    track_id: video as nat,
                    audio_track_id: Some(audio as nat),
                    audio_transcode_to: codec,
                    segment_id: opt_nat(segment),
                },
            ),
        ),
{
    law_item_name_reads_back(
        UrlTypeView::VideoSegment(
            VideoSegmentView {
                track_id: video as nat,
                audio_track_id: Some(audio as nat),
                audio_transcode_to: codec,
                segment_id: opt_nat(segment),
            },
        ),
    );
}

/// The segments that an audio playlist names read back as those segments, if the codec is
/// made of lower case letters.
pub proof fn law_audio_entries_read_back(
    track: usize,
    codec: Option<Seq<char>>,
    segment: Option<usize>,
)
    requires
        codec_is_lower(codec),
    ensures
        item_name(audio_segment_name(track, codec, segment)) == Some(
            UrlTypeView::AudioSegment(
                AudioSegmentView {
                    track_id: track as nat,
                    transcode_to: codec,
                    segment_id: opt_nat(segment),
                },
            ),
        ),
{
    law_item_name_reads_back(
        UrlTypeView::AudioSegment(
            AudioSegmentView {
                track_id: track as nat,
                transcode_to: codec,
                segment_id: opt_nat(segment),
            },
        ),
    );
}

} // verus!
