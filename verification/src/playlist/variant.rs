//! The playlists of single tracks.

use vstd::prelude::*;
use crate::media::{audio_index, subtitle_index, AudioStreamInfo, SegmentInfo, StreamIndex};
use crate::params::{copied, opt_nat, opt_text, AudioSegment, VideoSegment, VttSegment};
use crate::search::is_in;
use crate::text::{decimal, push_decimal, push_seconds3, push_seconds6, seconds3, seconds6};
use crate::url_grammar::{
    audio_segment_text, video_text, vtt_text, AudioSegmentView, VideoSegmentView, VttSegmentView,
};
use super::codec::{codec_name_short, short_name};

verus! {

/// The longest of the segments, in microseconds.
pub open spec fn longest(segments: Seq<SegmentInfo>) -> nat
    decreases segments.len(),
{
    if segments.len() == 0 {
        0
    } else {
        let before = longest(segments.drop_last());
        let last = segments.last().duration_us as nat;
        if last > before {
            last
        } else {
            before
        }
    }
}

/// Microseconds in seconds, rounded up, at most what fits.
pub open spec fn ceil_seconds(us: nat) -> nat {
    let s = (us + 999_999) / 1_000_000;
    if s > u32::MAX {
        u32::MAX as nat
    } else {
        s
    }
}

/// The target duration of a playlist: the longest segment in whole seconds, at least 6.
pub open spec fn target_duration(segments: Seq<SegmentInfo>) -> nat {
    if ceil_seconds(longest(segments)) > 6 {
        ceil_seconds(longest(segments))
    } else {
        6
    }
}

fn to_ceil_seconds(us: u64) -> (s: u32)
    ensures
        s == ceil_seconds(us as nat),
{
    let whole: u64 = us / 1_000_000;
    let s: u64 = if us % 1_000_000 > 0 {
        whole + 1
    } else {
        whole
    };
    assert(s == (us + 999_999) / 1_000_000);
    if s > u32::MAX as u64 {
        u32::MAX
    } else {
        s as u32
    }
}

/// The target duration of a playlist.
pub fn calculate_target_duration(segments: &[SegmentInfo]) -> (seconds: u32)
    ensures
        seconds == target_duration(segments@),
{
    let mut max: u64 = 0;
    let mut i: usize = 0;
    while i < segments.len()
        invariant
            i <= segments@.len(),
            max == longest(segments@.take(i as int)),
        decreases segments.len() - i,
    {
        assert(segments@.take(i + 1).drop_last() =~= segments@.take(i as int));
        if segments[i].duration_us > max {
            max = segments[i].duration_us;
        }
        i += 1;
    }
    assert(segments@.take(segments@.len() as int) =~= segments@);
    let seconds: u32 = to_ceil_seconds(max);
    if seconds > 6 {
        seconds
    } else {
        6
    }
}

/// The lines that open the playlist of a track.
pub open spec fn header(target: nat) -> Seq<char> {
    "#EXTM3U\n#EXT-X-VERSION:7\n#EXT-X-TARGETDURATION:"@ + decimal(target)
        + "\n#EXT-X-MEDIA-SEQUENCE:0\n#EXT-X-PLAYLIST-TYPE:VOD\n"@
}

fn push_header(out: &mut String, target: u32)
    ensures
        final(out)@ == old(out)@ + header(target as nat),
{
    out.push_str("#EXTM3U\n#EXT-X-VERSION:7\n#EXT-X-TARGETDURATION:");
    push_decimal(out, target as u64);
    out.push_str("\n#EXT-X-MEDIA-SEQUENCE:0\n#EXT-X-PLAYLIST-TYPE:VOD\n");
    assert(out@ =~= old(out)@ + header(target as nat));
}

/// The entry of one segment: its length and its name.
pub open spec fn entry(duration_us: u64, name: Seq<char>) -> Seq<char> {
    "#EXTINF:"@ + seconds3(duration_us as nat) + ",\n"@ + name + "\n"@
}

/// The entries of all segments, in order; `name` gives the name of a segment by its
/// number.
pub open spec fn entries(
    segments: Seq<SegmentInfo>,
    name: spec_fn(usize) -> Seq<char>,
) -> Seq<char>
    decreases segments.len(),
{
    if segments.len() == 0 {
        Seq::empty()
    } else {
        entries(segments.drop_last(), name) + entry(
            segments.last().duration_us,
            name(segments.last().sequence),
        )
    }
}

/// The opening of a playlist up to its first entry.
pub open spec fn opening(segments: Seq<SegmentInfo>, init: Seq<char>) -> Seq<char> {
    header(target_duration(segments)) + "#EXT-X-INDEPENDENT-SEGMENTS\n#EXT-X-MAP:URI=\""@ + init
        + "\"\n\n"@
}

/// The playlist of a track with an initialization segment.
pub open spec fn media_playlist(
    segments: Seq<SegmentInfo>,
    init: Seq<char>,
    name: spec_fn(usize) -> Seq<char>,
) -> Seq<char> {
    opening(segments, init) + entries(segments, name) + "#EXT-X-ENDLIST\n"@
}

fn push_entry(out: &mut String, duration_us: u64, name: &str)
    ensures
        final(out)@ == old(out)@ + entry(duration_us, name@),
{
    out.push_str("#EXTINF:");
    push_seconds3(out, duration_us);
    out.push_str(",\n");
    out.push_str(name);
    out.push_str("\n");
    assert(out@ =~= old(out)@ + entry(duration_us, name@));
}

fn open_playlist(segments: &[SegmentInfo], init: &str) -> (out: String)
    ensures
        out@ == opening(segments@, init@),
{
    let mut out: String = String::new();
    push_header(&mut out, calculate_target_duration(segments));
    out.push_str("#EXT-X-INDEPENDENT-SEGMENTS\n#EXT-X-MAP:URI=\"");
    out.push_str(init);
    out.push_str("\"\n\n");
    assert(out@ =~= opening(segments@, init@));
    out
}

/// The name of a video segment without interleaved audio.
pub open spec fn video_segment_name(track: usize, segment: Option<usize>) -> Seq<char> {
    video_text(
        VideoSegmentView {
            track_id: track as nat,
            audio_track_id: None,
            audio_transcode_to: None,
            segment_id: opt_nat(segment),
        },
    )
}

/// The name of a video segment with interleaved audio.
pub open spec fn interleaved_segment_name(
    video: usize,
    audio: usize,
    codec: Option<Seq<char>>,
    segment: Option<usize>,
) -> Seq<char> {
    video_text(
        VideoSegmentView {
            track_id: video as nat,
            audio_track_id: Some(audio as nat),
            audio_transcode_to: codec,
            segment_id: opt_nat(segment),
        },
    )
}

/// The name of an audio segment.
pub open spec fn audio_segment_name(
    track: usize,
    codec: Option<Seq<char>>,
    segment: Option<usize>,
) -> Seq<char> {
    audio_segment_text(
        AudioSegmentView {
            track_id: track as nat,
            transcode_to: codec,
            segment_id: opt_nat(segment),
        },
    )
}

/// The index of the first video stream; 0 if there is none.
pub open spec fn video_track(index: StreamIndex) -> usize {
    if index.video_streams@.len() > 0 {
        index.video_streams@[0].stream_index
    } else {
        0
    }
}

/// The playlist of the video track: one entry for each segment.
pub fn generate_video_playlist(index: &StreamIndex) -> (out: String)
    ensures
        out@ == media_playlist(
            index.segments@,
            video_segment_name(video_track(*index), None),
            |s: usize| video_segment_name(video_track(*index), Some(s)),
        ),
{
    let track_id: usize = match index.primary_video() {
        Some(v) => v.stream_index,
        None => 0,
    };
    let init: String = VideoSegment {
        track_id,
        audio_track_id: None,
        audio_transcode_to: None,
        segment_id: None,
    }.encode();
    let mut out: String = open_playlist(index.segments.as_slice(), init.as_str());
    let ghost open = out@;
    let ghost name = |s: usize| video_segment_name(track_id, Some(s));
    let segments: &Vec<SegmentInfo> = &index.segments;
    let mut i: usize = 0;
    assert(open + Seq::<char>::empty() =~= open);
    while i < segments.len()
        invariant
            i <= segments@.len(),
            name == (|s: usize| video_segment_name(track_id, Some(s))),
            out@ == open + entries(segments@.take(i as int), name),
        decreases segments.len() - i,
    {
        let segment: String = VideoSegment {
            track_id,
            audio_track_id: None,
            audio_transcode_to: None,
            segment_id: Some(segments[i].sequence),
        }.encode();
        assert(segment@ == name(segments@[i as int].sequence));
        assert(segments@.take(i + 1).drop_last() =~= segments@.take(i as int));
        push_entry(&mut out, segments[i].duration_us, segment.as_str());
        assert(out@ =~= open + entries(segments@.take(i + 1), name));
        i += 1;
    }
    assert(segments@.take(segments@.len() as int) =~= segments@);
    out.push_str("#EXT-X-ENDLIST\n");
    out
}

/// The codec that an audio track is transcoded to, by name: the one that was asked for,
/// or else the one that the track is marked with.
pub open spec fn transcode_name(
    streams: Seq<AudioStreamInfo>,
    track: usize,
    requested: Option<Seq<char>>,
) -> Option<Seq<char>> {
    match requested {
        Some(name) => Some(name),
        None => match audio_index(streams, track) {
            Some(i) => match streams[i].transcode_to {
                Some(id) => short_name(id),
                None => None,
            },
            None => None,
        },
    }
}

/// An optional text as a value.
pub open spec fn opt_str(s: Option<&str>) -> Option<Seq<char>> {
    match s {
        Some(t) => Some(t@),
        None => None,
    }
}

fn find_transcode_name(index: &StreamIndex, track: usize, requested: Option<&str>) -> (name: Option<
    String,
>)
    ensures
        opt_text(name) == transcode_name(index.audio_streams@, track, opt_str(requested)),
{
    if let Some(name) = requested {
        return Some(name.to_owned());
    }
    match index.get_audio_stream(track) {
        Ok(stream) => match stream.transcode_to {
            Some(id) => match codec_name_short(id) {
                Some(name) => Some(name.to_owned()),
                None => None,
            },
            None => None,
        },
        Err(_) => None,
    }
}

/// The playlist of an audio track: one entry for each segment.
pub fn generate_audio_playlist(
    index: &StreamIndex,
    track_index: usize,
    requested_transcode: Option<&str>,
) -> (out: String)
    ensures
        ({
            let codec = transcode_name(
                index.audio_streams@,
                track_index,
                opt_str(requested_transcode),
            );
            out@ == media_playlist(
                index.segments@,
                audio_segment_name(track_index, codec, None),
                |s: usize| audio_segment_name(track_index, codec, Some(s)),
            )
        }),
{
    let transcode_to: Option<String> = find_transcode_name(index, track_index, requested_transcode);
    let ghost codec = opt_text(transcode_to);
    let init: String = AudioSegment {
        track_id: track_index,
        transcode_to: copied(&transcode_to),
        segment_id: None,
    }.encode();
    let mut out: String = open_playlist(index.segments.as_slice(), init.as_str());
    let ghost open = out@;
    let ghost name = |s: usize| audio_segment_name(track_index, codec, Some(s));
    let segments: &Vec<SegmentInfo> = &index.segments;
    let mut i: usize = 0;
    assert(open + Seq::<char>::empty() =~= open);
    while i < segments.len()
        invariant
            i <= segments@.len(),
            codec == opt_text(transcode_to),
            name == (|s: usize| audio_segment_name(track_index, codec, Some(s))),
            out@ == open + entries(segments@.take(i as int), name),
        decreases segments.len() - i,
    {
        let segment: String = AudioSegment {
            track_id: track_index,
            transcode_to: copied(&transcode_to),
            segment_id: Some(segments[i].sequence),
        }.encode();
        assert(segment@ == name(segments@[i as int].sequence));
        assert(segments@.take(i + 1).drop_last() =~= segments@.take(i as int));
        push_entry(&mut out, segments[i].duration_us, segment.as_str());
        assert(out@ =~= open + entries(segments@.take(i + 1), name));
        i += 1;
    }
    assert(segments@.take(segments@.len() as int) =~= segments@);
    out.push_str("#EXT-X-ENDLIST\n");
    out
}

/// The playlist of a video track with interleaved audio: one entry for each segment.
pub fn generate_interleaved_playlist(
    index: &StreamIndex,
    video_idx: usize,
    audio_idx: usize,
    requested_audio_transcode: Option<&str>,
) -> (out: String)
    ensures
        ({
            let codec = transcode_name(
                index.audio_streams@,
                audio_idx,
                opt_str(requested_audio_transcode),
            );
            out@ == media_playlist(
                index.segments@,
                interleaved_segment_name(video_idx, audio_idx, codec, None),
                |s: usize| interleaved_segment_name(video_idx, audio_idx, codec, Some(s)),
            )
        }),
{
    let transcode_to: Option<String> = find_transcode_name(
        index,
        audio_idx,
        requested_audio_transcode,
    );
    let ghost codec = opt_text(transcode_to);
    let init: String = VideoSegment {
        track_id: video_idx,
        audio_track_id: Some(audio_idx),
        audio_transcode_to: copied(&transcode_to),
        segment_id: None,
    }.encode();
    let mut out: String = open_playlist(index.segments.as_slice(), init.as_str());
    let ghost open = out@;
    let ghost name = |s: usize| interleaved_segment_name(video_idx, audio_idx, codec, Some(s));
    let segments: &Vec<SegmentInfo> = &index.segments;
    let mut i: usize = 0;
    assert(open + Seq::<char>::empty() =~= open);
    while i < segments.len()
        invariant
            i <= segments@.len(),
            codec == opt_text(transcode_to),
            name == (|s: usize| interleaved_segment_name(video_idx, audio_idx, codec, Some(s))),
            out@ == open + entries(segments@.take(i as int), name),
        decreases segments.len() - i,
    {
        let segment: String = VideoSegment {
            track_id: video_idx,
            audio_track_id: Some(audio_idx),
            audio_transcode_to: copied(&transcode_to),
            segment_id: Some(segments[i].sequence),
        }.encode();
        assert(segment@ == name(segments@[i as int].sequence));
        assert(segments@.take(i + 1).drop_last() =~= segments@.take(i as int));
        push_entry(&mut out, segments[i].duration_us, segment.as_str());
        assert(out@ =~= open + entries(segments@.take(i + 1), name));
        i += 1;
    }
    assert(segments@.take(segments@.len() as int) =~= segments@);
    out.push_str("#EXT-X-ENDLIST\n");
    out
}

/// Consecutive segments that share one entry of a subtitle playlist.
#[derive(Debug, Clone, Copy, PartialEq, Eq, Structural)]
pub struct Cluster {
    /// The first of the segments.
    pub first: usize,
    /// The last of the segments.
    pub last: usize,
    /// How long they are together, in microseconds.
    pub length_us: u64,
}

/// The longest that segments get by sharing an entry, in microseconds.
pub const CLUSTER_CAP_US: u64 = 30_000_000;

/// Segments shared out over entries so far: the finished entries, and the length and the
/// first segment of the one that is still open.
pub struct Clustering {
    pub done: Seq<Cluster>,
    pub length: nat,
    pub start: Option<usize>,
}

/// Closes the open entry in front of a segment that would take it over the cap.
pub open spec fn make_room(c: Clustering, segment: SegmentInfo) -> Clustering {
    let start = match c.start {
        Some(s) => s,
        None => segment.sequence,
    };
    let before = if segment.sequence == 0 {
        0
    } else {
        (segment.sequence - 1) as usize
    };
    if c.length > 0 && c.length + segment.duration_us > CLUSTER_CAP_US {
        Clustering {
            done: c.done.push(
                Cluster {
                    first: start,
                    last: if before > start {
                        before
                    } else {
                        start
                    },
                    length_us: c.length as u64,
                },
            ),
            length: 0,
            start: Some(segment.sequence),
        }
    } else {
        Clustering { start: Some(start), ..c }
    }
}

/// Puts a segment into the open entry; one in which something is shown closes it.
pub open spec fn with_segment(c: Clustering, segment: SegmentInfo, silent: bool) -> Clustering {
    let room = make_room(c, segment);
    let length = room.length + segment.duration_us as nat;
    if silent {
        Clustering { length, ..room }
    } else {
        Clustering {
            done: room.done.push(
                Cluster {
                    first: room.start->Some_0,
                    last: segment.sequence,
                    length_us: length as u64,
                },
            ),
            length: 0,
            start: None,
        }
    }
}

/// All segments shared out, but for closing the last entry.
pub open spec fn clustering(
    segments: Seq<SegmentInfo>,
    silent: spec_fn(usize) -> bool,
) -> Clustering
    decreases segments.len(),
{
    if segments.len() == 0 {
        Clustering { done: Seq::empty(), length: 0, start: None }
    } else {
        with_segment(
            clustering(segments.drop_last(), silent),
            segments.last(),
            silent(segments.last().sequence),
        )
    }
}

/// The entries over which a timeline is shared out. Segments in which nothing is shown
/// share the entry of what follows, up to the cap.
pub open spec fn clusters(segments: Seq<SegmentInfo>, silent: spec_fn(usize) -> bool) -> Seq<
    Cluster,
> {
    let c = clustering(segments, silent);
    if c.length > 0 {
        c.done.push(
            Cluster {
                first: match c.start {
                    Some(s) => s,
                    None => 0,
                },
                last: if segments.len() > 0 {
                    segments.last().sequence
                } else {
                    0
                },
                length_us: c.length as u64,
            },
        )
    } else {
        c.done
    }
}

/// Nothing of a subtitle track is shown in a segment.
pub open spec fn is_silent(index: StreamIndex, track: usize, sequence: usize) -> bool {
    match subtitle_index(index.subtitle_streams@, track) {
        Some(i) => !index.subtitle_streams@[i].non_empty_sequences@.contains(sequence),
        None => false,
    }
}

/// The longest of the entries, in microseconds.
pub open spec fn longest_cluster(clusters: Seq<Cluster>) -> nat
    decreases clusters.len(),
{
    if clusters.len() == 0 {
        0
    } else {
        let before = longest_cluster(clusters.drop_last());
        let last = clusters.last().length_us as nat;
        if last > before {
            last
        } else {
            before
        }
    }
}

/// The target duration of a subtitle playlist.
pub open spec fn subtitle_target(segments: Seq<SegmentInfo>, clusters: Seq<Cluster>) -> nat {
    if ceil_seconds(longest_cluster(clusters)) > target_duration(segments) {
        ceil_seconds(longest_cluster(clusters))
    } else {
        target_duration(segments)
    }
}

/// The entry of one cluster: its length and its name.
pub open spec fn cluster_entry(track: usize, c: Cluster) -> Seq<char> {
    "#EXTINF:"@ + seconds6(c.length_us as nat) + ",\n"@ + vtt_text(
        VttSegmentView {
            track_id: track as nat,
            start_cue: c.first as nat,
            end_cue: c.last as nat,
        },
    ) + "\n"@
}

/// The entries of all clusters, in order.
pub open spec fn cluster_entries(track: usize, clusters: Seq<Cluster>) -> Seq<char>
    decreases clusters.len(),
{
    if clusters.len() == 0 {
        Seq::empty()
    } else {
        cluster_entries(track, clusters.drop_last()) + cluster_entry(track, clusters.last())
    }
}

/// The playlist of a subtitle track.
pub open spec fn subtitle_playlist(
    segments: Seq<SegmentInfo>,
    track: usize,
    clusters: Seq<Cluster>,
) -> Seq<char> {
    header(subtitle_target(segments, clusters)) + "\n"@ + cluster_entries(track, clusters)
        + "#EXT-X-ENDLIST\n"@
}

fn silent_in(index: &StreamIndex, track: usize, sequence: usize) -> (b: bool)
    ensures
        b == is_silent(*index, track, sequence),
{
    match index.get_subtitle_stream(track) {
        Ok(stream) => !is_in(&stream.non_empty_sequences, sequence),
        Err(_) => false,
    }
}

fn make_clusters(index: &StreamIndex, track: usize) -> (done: Vec<Cluster>)
    ensures
        done@ == clusters(index.segments@, |s: usize| is_silent(*index, track, s)),
{
    let segments: &Vec<SegmentInfo> = &index.segments;
    let ghost silent = |s: usize| is_silent(*index, track, s);
    let mut done: Vec<Cluster> = Vec::new();
    let mut length: u64 = 0;
    let mut start: Option<usize> = None;
    let mut i: usize = 0;
    while i < segments.len()
        invariant
            i <= segments@.len(),
            segments@ == index.segments@,
            silent == (|s: usize| is_silent(*index, track, s)),
            clustering(segments@.take(i as int), silent) == (Clustering {
                done: done@,
                length: length as nat,
                start,
            }),
        decreases segments.len() - i,
    {
        let segment: SegmentInfo = segments[i];
        proof {
            let next = segments@.take(i + 1);
            assert(next.drop_last() =~= segments@.take(i as int));
            assert(next.last() == segment);
        }
        let mut first: usize = match start {
            Some(s) => s,
            None => segment.sequence,
        };
        if length > 0 && (segment.duration_us > CLUSTER_CAP_US || length > CLUSTER_CAP_US
            - segment.duration_us) {
            let before: usize = if segment.sequence == 0 {
                0
            } else {
                segment.sequence - 1
            };
            let last: usize = if before > first {
                before
            } else {
                first
            };
            done.push(Cluster { first, last, length_us: length });
            length = 0;
            first = segment.sequence;
        }
        length = length + segment.duration_us;
        if silent_in(index, track, segment.sequence) {
            start = Some(first);
        } else {
            done.push(Cluster { first, last: segment.sequence, length_us: length });
            length = 0;
            start = None;
        }
        i += 1;
    }
    assert(segments@.take(segments@.len() as int) =~= segments@);
    if length > 0 {
        let first: usize = match start {
            Some(s) => s,
            None => 0,
        };
        let last: usize = if segments.len() > 0 {
            segments[segments.len() - 1].sequence
        } else {
            0
        };
        done.push(Cluster { first, last, length_us: length });
    }
    done
}

/// The playlist of a subtitle track: one entry for each segment in which something is
/// shown, together with the segments in front of it in which nothing is, up to the cap.
#[verifier::rlimit(30)]
pub fn generate_subtitle_playlist(index: &StreamIndex, track_index: usize) -> (out: String)
    ensures
        out@ == subtitle_playlist(
            index.segments@,
            track_index,
            clusters(index.segments@, |s: usize| is_silent(*index, track_index, s)),
        ),
{
    let list: Vec<Cluster> = make_clusters(index, track_index);
    let mut max: u64 = 0;
    let mut i: usize = 0;
    while i < list.len()
        invariant
            i <= list@.len(),
            max == longest_cluster(list@.take(i as int)),
        decreases list.len() - i,
    {
        assert(list@.take(i + 1).drop_last() =~= list@.take(i as int));
        if list[i].length_us > max {
            max = list[i].length_us;
        }
        i += 1;
    }
    assert(list@.take(list@.len() as int) =~= list@);
    let longest: u32 = to_ceil_seconds(max);
    let standard: u32 = calculate_target_duration(index.segments.as_slice());
    let target: u32 = if longest > standard {
        longest
    } else {
        standard
    };
    let mut out: String = String::new();
    push_header(&mut out, target);
    out.push_str("\n");
    let ghost open = out@;
    assert(open + Seq::<char>::empty() =~= open);
    let mut i: usize = 0;
    while i < list.len()
        invariant
            i <= list@.len(),
            out@ == open + cluster_entries(track_index, list@.take(i as int)),
        decreases list.len() - i,
    {
        let c: Cluster = list[i];
        assert(list@.take(i + 1).drop_last() =~= list@.take(i as int));
        let name: String = VttSegment {
            track_id: track_index,
            start_cue: c.first,
            end_cue: c.last,
        }.encode();
        out.push_str("#EXTINF:");
        push_seconds6(&mut out, c.length_us);
        out.push_str(",\n");
        out.push_str(name.as_str());
        out.push_str("\n");
        assert(out@ =~= open + cluster_entries(track_index, list@.take(i + 1)));
        i += 1;
    }
    assert(list@.take(list@.len() as int) =~= list@);
    out.push_str("#EXT-X-ENDLIST\n");
    assert(open =~= header(target as nat) + "\n"@);
    out
}

} // verus!
