//! What is made for a stream URL: where a playlist leads to, which segment is made of which
//! tracks, and when there is none.

use vstd::prelude::*;
use crate::cache::SegmentCache;
use crate::error::{HlsError, Result};
use crate::hlsvideo::{
    all_tracks, is_audio_job, is_cacheable, is_started, is_subtitle_job, is_video_job,
    track_playlist, PlaylistOrSegment, SegmentJob, Step,
};
use crate::media::{audio_index, segment_index, subtitle_index, Id, StreamIndex};
use crate::params::{
    mime_type_of, moved, opt_text, AudioSegment, Playlist, UrlType, VideoSegment, VttSegment,
};
use crate::playlist::track_text_laws::{are_track_lines, law_track_playlist_lines};
use crate::playlist::variant::{
    audio_segment_name, interleaved_segment_name, media_playlist, transcode_name,
    video_segment_name,
};
use crate::search::lemma_first_index_holds;
use crate::segment::generator::wants_aac;
use crate::segment::packets::MediaKind;
use crate::text::lined;
use crate::url_grammar::{item_name, AudioSegmentView, UrlTypeView, VideoSegmentView};
use crate::url_laws::{codec_is_lower, law_item_name_reads_back};

verus! {

/// Segment `sequence` of a media file is segment `i` of its list, the first one with that number.
pub open spec fn is_numbered(index: StreamIndex, sequence: usize, i: int) -> bool {
    &&& 0 <= i < index.segments@.len()
    &&& index.segments@[i].sequence == sequence
    &&& forall|j: int| 0 <= j < i ==> (#[trigger] index.segments@[j]).sequence != sequence
}

/// No segment of a media file has a number.
pub open spec fn is_past(index: StreamIndex, sequence: usize) -> bool {
    forall|j: int|
        0 <= j < index.segments@.len() ==> (#[trigger] index.segments@[j]).sequence != sequence
}

/// Audio stream `i` is the first one with an index.
pub open spec fn is_audio_at(index: StreamIndex, track: usize, i: int) -> bool {
    &&& 0 <= i < index.audio_streams@.len()
    &&& index.audio_streams@[i].stream_index == track
    &&& forall|j: int| 0 <= j < i ==> (#[trigger] index.audio_streams@[j]).stream_index != track
}

/// No audio stream has an index.
pub open spec fn is_no_audio(index: StreamIndex, track: usize) -> bool {
    forall|j: int|
        0 <= j < index.audio_streams@.len() ==> (#[trigger] index.audio_streams@[j]).stream_index
            != track
}

/// Segments are looked up by number: the first one with the number, or none if there is none.
proof fn lemma_segment(index: StreamIndex, sequence: usize)
    ensures
        segment_index(index.segments@, sequence) matches Some(i) ==> is_numbered(
            index,
            sequence,
            i,
        ),
        segment_index(index.segments@, sequence) is None ==> is_past(index, sequence),
{
    let p = |i: int| index.segments@[i].sequence == sequence;
    lemma_first_index_holds(index.segments@.len() as int, p);
    assert(forall|j: int| #[trigger] p(j) == (index.segments@[j].sequence == sequence));
    assert forall|j: int| 0 <= j < index.segments@.len() && !p(j) implies (
    #[trigger] index.segments@[j]).sequence != sequence by {
        assert(!p(j));
    }
}

proof fn lemma_audio(index: StreamIndex, track: usize)
    ensures
        audio_index(index.audio_streams@, track) matches Some(i) ==> is_audio_at(
            index,
            track,
            i,
        ),
        audio_index(index.audio_streams@, track) is None ==> is_no_audio(index, track),
{
    let p = |i: int| index.audio_streams@[i].stream_index == track;
    lemma_first_index_holds(index.audio_streams@.len() as int, p);
    assert forall|j: int| 0 <= j < index.audio_streams@.len() && !p(j) implies (
    #[trigger] index.audio_streams@[j]).stream_index != track by {
        assert(!p(j));
    }
}

/// Audio is transcoded to AAC if the URL asks for `aac`, or if the stream is set to be: not if
/// the stream is unknown and the URL asks for nothing, or for something else.
pub proof fn law_when_aac_is_wanted(
    index: StreamIndex,
    track: usize,
    requested: Option<Seq<char>>,
    i: int,
)
    ensures
        requested == Some("aac"@) ==> wants_aac(requested, index.audio_streams@, track),
        requested != Some("aac"@) && is_audio_at(index, track, i) ==> wants_aac(
            requested,
            index.audio_streams@,
            track,
        ) == (index.audio_streams@[i].transcode_to == Some(Id::AAC)),
        requested != Some("aac"@) && is_no_audio(index, track) ==> !wants_aac(
            requested,
            index.audio_streams@,
            track,
        ),
{
    lemma_audio(index, track);
    if is_audio_at(index, track, i) {
        if let Some(k) = audio_index(index.audio_streams@, track) {
            assert(k == i) by {
                if k < i {
                    assert(index.audio_streams@[k].stream_index != track);
                } else if i < k {
                    assert(index.audio_streams@[i].stream_index != track);
                }
            }
        } else {
            assert(index.audio_streams@[i].stream_index != track);
        }
    }
}

/// The codec in the names of a track's segments is the one that was asked for; if none was, that
/// which the stream is set to be transcoded to.
pub proof fn law_codec_of_names(
    index: StreamIndex,
    track: usize,
    requested: Option<Seq<char>>,
    i: int,
)
    ensures
        requested is Some ==> transcode_name(index.audio_streams@, track, requested) == requested,
        requested is None && is_no_audio(index, track) ==> transcode_name(
            index.audio_streams@,
            track,
            requested,
        ) is None,
        requested is None && is_audio_at(index, track, i) && index.audio_streams@[i].transcode_to
            is None ==> transcode_name(index.audio_streams@, track, requested) is None,
        requested is None && is_audio_at(index, track, i) && index.audio_streams@[i].transcode_to
            == Some(Id::AAC) ==> transcode_name(index.audio_streams@, track, requested) == Some(
            "aac"@,
        ),
{
    lemma_audio(index, track);
    if is_audio_at(index, track, i) {
        if let Some(k) = audio_index(index.audio_streams@, track) {
            assert(k == i) by {
                if k < i {
                    assert(index.audio_streams@[k].stream_index != track);
                } else if i < k {
                    assert(index.audio_streams@[i].stream_index != track);
                }
            }
        } else {
            assert(index.audio_streams@[i].stream_index != track);
        }
    }
}

/// For a video segment, the segment with that number is made, of the video track and the audio
/// track that the URL names; without a number, the initialization segment of these. An unknown
/// number is an error.
pub proof fn law_video_segment_is_made(r: Result<Step>, index: StreamIndex, v: VideoSegment)
    requires
        is_video_job(r, index, v),
    ensures
        r matches Ok(step) ==> step is Make && !(step->Make_0 is Subtitles),
        r matches Ok(Step::Make(SegmentJob::Media { segment, job })) ==> {
            &&& v.segment_id == Some(segment.sequence)
            &&& exists|i: int| #[trigger]
                is_numbered(index, segment.sequence, i) && segment == index.segments@[i]
            &&& job.video_track == Some(v.track_id)
            &&& job.audio_track == v.audio_track_id
            &&& job.kind == (if v.audio_track_id is Some {
                MediaKind::Av
            } else {
                MediaKind::Video
            })
            &&& job.transcode == (v.audio_track_id matches Some(audio) && wants_aac(
                opt_text(v.audio_transcode_to),
                index.audio_streams@,
                audio,
            ))
        },
        r matches Ok(Step::Make(SegmentJob::Init { video_idx, audio_idx, transcode })) ==> {
            &&& v.segment_id is None
            &&& audio_idx == v.audio_track_id
            &&& audio_idx is Some ==> video_idx == Some(v.track_id)
            &&& audio_idx is None ==> video_idx == Some(index.video_streams@[0].stream_index)
            &&& transcode == (v.audio_track_id matches Some(audio) && wants_aac(
                opt_text(v.audio_transcode_to),
                index.audio_streams@,
                audio,
            ))
        },
        v.segment_id matches Some(seq) ==> (r matches Err(HlsError::SegmentNotFound { .. }))
            == is_past(index, seq),
        v.segment_id matches Some(seq) && !is_past(index, seq) && index.video_streams@.len() > 0
            && index.audio_streams@.len() > 0 ==> r is Ok,
        v.segment_id is None && index.video_streams@.len() > 0 ==> r is Ok,
        r matches Err(HlsError::SegmentNotFound { sequence, .. }) ==> v.segment_id == Some(
            sequence,
        ),
{
    if let Some(seq) = v.segment_id {
        lemma_segment(index, seq);
        if let Some(i) = segment_index(index.segments@, seq) {
            assert(is_numbered(index, seq, i));
            let s = index.segments@[i];
            assert(s.sequence == seq);
            assert(is_numbered(index, s.sequence, i) && s == index.segments@[i]);
            if let Ok(Step::Make(SegmentJob::Media { segment, job })) = r {
                assert(segment == s);
                assert(v.segment_id == Some(segment.sequence));
                assert(job.video_track == Some(v.track_id));
                assert(job.audio_track == v.audio_track_id);
                assert(v.audio_track_id is Some ==> job.kind == MediaKind::Av);
                assert(v.audio_track_id is None ==> job.kind == MediaKind::Video);
                assert(v.audio_track_id is None ==> !job.transcode);
            }
        }
    }
}

/// For an audio segment, the segment with that number is made of the audio track that the URL
/// names; without a number, its initialization segment. An unknown number or track is an error.
pub proof fn law_audio_segment_is_made(r: Result<Step>, index: StreamIndex, a: AudioSegment)
    requires
        is_audio_job(r, index, a),
    ensures
        r matches Ok(step) ==> step is Make && !(step->Make_0 is Subtitles),
        r matches Ok(Step::Make(SegmentJob::Media { segment, job })) ==> {
            &&& a.segment_id == Some(segment.sequence)
            &&& exists|i: int| #[trigger]
                is_numbered(index, segment.sequence, i) && segment == index.segments@[i]
            &&& job.video_track is None
            &&& job.audio_track == Some(a.track_id)
            &&& job.kind == MediaKind::Audio
            &&& job.transcode == wants_aac(
                opt_text(a.transcode_to),
                index.audio_streams@,
                a.track_id,
            )
        },
        r matches Ok(Step::Make(SegmentJob::Init { video_idx, audio_idx, transcode })) ==> {
            &&& a.segment_id is None
            &&& video_idx is None
            &&& audio_idx == Some(a.track_id)
            &&& transcode == wants_aac(opt_text(a.transcode_to), index.audio_streams@, a.track_id)
        },
        r is Ok == (!is_no_audio(index, a.track_id) && (a.segment_id matches Some(seq) ==> !is_past(
            index,
            seq,
        ))),
        a.segment_id matches Some(seq) ==> (r matches Err(HlsError::SegmentNotFound { .. }))
            == is_past(index, seq),
{
    lemma_audio(index, a.track_id);
    if let Some(i) = audio_index(index.audio_streams@, a.track_id) {
        assert(index.audio_streams@[i].stream_index == a.track_id);
    }
    if let Some(seq) = a.segment_id {
        lemma_segment(index, seq);
        if let Some(i) = segment_index(index.segments@, seq) {
            assert(is_numbered(index, seq, i));
            assert(index.segments@[i].sequence == seq);
        }
    }
}

/// A subtitle segment is made for a track of text from the first segment that the URL names to
/// the last; an unknown segment is an error, and so is a track of pictures.
pub proof fn law_subtitle_segment_is_made(r: Result<Step>, index: StreamIndex, v: VttSegment)
    requires
        is_subtitle_job(r, index, v),
    ensures
        r matches Ok(step) ==> (step matches Step::Make(SegmentJob::Subtitles(w)) && w.track
            == v.track_id),
        (r matches Err(HlsError::SegmentNotFound { .. })) == (is_past(index, v.start_cue)
            || is_past(index, v.end_cue)),
        r is Ok ==> exists|i: int|
            0 <= i < index.subtitle_streams@.len() && (
            #[trigger] index.subtitle_streams@[i]).stream_index == v.track_id && !(
            index.subtitle_streams@[i].codec_id == Id::DVD_SUBTITLE
                || index.subtitle_streams@[i].codec_id == Id::DVB_SUBTITLE
                || index.subtitle_streams@[i].codec_id == Id::HDMV_PGS_SUBTITLE
                || index.subtitle_streams@[i].codec_id == Id::XSUB),
{
    lemma_segment(index, v.start_cue);
    lemma_segment(index, v.end_cue);
    if let Some(i) = segment_index(index.segments@, v.start_cue) {
        assert(index.segments@[i].sequence == v.start_cue);
    }
    if let Some(i) = segment_index(index.segments@, v.end_cue) {
        assert(index.segments@[i].sequence == v.end_cue);
    }
    let p = |i: int| index.subtitle_streams@[i].stream_index == v.track_id;
    lemma_first_index_holds(index.subtitle_streams@.len() as int, p);
    if let Some(i) = subtitle_index(index.subtitle_streams@, v.track_id) {
        assert(p(i));
        assert(index.subtitle_streams@[i].stream_index == v.track_id);
    }
}

/// Only segments are kept; playlists and initialization segments are made anew.
pub proof fn law_what_is_kept(url_type: UrlType)
    ensures
        is_cacheable(url_type) == (url_type is VttSegment || (url_type matches
            UrlType::VideoSegment(v) && v.segment_id is Some) || (url_type matches
            UrlType::AudioSegment(a) && a.segment_id is Some)),
{
}

/// Playlists are sent as such, subtitles as WebVTT, initialization segments as MP4 video, and
/// segments by what they hold.
pub proof fn law_mime_types(url_type: UrlTypeView)
    ensures
        url_type is MainPlaylist || url_type is Playlist ==> mime_type_of(url_type)
            == "application/vnd.apple.mpegurl"@,
        url_type is VttSegment ==> mime_type_of(url_type) == "text/vtt"@,
        (url_type matches UrlTypeView::VideoSegment(v) && v.segment_id is None) || (
        url_type matches UrlTypeView::AudioSegment(a) && a.segment_id is None) ==> mime_type_of(
            url_type,
        ) == "video/mp4"@,
        (url_type matches UrlTypeView::VideoSegment(v) && v.segment_id is Some) ==> mime_type_of(
            url_type,
        ) == "video/iso.segment"@,
        (url_type matches UrlTypeView::AudioSegment(a) && a.segment_id is Some) ==> mime_type_of(
            url_type,
        ) == "audio/mp4"@,
{
}

/// The segment `offset` behind one is the one of the same tracks whose number is larger by that
/// much. Nothing but a video or audio segment has one.
pub proof fn law_next_segment(url_type: UrlTypeView, offset: nat)
    ensures
        match moved(url_type, offset) {
            Some(UrlTypeView::VideoSegment(n)) => (url_type matches UrlTypeView::VideoSegment(v)
                && v.segment_id is Some && n.segment_id == Some(v.segment_id->Some_0 + offset)
                && n.track_id == v.track_id && n.audio_track_id == v.audio_track_id
                && n.audio_transcode_to == v.audio_transcode_to),
            Some(UrlTypeView::AudioSegment(n)) => (url_type matches UrlTypeView::AudioSegment(a)
                && a.segment_id is Some && n.segment_id == Some(a.segment_id->Some_0 + offset)
                && n.track_id == a.track_id && n.transcode_to == a.transcode_to),
            Some(_) => false,
            None => !(url_type matches UrlTypeView::VideoSegment(v) && v.segment_id is Some) && !(
            url_type matches UrlTypeView::AudioSegment(a) && a.segment_id is Some),
        },
{
}

/// All tracks are those of any kind.
pub proof fn law_all_tracks(index: StreamIndex)
    ensures
        forall|i: int|
            0 <= i < index.video_streams@.len() ==> all_tracks(index).contains(
                (#[trigger] index.video_streams@[i]).stream_index,
            ),
        forall|i: int|
            0 <= i < index.audio_streams@.len() ==> all_tracks(index).contains(
                (#[trigger] index.audio_streams@[i]).stream_index,
            ),
        forall|i: int|
            0 <= i < index.subtitle_streams@.len() ==> all_tracks(index).contains(
                (#[trigger] index.subtitle_streams@[i]).stream_index,
            ),
{
}

/// The playlist of a video track with an audio track lists, segment by segment, names that read
/// back as the segments of these two tracks, behind that of their initialization segment.
pub proof fn law_interleaved_playlist_leads(index: StreamIndex, p: Playlist, audio: usize) -> (
    lines: Seq<Seq<char>>)
    requires
        p.audio_track_id == Some(audio),
        codec_is_lower(
            transcode_name(index.audio_streams@, audio, opt_text(p.audio_transcode_to)),
        ),
    ensures
        track_playlist(index, p) == lined(lines),
        lines.len() == 9 + 2 * index.segments@.len(),
        exists|init: Seq<char>|
            lines[6] == "#EXT-X-MAP:URI=\""@ + init + "\""@ && #[trigger] item_name(init) == Some(
                UrlTypeView::VideoSegment(
                    VideoSegmentView {
                        track_id: p.track_id as nat,
                        audio_track_id: Some(audio as nat),
                        audio_transcode_to: transcode_name(
                            index.audio_streams@,
                            audio,
                            opt_text(p.audio_transcode_to),
                        ),
                        segment_id: None,
                    },
                ),
            ),
        forall|i: int|
            0 <= i < index.segments@.len() ==> item_name(lines[9 + 2 * i]) == Some(
                UrlTypeView::VideoSegment(
                    VideoSegmentView {
                        track_id: p.track_id as nat,
                        audio_track_id: Some(audio as nat),
                        audio_transcode_to: transcode_name(
                            index.audio_streams@,
                            audio,
                            opt_text(p.audio_transcode_to),
                        ),
                        segment_id: Some((#[trigger] index.segments@[i]).sequence as nat),
                    },
                ),
            ),
{
    let codec = transcode_name(index.audio_streams@, audio, opt_text(p.audio_transcode_to));
    let init = interleaved_segment_name(p.track_id, audio, codec, None);
    let name = |s: usize| interleaved_segment_name(p.track_id, audio, codec, Some(s));
    law_track_playlist_lines(index.segments@, init, name);
    let lines = choose|lines: Seq<Seq<char>>|
        media_playlist(index.segments@, init, name) == lined(lines)
            && #[trigger] are_track_lines(lines, index.segments@, init, name);
    let of = |segment: Option<nat>|
        UrlTypeView::VideoSegment(
            VideoSegmentView {
                track_id: p.track_id as nat,
                audio_track_id: Some(audio as nat),
                audio_transcode_to: codec,
                segment_id: segment,
            },
        );
    law_item_name_reads_back(of(None));
    assert(item_name(init) == Some(of(None)));
    assert forall|i: int| 0 <= i < index.segments@.len() implies item_name(lines[9 + 2 * i])
        == Some(of(Some((#[trigger] index.segments@[i]).sequence as nat))) by {
        law_item_name_reads_back(of(Some(index.segments@[i].sequence as nat)));
        assert(lines[9 + 2 * i] == name(index.segments@[i].sequence));
    }
    lines
}

/// The playlist of an audio track lists, segment by segment, names that read back as the segments
/// of that track, behind that of its initialization segment.
pub proof fn law_audio_playlist_leads(index: StreamIndex, p: Playlist) -> (lines: Seq<Seq<char>>)
    requires
        p.audio_track_id is None,
        !is_no_audio(index, p.track_id),
        codec_is_lower(
            transcode_name(index.audio_streams@, p.track_id, opt_text(p.audio_transcode_to)),
        ),
    ensures
        track_playlist(index, p) == lined(lines),
        lines.len() == 9 + 2 * index.segments@.len(),
        exists|init: Seq<char>|
            lines[6] == "#EXT-X-MAP:URI=\""@ + init + "\""@ && #[trigger] item_name(init) == Some(
                UrlTypeView::AudioSegment(
                    AudioSegmentView {
                        track_id: p.track_id as nat,
                        transcode_to: transcode_name(
                            index.audio_streams@,
                            p.track_id,
                            opt_text(p.audio_transcode_to),
                        ),
                        segment_id: None,
                    },
                ),
            ),
        forall|i: int|
            0 <= i < index.segments@.len() ==> item_name(lines[9 + 2 * i]) == Some(
                UrlTypeView::AudioSegment(
                    AudioSegmentView {
                        track_id: p.track_id as nat,
                        transcode_to: transcode_name(
                            index.audio_streams@,
                            p.track_id,
                            opt_text(p.audio_transcode_to),
                        ),
                        segment_id: Some((#[trigger] index.segments@[i]).sequence as nat),
                    },
                ),
            ),
{
    let codec = transcode_name(index.audio_streams@, p.track_id, opt_text(p.audio_transcode_to));
    let init = audio_segment_name(p.track_id, codec, None);
    let name = |s: usize| audio_segment_name(p.track_id, codec, Some(s));
    law_track_playlist_lines(index.segments@, init, name);
    let lines = choose|lines: Seq<Seq<char>>|
        media_playlist(index.segments@, init, name) == lined(lines)
            && #[trigger] are_track_lines(lines, index.segments@, init, name);
    let of = |segment: Option<nat>|
        UrlTypeView::AudioSegment(
            AudioSegmentView {
                track_id: p.track_id as nat,
                transcode_to: codec,
                segment_id: segment,
            },
        );
    law_item_name_reads_back(of(None));
    assert(item_name(init) == Some(of(None)));
    assert forall|i: int| 0 <= i < index.segments@.len() implies item_name(lines[9 + 2 * i])
        == Some(of(Some((#[trigger] index.segments@[i]).sequence as nat))) by {
        law_item_name_reads_back(of(Some(index.segments@[i].sequence as nat)));
        assert(lines[9 + 2 * i] == name(index.segments@[i].sequence));
    }
    lines
}

/// The playlist of a track that is neither audio nor subtitles lists, segment by segment, names
/// that read back as the segments of the first video track, behind that of its initialization
/// segment.
pub proof fn law_video_playlist_leads(index: StreamIndex, p: Playlist) -> (lines: Seq<Seq<char>>)
    requires
        p.audio_track_id is None,
        is_no_audio(index, p.track_id),
        forall|j: int|
            0 <= j < index.subtitle_streams@.len() ==> (
            #[trigger] index.subtitle_streams@[j]).stream_index != p.track_id,
        index.video_streams@.len() > 0,
    ensures
        track_playlist(index, p) == lined(lines),
        lines.len() == 9 + 2 * index.segments@.len(),
        exists|init: Seq<char>|
            lines[6] == "#EXT-X-MAP:URI=\""@ + init + "\""@ && #[trigger] item_name(init) == Some(
                UrlTypeView::VideoSegment(
                    VideoSegmentView {
                        track_id: index.video_streams@[0].stream_index as nat,
                        audio_track_id: None,
                        audio_transcode_to: None,
                        segment_id: None,
                    },
                ),
            ),
        forall|i: int|
            0 <= i < index.segments@.len() ==> item_name(lines[9 + 2 * i]) == Some(
                UrlTypeView::VideoSegment(
                    VideoSegmentView {
                        track_id: index.video_streams@[0].stream_index as nat,
                        audio_track_id: None,
                        audio_transcode_to: None,
                        segment_id: Some((#[trigger] index.segments@[i]).sequence as nat),
                    },
                ),
            ),
{
    let track = index.video_streams@[0].stream_index;
    let init = video_segment_name(track, None);
    let name = |s: usize| video_segment_name(track, Some(s));
    law_track_playlist_lines(index.segments@, init, name);
    let lines = choose|lines: Seq<Seq<char>>|
        media_playlist(index.segments@, init, name) == lined(lines)
            && #[trigger] are_track_lines(lines, index.segments@, init, name);
    let of = |segment: Option<nat>|
        UrlTypeView::VideoSegment(
            VideoSegmentView {
                track_id: track as nat,
                audio_track_id: None,
                audio_transcode_to: None,
                segment_id: segment,
            },
        );
    law_item_name_reads_back(of(None));
    assert(item_name(init) == Some(of(None)));
    assert forall|i: int| 0 <= i < index.segments@.len() implies item_name(lines[9 + 2 * i])
        == Some(of(Some((#[trigger] index.segments@[i]).sequence as nat))) by {
        law_item_name_reads_back(of(Some(index.segments@[i].sequence as nat)));
        assert(lines[9 + 2 * i] == name(index.segments@[i].sequence));
    }
    assert(track_playlist(index, p) == media_playlist(
        index.segments@,
        init,
        name,
    ));
    lines
}

/// What is kept in the cache is handed out as it is kept, and asking for it changes no other entry;
/// what is not kept changes nothing in the cache.
pub proof fn law_kept_segment_is_handed_out(
    p: PlaylistOrSegment,
    before: SegmentCache,
    after: Option<SegmentCache>,
    now: u64,
    r: Result<Step>,
    key: Seq<char>,
)
    requires
        is_started(p, Some(before), after, now, r),
    ensures
        after is Some,
        before@.entries.dom().contains(p.key()) ==> (r matches Ok(Step::Done(data)) && data@
            == before@.entries[p.key()].data),
        after->Some_0@.entries.dom() == before@.entries.dom(),
        before@.entries.dom().contains(key) ==> after->Some_0@.entries[key].data
            == before@.entries[key].data && after->Some_0@.entries[key].created_at
            == before@.entries[key].created_at,
        before@.entries.dom().contains(key) && key != p.key() ==> after->Some_0@.entries[key]
            == before@.entries[key],
        before@.entries.dom().contains(p.key()) ==> after->Some_0@.entries[p.key()].last_accessed
            == now,
        after->Some_0@.memory == before@.memory,
        after->Some_0@.config == before@.config,
{
    assert(after->Some_0@.entries.dom() =~= before@.entries.dom());
}

} // verus!
