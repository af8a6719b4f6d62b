//! From a stream URL to a playlist or a segment.

use std::collections::{HashMap, HashSet};
use std::sync::Arc;
use vstd::prelude::*;
use vstd::string::StrSliceExecFns;
use vstd::utf8::encode_utf8;
use crate::cache::{cache_key, inserted, touched, CacheView, SegmentCache};
use crate::error::{HlsError, Result};
use crate::media::{
    audio_index, not_found_text, segment_index, subtitle_index, SegmentInfo, StreamIndex,
};
use crate::params::{
    mime_type_of, opt_text, AudioSegment, HlsParams, Playlist, UrlType, VideoSegment, VttSegment,
};
use crate::playlist::master::{
    audio_views, enabled_subtitles, enabled_video, generate_master_playlist, main_playlist,
    selected_audio, Place,
};
use crate::playlist::variant::{
    audio_segment_name, clusters, generate_audio_playlist, generate_interleaved_playlist,
    generate_subtitle_playlist, generate_video_playlist, interleaved_segment_name, is_silent,
    media_playlist, opt_str, subtitle_playlist, transcode_name, video_segment_name, video_track,
};
use crate::segment::generator::{
    both_needed_text, plan_audio_segment, plan_interleaved_segment, plan_video_segment, wants_aac,
    MediaJob,
};
use crate::segment::init::{
    generate_audio_init_segment, generate_interleaved_init_segment, generate_video_init_segment,
};
use crate::segment::packets::MediaKind;
use crate::segment::subtitles::{
    bitmap_name, bitmap_text, is_window, plan_subtitle_segment, SubtitleWindow,
};
use crate::shared_bytes::{share, unshare};
use crate::url_grammar::encoded;

verus! {

broadcast use vstd::std_specs::hash::group_hash_axioms;

/// The main playlist of a media file, with what may be set before it is made.
pub struct MainPlaylist {
    pub hls_params: HlsParams,
    pub index: Arc<StreamIndex>,
    /// The tracks that are enabled.
    pub tracks: HashSet<usize>,
    /// The codecs that the player plays; none stands for all.
    pub codecs: Vec<String>,
    /// The codecs that audio tracks are transcoded to.
    pub transcode: HashMap<usize, String>,
    /// Whether the audio goes with the video.
    pub interleave: bool,
}

/// One of the first `n` audio streams has an index.
pub open spec fn has_audio(index: StreamIndex, n: int, t: usize) -> bool {
    exists|i: int| 0 <= i < n && (#[trigger] index.audio_streams@[i]).stream_index == t
}

/// One of the first `n` video streams has an index.
pub open spec fn has_video(index: StreamIndex, n: int, t: usize) -> bool {
    exists|i: int| 0 <= i < n && (#[trigger] index.video_streams@[i]).stream_index == t
}

/// One of the first `n` subtitle streams has an index.
pub open spec fn has_subtitles(index: StreamIndex, n: int, t: usize) -> bool {
    exists|i: int| 0 <= i < n && (#[trigger] index.subtitle_streams@[i]).stream_index == t
}

/// The indices of all streams of a file.
pub open spec fn all_tracks(index: StreamIndex) -> Set<usize> {
    Set::new(
        |t: usize|
            has_audio(index, index.audio_streams@.len() as int, t) || has_video(
                index,
                index.video_streams@.len() as int,
                t,
            ) || has_subtitles(index, index.subtitle_streams@.len() as int, t),
    )
}

proof fn lemma_one_more(index: StreamIndex, n: int, t: usize)
    requires
        0 <= n,
    ensures
        n < index.audio_streams@.len() ==> (has_audio(index, n + 1, t) == (has_audio(index, n, t)
            || index.audio_streams@[n].stream_index == t)),
        n < index.video_streams@.len() ==> (has_video(index, n + 1, t) == (has_video(index, n, t)
            || index.video_streams@[n].stream_index == t)),
        n < index.subtitle_streams@.len() ==> (has_subtitles(index, n + 1, t) == (has_subtitles(
            index,
            n,
            t,
        ) || index.subtitle_streams@[n].stream_index == t)),
{
}

fn to_bytes(text: &String) -> (bytes: Vec<u8>)
    ensures
        bytes@ == encode_utf8(text@),
{
    text.as_str().as_bytes_vec()
}

fn collect_tracks(index: &StreamIndex) -> (tracks: HashSet<usize>)
    ensures
        tracks@ == all_tracks(*index),
{
    let mut tracks: HashSet<usize> = HashSet::new();
    let mut i: usize = 0;
    while i < index.audio_streams.len()
        invariant
            i <= index.audio_streams@.len(),
            forall|t: usize| #[trigger]
                tracks@.contains(t) == (has_audio(*index, i as int, t)),
        decreases index.audio_streams.len() - i,
    {
        let ghost before = tracks@;
        tracks.insert(index.audio_streams[i].stream_index);
        assert forall|t: usize| #[trigger] tracks@.contains(t) == (has_audio(
            *index,
            i + 1,
            t,
        )) by {
            lemma_one_more(*index, i as int, t);
            assert(before.contains(t) == (has_audio(*index, i as int, t)));
        }
        i += 1;
    }
    let ghost audio = tracks@;
    let mut i: usize = 0;
    while i < index.video_streams.len()
        invariant
            i <= index.video_streams@.len(),
            forall|t: usize| #[trigger]
                tracks@.contains(t) == (audio.contains(t) || has_video(*index, i as int, t)),
        decreases index.video_streams.len() - i,
    {
        let ghost before = tracks@;
        tracks.insert(index.video_streams[i].stream_index);
        assert forall|t: usize| #[trigger] tracks@.contains(t) == (audio.contains(t) || has_video(
            *index,
            i + 1,
            t,
        )) by {
            lemma_one_more(*index, i as int, t);
            assert(before.contains(t) == (audio.contains(t) || has_video(*index, i as int, t)));
        }
        i += 1;
    }
    let ghost both = tracks@;
    let mut i: usize = 0;
    while i < index.subtitle_streams.len()
        invariant
            i <= index.subtitle_streams@.len(),
            forall|t: usize| #[trigger]
                tracks@.contains(t) == (both.contains(t) || has_subtitles(*index, i as int, t)),
        decreases index.subtitle_streams.len() - i,
    {
        let ghost before = tracks@;
        tracks.insert(index.subtitle_streams[i].stream_index);
        assert forall|t: usize| #[trigger] tracks@.contains(t) == (both.contains(t) || has_subtitles(
            *index,
            i + 1,
            t,
        )) by {
            lemma_one_more(*index, i as int, t);
            assert(before.contains(t) == (both.contains(t) || has_subtitles(*index, i as int, t)));
        }
        i += 1;
    }
    assert(tracks@ =~= all_tracks(*index));
    tracks
}

/// Texts as values.
pub open spec fn text_views(list: Seq<String>) -> Seq<Seq<char>> {
    list.map_values(|s: String| s@)
}

/// Borrowed texts as values.
pub open spec fn str_views(list: Seq<&str>) -> Seq<Seq<char>> {
    list.map_values(|s: &str| s@)
}

/// The bytes of a main playlist. Its track playlists are asked for under the id of the stream.
pub open spec fn main_playlist_bytes(p: MainPlaylist) -> Seq<u8> {
    encode_utf8(
        main_playlist(
            enabled_video(p.index.video_streams@, p.tracks@),
            selected_audio(
                audio_views(p.index.audio_streams@),
                p.tracks@,
                p.transcode@,
                p.codecs@,
            ),
            enabled_subtitles(p.index.subtitle_streams@, p.tracks@),
            p.interleave,
            Place {
                video_url: p.hls_params.video_url@,
                session_id: Some(p.index.stream_id@),
            },
        ),
    )
}

impl MainPlaylist {
    /// The main playlist with all tracks enabled.
    pub fn new(hls_params: HlsParams, index: Arc<StreamIndex>) -> (p: Self)
        ensures
            p.hls_params == hls_params,
            p.index == index,
            p.tracks@ == all_tracks(*index),
            p.codecs@.len() == 0,
            p.transcode@ == Map::<usize, String>::empty(),
            !p.interleave,
    {
        let tracks: HashSet<usize> = collect_tracks(&index);
        MainPlaylist {
            hls_params,
            index,
            tracks,
            codecs: Vec::new(),
            transcode: HashMap::new(),
            interleave: false,
        }
    }

    /// Makes the playlist.
    pub fn generate(&self) -> (r: Result<Vec<u8>>)
        requires
            self.hls_params.url_type is MainPlaylist,
        ensures
            r matches Ok(bytes) && bytes@ == main_playlist_bytes(*self),
    {
        let playlist: String = generate_master_playlist(
            &self.index,
            self.hls_params.video_url.as_str(),
            Some(self.index.stream_id.as_str()),
            self.codecs.as_slice(),
            &self.tracks,
            &self.transcode,
            self.interleave,
        );
        Ok(to_bytes(&playlist))
    }

    /// Lets the audio go with the video, if there is one track of each.
    pub fn interleave(&mut self)
        ensures
            *final(self) == (MainPlaylist { interleave: true, ..*old(self) }),
    {
        self.interleave = true;
    }

    /// Leaves only the audio tracks that are in one of the codecs, or can be had in one.
    pub fn filter_codecs(&mut self, codecs: &[&str])
        ensures
            text_views(final(self).codecs@) == str_views(codecs@),
            *final(self) == (MainPlaylist { codecs: final(self).codecs, ..*old(self) }),
    {
        let mut list: Vec<String> = Vec::new();
        let mut i: usize = 0;
        while i < codecs.len()
            invariant
                i <= codecs@.len(),
                list@.len() == i,
                forall|k: int| 0 <= k < i ==> (#[trigger] list@[k])@ == codecs@[k]@,
            decreases codecs.len() - i,
        {
            list.push(codecs[i].to_owned());
            i += 1;
        }
        assert(text_views(list@) =~= str_views(codecs@));
        self.codecs = list;
    }

    /// Enables only some tracks.
    pub fn enable_tracks(&mut self, tracks: &[usize])
        ensures
            final(self).tracks@ == tracks@.to_set(),
            *final(self) == (MainPlaylist { tracks: final(self).tracks, ..*old(self) }),
    {
        let mut set: HashSet<usize> = HashSet::new();
        let mut i: usize = 0;
        while i < tracks.len()
            invariant
                i <= tracks@.len(),
                forall|t: usize|
                    set@.contains(t) <==> exists|k: int| 0 <= k < i && #[trigger] tracks@[k] == t,
            decreases tracks.len() - i,
        {
            let ghost before = set@;
            set.insert(tracks[i]);
            assert(set@ == before.insert(tracks@[i as int]));
            i += 1;
        }
        assert forall|t: usize| set@.contains(t) == tracks@.to_set().contains(t) by {
            if tracks@.contains(t) {
                let k = tracks@.index_of(t);
                assert(tracks@[k] == t);
            }
        }
        assert(set@ =~= tracks@.to_set());
        self.tracks = set;
    }
}

/// A playlist or segment that is made as the URL says.
pub struct PlaylistOrSegment {
    hls_params: HlsParams,
    index: Arc<StreamIndex>,
}

/// The work of making a segment that is left to the media framework.
#[derive(Debug, Clone)]
pub enum SegmentJob {
    /// A media segment.
    Media { segment: SegmentInfo, job: MediaJob },
    /// An initialization segment.
    Init { video_idx: Option<usize>, audio_idx: Option<usize>, transcode: bool },
    /// A segment of subtitles.
    Subtitles(SubtitleWindow),
}

/// How far a playlist or segment is made.
#[derive(Debug, Clone)]
pub enum Step {
    /// It is there.
    Done(Vec<u8>),
    /// Its segment has yet to be made.
    Make(SegmentJob),
}

/// The playlist of a track: with interleaved audio if that is named, else that of the audio,
/// subtitle or video track.
pub open spec fn track_playlist(index: StreamIndex, p: Playlist) -> Seq<char> {
    match p.audio_track_id {
        Some(audio) => {
            let codec = transcode_name(
                index.audio_streams@,
                audio,
                opt_text(p.audio_transcode_to),
            );
            media_playlist(
                index.segments@,
                interleaved_segment_name(p.track_id, audio, codec, None),
                |s: usize| interleaved_segment_name(p.track_id, audio, codec, Some(s)),
            )
        },
        None => if has_audio(index, index.audio_streams@.len() as int, p.track_id) {
            let codec = transcode_name(
                index.audio_streams@,
                p.track_id,
                opt_text(p.audio_transcode_to),
            );
            media_playlist(
                index.segments@,
                audio_segment_name(p.track_id, codec, None),
                |s: usize| audio_segment_name(p.track_id, codec, Some(s)),
            )
        } else if has_subtitles(index, index.subtitle_streams@.len() as int, p.track_id) {
            subtitle_playlist(
                index.segments@,
                p.track_id,
                clusters(index.segments@, |s: usize| is_silent(index, p.track_id, s)),
            )
        } else {
            media_playlist(
                index.segments@,
                video_segment_name(video_track(index), None),
                |s: usize| video_segment_name(video_track(index), Some(s)),
            )
        },
    }
}

/// The error for a segment that the file does not have.
pub open spec fn is_segment_missing(
    e: HlsError,
    index: StreamIndex,
    kind: Seq<char>,
    sequence: usize,
) -> bool {
    e matches HlsError::SegmentNotFound { stream_id, segment_type, sequence: s } && stream_id@
        == index.stream_id@ && segment_type@ == kind && s == sequence
}

/// The error for a stream that the file does not have.
pub open spec fn is_stream_missing(e: HlsError, text: Seq<char>) -> bool {
    e matches HlsError::StreamNotFound(m) && m@ == text
}

/// A segment has yet to be made.
pub open spec fn to_make(job: SegmentJob) -> Result<Step> {
    Ok(Step::Make(job))
}

/// The work of making a video segment.
pub open spec fn is_video_job(
    r: Result<Step>,
    index: StreamIndex,
    v: VideoSegment,
) -> bool {
    match (v.audio_track_id, v.segment_id) {
        (Some(audio), Some(seq)) => match segment_index(index.segments@, seq) {
            None => r matches Err(e) && is_segment_missing(e, index, "video"@, seq),
            Some(i) => if index.video_streams@.len() == 0 || index.audio_streams@.len() == 0 {
                r matches Err(e) && is_stream_missing(e, both_needed_text())
            } else {
                r == to_make(
                    SegmentJob::Media {
                        segment: index.segments@[i],
                        job: MediaJob {
                            kind: MediaKind::Av,
                            video_track: Some(v.track_id),
                            audio_track: Some(audio),
                            transcode: wants_aac(
                                opt_text(v.audio_transcode_to),
                                index.audio_streams@,
                                audio,
                            ),
                        },
                    },
                )
            },
        },
        (Some(audio), None) => r == to_make(
            SegmentJob::Init {
                video_idx: Some(v.track_id),
                audio_idx: Some(audio),
                transcode: wants_aac(
                    opt_text(v.audio_transcode_to),
                    index.audio_streams@,
                    audio,
                ),
            },
        ),
        (None, Some(seq)) => match segment_index(index.segments@, seq) {
            None => r matches Err(e) && is_segment_missing(e, index, "video"@, seq),
            Some(i) => r == to_make(
                SegmentJob::Media {
                    segment: index.segments@[i],
                    job: MediaJob {
                        kind: MediaKind::Video,
                        video_track: Some(v.track_id),
                        audio_track: None,
                        transcode: false,
                    },
                },
            ),
        },
        (None, None) => if index.video_streams@.len() == 0 {
            r matches Err(HlsError::NoVideoStream)
        } else {
            r == to_make(
                SegmentJob::Init {
                    video_idx: Some(index.video_streams@[0].stream_index),
                    audio_idx: None,
                    transcode: false,
                },
            )
        },
    }
}

/// The work of making an audio segment.
pub open spec fn is_audio_job(
    r: Result<Step>,
    index: StreamIndex,
    a: AudioSegment,
) -> bool {
    let known = audio_index(index.audio_streams@, a.track_id) is Some;
    let transcode = wants_aac(opt_text(a.transcode_to), index.audio_streams@, a.track_id);
    match a.segment_id {
        Some(seq) => match segment_index(index.segments@, seq) {
            None => r matches Err(e) && is_segment_missing(e, index, "audio"@, seq),
            Some(i) => if !known {
                r matches Err(e) && is_stream_missing(e, not_found_text("audio"@, a.track_id))
            } else {
                r == to_make(
                    SegmentJob::Media {
                        segment: index.segments@[i],
                        job: MediaJob {
                            kind: MediaKind::Audio,
                            video_track: None,
                            audio_track: Some(a.track_id),
                            transcode,
                        },
                    },
                )
            },
        },
        None => if !known {
            r matches Err(e) && is_stream_missing(e, not_found_text("audio"@, a.track_id))
        } else {
            r == to_make(
                SegmentJob::Init { video_idx: None, audio_idx: Some(a.track_id), transcode },
            )
        },
    }
}

/// The work of making a segment of subtitles.
pub open spec fn is_subtitle_job(
    r: Result<Step>,
    index: StreamIndex,
    v: VttSegment,
) -> bool {
    match (
        segment_index(index.segments@, v.start_cue),
        segment_index(index.segments@, v.end_cue),
        subtitle_index(index.subtitle_streams@, v.track_id),
    ) {
        (None, _, _) => r matches Err(e) && is_segment_missing(
            e,
            index,
            "subtitle"@,
            v.start_cue,
        ),
        (Some(_), None, _) => r matches Err(e) && is_segment_missing(
            e,
            index,
            "subtitle"@,
            v.end_cue,
        ),
        (Some(_), Some(_), None) => r matches Err(e) && is_stream_missing(
            e,
            not_found_text("subtitle"@, v.track_id),
        ),
        (Some(a), Some(b), Some(i)) => {
            let s = index.subtitle_streams@[i];
            match bitmap_name(s.codec_id) {
                Some(name) => r matches Err(HlsError::Muxing(m)) && m@ == bitmap_text(
                    v.track_id,
                    name,
                ),
                None => r matches Ok(Step::Make(SegmentJob::Subtitles(w))) && is_window(
                    w,
                    s,
                    v.track_id,
                    index.video_timebase,
                    index.segments@[a],
                    index.segments@[b],
                ),
            }
        },
    }
}

fn as_str(s: &Option<String>) -> (r: Option<&str>)
    ensures
        opt_str(r) == opt_text(*s),
{
    match s {
        Some(t) => Some(t.as_str()),
        None => None,
    }
}

fn plan_video(index: &StreamIndex, v: &VideoSegment) -> (r: Result<Step>)
    ensures
        is_video_job(r, *index, *v),
{
    match (v.audio_track_id, v.segment_id) {
        (Some(audio), Some(seq)) => {
            let segment: SegmentInfo = match index.get_segment("video", seq) {
                Ok(s) => *s,
                Err(e) => {
                    return Err(e);
                },
            };
            match plan_interleaved_segment(
                index,
                v.track_id,
                audio,
                as_str(&v.audio_transcode_to),
            ) {
                Ok(job) => Ok(Step::Make(SegmentJob::Media { segment, job })),
                Err(e) => Err(e),
            }
        },
        (Some(audio), None) => {
            let b = generate_interleaved_init_segment(
                index,
                v.track_id,
                audio,
                as_str(&v.audio_transcode_to),
            );
            Ok(
                Step::Make(
                    SegmentJob::Init {
                        video_idx: b.video_idx,
                        audio_idx: b.audio_idx,
                        transcode: b.transcode_audio_to_aac,
                    },
                ),
            )
        },
        (None, Some(seq)) => match plan_video_segment(index, v.track_id, seq) {
            Ok((segment, job)) => Ok(Step::Make(SegmentJob::Media { segment, job })),
            Err(e) => Err(e),
        },
        (None, None) => match generate_video_init_segment(index) {
            Ok(b) => Ok(
                Step::Make(
                    SegmentJob::Init {
                        video_idx: b.video_idx,
                        audio_idx: b.audio_idx,
                        transcode: b.transcode_audio_to_aac,
                    },
                ),
            ),
            Err(e) => Err(e),
        },
    }
}

fn plan_audio(index: &StreamIndex, a: &AudioSegment) -> (r: Result<Step>)
    ensures
        is_audio_job(r, *index, *a),
{
    match a.segment_id {
        Some(seq) => match plan_audio_segment(index, a.track_id, seq, as_str(&a.transcode_to)) {
            Ok((segment, job)) => Ok(Step::Make(SegmentJob::Media { segment, job })),
            Err(e) => Err(e),
        },
        None => match generate_audio_init_segment(index, a.track_id, as_str(&a.transcode_to)) {
            Ok(b) => Ok(
                Step::Make(
                    SegmentJob::Init {
                        video_idx: b.video_idx,
                        audio_idx: b.audio_idx,
                        transcode: b.transcode_audio_to_aac,
                    },
                ),
            ),
            Err(e) => Err(e),
        },
    }
}

fn is_audio_track(index: &StreamIndex, track: usize) -> (b: bool)
    ensures
        b == has_audio(*index, index.audio_streams@.len() as int, track),
{
    let mut i: usize = 0;
    while i < index.audio_streams.len()
        invariant
            i <= index.audio_streams@.len(),
            !has_audio(*index, i as int, track),
        decreases index.audio_streams.len() - i,
    {
        proof {
            lemma_one_more(*index, i as int, track);
        }
        if index.audio_streams[i].stream_index == track {
            return true;
        }
        i += 1;
    }
    false
}

fn is_subtitle_track(index: &StreamIndex, track: usize) -> (b: bool)
    ensures
        b == has_subtitles(*index, index.subtitle_streams@.len() as int, track),
{
    let mut i: usize = 0;
    while i < index.subtitle_streams.len()
        invariant
            i <= index.subtitle_streams@.len(),
            !has_subtitles(*index, i as int, track),
        decreases index.subtitle_streams.len() - i,
    {
        proof {
            lemma_one_more(*index, i as int, track);
        }
        if index.subtitle_streams[i].stream_index == track {
            return true;
        }
        i += 1;
    }
    false
}

fn make_playlist(index: &StreamIndex, p: &Playlist) -> (text: String)
    ensures
        text@ == track_playlist(*index, *p),
{
    if let Some(audio) = p.audio_track_id {
        generate_interleaved_playlist(index, p.track_id, audio, as_str(&p.audio_transcode_to))
    } else if is_audio_track(index, p.track_id) {
        generate_audio_playlist(index, p.track_id, as_str(&p.audio_transcode_to))
    } else if is_subtitle_track(index, p.track_id) {
        generate_subtitle_playlist(index, p.track_id)
    } else {
        generate_video_playlist(index)
    }
}

/// Segments are kept once they are made; playlists and initialization segments are not.
pub open spec fn is_cacheable(url_type: UrlType) -> bool {
    match url_type {
        UrlType::VideoSegment(v) => v.segment_id is Some,
        UrlType::AudioSegment(a) => a.segment_id is Some,
        UrlType::VttSegment(_) => true,
        _ => false,
    }
}

/// What starting on a playlist or segment comes to: it is taken from what is kept, and touched
/// there; or a playlist is made, or a segment prepared.
pub open spec fn is_started(
    p: PlaylistOrSegment,
    before: Option<SegmentCache>,
    after: Option<SegmentCache>,
    now: u64,
    r: Result<Step>,
) -> bool {
    match before {
        Some(c) if c@.entries.dom().contains(p.key()) => {
            &&& r matches Ok(Step::Done(data)) && data@ == c@.entries[p.key()].data
            &&& after matches Some(d) && d@ == (CacheView {
                entries: c@.entries.insert(
                    p.key(),
                    touched(c@.entries[p.key()], now),
                ),
                ..c@
            })
        },
        _ => {
            &&& match (before, after) {
                (Some(c), Some(d)) => d@ == c@,
                (None, None) => true,
                _ => false,
            }
            &&& match p.params().url_type {
                UrlType::MainPlaylist => true,
                UrlType::Playlist(t) => r matches Ok(Step::Done(data)) && data@ == encode_utf8(
                    track_playlist(p.media(), t),
                ),
                UrlType::VideoSegment(v) => is_video_job(r, p.media(), v),
                UrlType::AudioSegment(a) => is_audio_job(r, p.media(), a),
                UrlType::VttSegment(s) => is_subtitle_job(r, p.media(), s),
            }
        },
    }
}

impl PlaylistOrSegment {
    pub closed spec fn params(&self) -> HlsParams {
        self.hls_params
    }

    pub closed spec fn media(&self) -> StreamIndex {
        *self.index
    }

    /// The key of what is made, among all that is kept.
    pub open spec fn key(&self) -> Seq<char> {
        cache_key(self.media().stream_id@, encoded(self.params()@))
    }

    /// What the URL names, of an opened file.
    pub fn from_index(hls_params: HlsParams, index: Arc<StreamIndex>) -> (p: Self)
        ensures
            p.params() == hls_params,
            p.media() == *index,
    {
        PlaylistOrSegment { hls_params, index }
    }

    /// Looks for what the URL names among what is kept.
    fn find_kept(&self, cache: &mut Option<SegmentCache>, now: u64) -> (found: Option<Vec<u8>>)
        requires
            *old(cache) matches Some(c) ==> c@.wf(),
        ensures
            *final(cache) matches Some(c) ==> c@.wf(),
            match *old(cache) {
                Some(c) if c@.entries.dom().contains(self.key()) => {
                    &&& found matches Some(data) && data@ == c@.entries[self.key()].data
                    &&& *final(cache) matches Some(d) && d@ == (CacheView {
                        entries: c@.entries.insert(
                            self.key(),
                            touched(c@.entries[self.key()], now),
                        ),
                        ..c@
                    })
                },
                Some(c) => found is None && (*final(cache) matches Some(d) && d@ == c@),
                None => found is None && *final(cache) is None,
            },
    {
        let key: String = self.hls_params.encode_url();
        if let Some(c) = cache {
            match c.get_at(self.index.stream_id.as_str(), key.as_str(), now) {
                Some(b) => Some(unshare(&b)),
                None => None,
            }
        } else {
            None
        }
    }

    /// Starts on what the URL names: takes it from what is kept, makes a playlist, or prepares
    /// a segment.
    pub fn generate(&self, cache: &mut Option<SegmentCache>, now: u64) -> (r: Result<Step>)
        requires
            !(self.params().url_type is MainPlaylist),
            *old(cache) matches Some(c) ==> c@.wf(),
        ensures
            *final(cache) matches Some(c) ==> c@.wf(),
            is_started(*self, *old(cache), *final(cache), now, r),
    {
        if let Some(data) = self.find_kept(cache, now) {
            return Ok(Step::Done(data));
        }
        match &self.hls_params.url_type {
            UrlType::MainPlaylist => {
                Ok(Step::Done(Vec::new()))
            },
            UrlType::Playlist(p) => {
                let text: String = make_playlist(&self.index, p);
                Ok(Step::Done(to_bytes(&text)))
            },
            UrlType::VideoSegment(v) => plan_video(&self.index, v),
            UrlType::AudioSegment(a) => plan_audio(&self.index, a),
            UrlType::VttSegment(s) => match plan_subtitle_segment(
                &self.index,
                s.track_id,
                s.start_cue,
                s.end_cue,
            ) {
                Ok(w) => Ok(Step::Make(SegmentJob::Subtitles(w))),
                Err(e) => Err(e),
            },
        }
    }

    /// Keeps a made segment, if it is of a kind that is kept, and hands it out.
    pub fn finish(&self, cache: &mut Option<SegmentCache>, data: Vec<u8>, now: u64) -> (out: Vec<
        u8,
    >)
        requires
            *old(cache) matches Some(c) ==> c@.wf() && c@.memory + data@.len() <= usize::MAX,
        ensures
            out@ == data@,
            match (*old(cache), *final(cache)) {
                (Some(c), Some(d)) => d@.wf() && if is_cacheable(self.params().url_type) {
                    inserted(c@, d@, self.key(), data@, now)
                } else {
                    d@ == c@
                },
                (None, None) => true,
                _ => false,
            },
    {
        let kept: bool = match &self.hls_params.url_type {
            UrlType::VideoSegment(v) => v.segment_id.is_some(),
            UrlType::AudioSegment(a) => a.segment_id.is_some(),
            UrlType::VttSegment(_) => true,
            _ => false,
        };
        if kept {
            let key: String = self.hls_params.encode_url();
            if let Some(c) = cache {
                let shared: bytes::Bytes = share(data);
                let out: Vec<u8> = unshare(&shared);
                c.insert_at(self.index.stream_id.as_str(), key.as_str(), shared, now);
                return out;
            }
        }
        data
    }
}

/// What a stream URL names, of an opened file.
pub enum HlsVideo {
    /// The main playlist, which may be set up before it is made.
    MainPlaylist(MainPlaylist),
    /// A playlist or segment.
    PlaylistOrSegment(PlaylistOrSegment),
}

impl HlsVideo {
    /// What the URL names.
    pub closed spec fn params(&self) -> HlsParams {
        match *self {
            HlsVideo::MainPlaylist(p) => p.hls_params,
            HlsVideo::PlaylistOrSegment(s) => s.hls_params,
        }
    }

    /// What the URL names, of an opened file.
    pub fn open(index: Arc<StreamIndex>, hls_params: HlsParams) -> (video: Self)
        ensures
            video.params() == hls_params,
            match video {
                HlsVideo::MainPlaylist(p) => hls_params.url_type is MainPlaylist && p.index == index
                    && p.hls_params == hls_params && p.tracks@ == all_tracks(*index)
                    && p.codecs@.len() == 0 && p.transcode@ == Map::<usize, String>::empty()
                    && !p.interleave,
                HlsVideo::PlaylistOrSegment(s) => !(hls_params.url_type is MainPlaylist)
                    && s.params() == hls_params && s.media() == *index,
            },
    {
        let is_main: bool = match &hls_params.url_type {
            UrlType::MainPlaylist => true,
            _ => false,
        };
        if is_main {
            HlsVideo::MainPlaylist(MainPlaylist::new(hls_params, index))
        } else {
            HlsVideo::PlaylistOrSegment(PlaylistOrSegment { hls_params, index })
        }
    }

    /// Starts on what the URL names; a main playlist is done at once.
    pub fn generate(&self, cache: &mut Option<SegmentCache>, now: u64) -> (r: Result<Step>)
        requires
            match *self {
                HlsVideo::MainPlaylist(p) => p.hls_params.url_type is MainPlaylist,
                HlsVideo::PlaylistOrSegment(s) => !(s.params().url_type is MainPlaylist),
            },
            *old(cache) matches Some(c) ==> c@.wf(),
        ensures
            *final(cache) matches Some(c) ==> c@.wf(),
            match *self {
                HlsVideo::MainPlaylist(p) => *final(cache) == *old(cache) && (r matches Ok(
                    Step::Done(data),
                ) && data@ == main_playlist_bytes(p)),
                HlsVideo::PlaylistOrSegment(s) => is_started(
                    s,
                    *old(cache),
                    *final(cache),
                    now,
                    r,
                ),
            },
    {
        match self {
            HlsVideo::MainPlaylist(p) => match p.generate() {
                Ok(bytes) => Ok(Step::Done(bytes)),
                Err(e) => Err(e),
            },
            HlsVideo::PlaylistOrSegment(s) => s.generate(cache, now),
        }
    }

    /// The MIME type of what the URL names.
    pub fn mime_type(&self) -> (mime: &'static str)
        ensures
            mime@ == mime_type_of(self.params().url_type@),
    {
        match self {
            HlsVideo::MainPlaylist(p) => p.hls_params.mime_type(),
            HlsVideo::PlaylistOrSegment(s) => s.hls_params.mime_type(),
        }
    }

    /// How long what the URL names may be cached.
    pub fn cache_control(&self) -> (control: &'static str)
        ensures
            control@ == if self.params().url_type is MainPlaylist
                || self.params().url_type is Playlist {
                "no-cache"@
            } else {
                "max-age=3600"@
            },
    {
        match self {
            HlsVideo::MainPlaylist(p) => p.hls_params.cache_control(),
            HlsVideo::PlaylistOrSegment(s) => s.hls_params.cache_control(),
        }
    }
}

} // verus!
