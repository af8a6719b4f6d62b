//! What is known of a media file: its streams and its timeline.

use vstd::prelude::*;
use crate::error::{HlsError, Result};
use crate::params::opt_text;
use crate::search::{
    first_index, lemma_filter_is_choice, lemma_first_index_found, lemma_first_index_none,
};
use crate::clock::unix_nanos;
use crate::text::{decimal, lowercase, push_decimal, same_text};

pub use crate::timebase::Rational;

verus! {

/// A codec.
#[allow(non_camel_case_types)]
#[derive(Debug, Clone, Copy, PartialEq, Eq, Structural)]
pub enum Id {
    H264,
    HEVC,
    VP8,
    VP9,
    AV1,
    AAC,
    AC3,
    EAC3,
    MP3,
    OPUS,
    FLAC,
    VORBIS,
    TRUEHD,
    DTS,
    SUBRIP,
    ASS,
    MOV_TEXT,
    WEBVTT,
    TEXT,
    DVD_SUBTITLE,
    DVB_SUBTITLE,
    HDMV_PGS_SUBTITLE,
    XSUB,
    /// Any other codec.
    Other,
}

/// A video stream.
#[derive(Debug, Clone)]
pub struct VideoStreamInfo {
    /// Its index in the file.
    pub stream_index: usize,
    pub codec_id: Id,
    pub width: u32,
    pub height: u32,
    /// Bits per second.
    pub bitrate: u64,
    /// Frames per second.
    pub framerate: Rational,
    pub language: Option<String>,
    pub profile: Option<i32>,
    pub level: Option<i32>,
}

/// An audio stream.
#[derive(Debug, Clone)]
pub struct AudioStreamInfo {
    /// Its index in the file.
    pub stream_index: usize,
    pub codec_id: Id,
    /// Samples per second.
    pub sample_rate: u32,
    pub channels: u16,
    /// Bits per second.
    pub bitrate: u64,
    pub language: Option<String>,
    /// Samples that the encoder put in front.
    pub encoder_delay: i64,
    /// The codec that it is transcoded to.
    pub transcode_to: Option<Id>,
}

/// Where a subtitle stands in the file.
#[derive(Debug, Clone, Copy)]
pub struct SubtitleSampleRef {
    pub byte_offset: u64,
    /// When it is shown, in ticks of the stream.
    pub pts: i64,
    /// For how long it is shown, in ticks of the stream.
    pub duration: i64,
    /// Its size in bytes.
    pub size: i32,
}

/// The forms that subtitles come in.
#[derive(Debug, Clone, Copy, PartialEq, Eq, Structural)]
pub enum SubtitleFormat {
    SubRip,
    Ass,
    MovText,
    WebVtt,
    Text,
    Unknown,
}

/// A subtitle stream.
#[derive(Debug, Clone)]
pub struct SubtitleStreamInfo {
    /// Its index in the file.
    pub stream_index: usize,
    pub codec_id: Id,
    pub language: Option<String>,
    pub format: SubtitleFormat,
    /// The segments in which something is shown, in ascending order.
    pub non_empty_sequences: Vec<usize>,
    /// All subtitles, in the order in which they are shown.
    pub sample_index: Vec<SubtitleSampleRef>,
    pub timebase: Rational,
    /// The first timestamp, in ticks of the stream.
    pub start_time: i64,
}

/// A slice of the timeline.
#[derive(Debug, Clone, Copy)]
pub struct SegmentInfo {
    /// Its number, counted from 0.
    pub sequence: usize,
    /// Where it starts, in ticks of the video time base.
    pub start_pts: i64,
    /// Where it ends, in ticks of the video time base.
    pub end_pts: i64,
    /// How long it is, in microseconds.
    pub duration_us: u64,
    pub is_keyframe: bool,
    /// About where its video starts in the file.
    pub video_byte_offset: u64,
}

/// An audio stream as a value.
pub struct AudioView {
    pub stream_index: usize,
    pub codec_id: Id,
    pub sample_rate: u32,
    pub channels: u16,
    pub bitrate: u64,
    pub language: Option<Seq<char>>,
    pub encoder_delay: i64,
    pub transcode_to: Option<Id>,
}

impl View for AudioStreamInfo {
    type V = AudioView;

    open spec fn view(&self) -> AudioView {
        AudioView {
            stream_index: self.stream_index,
            codec_id: self.codec_id,
            sample_rate: self.sample_rate,
            channels: self.channels,
            bitrate: self.bitrate,
            language: opt_text(self.language),
            encoder_delay: self.encoder_delay,
            transcode_to: self.transcode_to,
        }
    }
}

/// What is known of a media file.
#[derive(Debug, Clone)]
pub struct StreamIndex {
    pub stream_id: String,
    /// The path of the file.
    pub source_path: String,
    /// How long the media is, in microseconds.
    pub duration_us: u64,
    /// The time base of the segments.
    pub video_timebase: Rational,
    pub video_streams: Vec<VideoStreamInfo>,
    pub audio_streams: Vec<AudioStreamInfo>,
    pub subtitle_streams: Vec<SubtitleStreamInfo>,
    /// The timeline, cut into segments.
    pub segments: Vec<SegmentInfo>,
    /// When it was made, in nanoseconds since the Unix epoch.
    pub indexed_at: u64,
    /// When it was last asked for, in seconds since the Unix epoch.
    pub last_accessed: u64,
    /// The first timestamp of each segment, once known; `i64::MIN` before.
    pub segment_first_pts: Vec<i64>,
    /// Whether its segments are kept once they are made.
    pub cache_enabled: bool,
}

/// The first segment with a number.
pub open spec fn segment_index(segments: Seq<SegmentInfo>, sequence: usize) -> Option<int> {
    first_index(segments.len() as int, |i: int| segments[i].sequence == sequence)
}

/// The first audio stream with an index.
pub open spec fn audio_index(streams: Seq<AudioStreamInfo>, stream: usize) -> Option<int> {
    first_index(streams.len() as int, |i: int| streams[i].stream_index == stream)
}

/// The first subtitle stream with an index.
pub open spec fn subtitle_index(streams: Seq<SubtitleStreamInfo>, stream: usize) -> Option<int> {
    first_index(streams.len() as int, |i: int| streams[i].stream_index == stream)
}

/// `<kind> stream <number> not found`.
pub open spec fn not_found_text(kind: Seq<char>, stream: usize) -> Seq<char> {
    kind + " stream "@ + decimal(stream as nat) + " not found"@
}

fn stream_not_found(kind: &str, stream: usize) -> (e: HlsError)
    ensures
        e matches HlsError::StreamNotFound(m) && m@ == not_found_text(kind@, stream),
{
    let mut m: String = String::new();
    m.push_str(kind);
    m.push_str(" stream ");
    push_decimal(&mut m, stream as u64);
    m.push_str(" not found");
    assert(m@ =~= not_found_text(kind@, stream));
    HlsError::StreamNotFound(m)
}

impl StreamIndex {
    /// The segment with a number.
    pub fn get_segment(&self, segment_type: &str, sequence: usize) -> (r: Result<&SegmentInfo>)
        ensures
            match r {
                Ok(segment) => segment_index(self.segments@, sequence) matches Some(i) && *segment
                    == self.segments@[i],
                Err(e) => segment_index(self.segments@, sequence) is None && (e matches
                    HlsError::SegmentNotFound { stream_id, segment_type: t, sequence: s }
                    && stream_id@ == self.stream_id@ && t@ == segment_type@ && s == sequence),
            },
    {
        let ghost p = |i: int| self.segments@[i].sequence == sequence;
        let mut i: usize = 0;
        while i < self.segments.len()
            invariant
                i <= self.segments@.len(),
                p == (|i: int| self.segments@[i].sequence == sequence),
                forall|j: int| 0 <= j < i ==> !(#[trigger] p(j)),
            decreases self.segments.len() - i,
        {
            if self.segments[i].sequence == sequence {
                proof {
                    lemma_first_index_found(self.segments@.len() as int, p, i as int);
                }
                return Ok(&self.segments[i]);
            }
            i += 1;
        }
        proof {
            lemma_first_index_none(self.segments@.len() as int, p);
        }
        Err(
            HlsError::SegmentNotFound {
                stream_id: self.stream_id.clone(),
                segment_type: segment_type.to_owned(),
                sequence,
            },
        )
    }

    /// The audio stream with an index.
    pub fn get_audio_stream(&self, stream_index: usize) -> (r: Result<&AudioStreamInfo>)
        ensures
            match r {
                Ok(stream) => audio_index(self.audio_streams@, stream_index) matches Some(i)
                    && *stream == self.audio_streams@[i],
                Err(e) => audio_index(self.audio_streams@, stream_index) is None && (e matches
                    HlsError::StreamNotFound(m) && m@ == not_found_text("audio"@, stream_index)),
            },
    {
        let ghost p = |i: int| self.audio_streams@[i].stream_index == stream_index;
        let mut i: usize = 0;
        while i < self.audio_streams.len()
            invariant
                i <= self.audio_streams@.len(),
                p == (|i: int| self.audio_streams@[i].stream_index == stream_index),
                forall|j: int| 0 <= j < i ==> !(#[trigger] p(j)),
            decreases self.audio_streams.len() - i,
        {
            if self.audio_streams[i].stream_index == stream_index {
                proof {
                    lemma_first_index_found(self.audio_streams@.len() as int, p, i as int);
                }
                return Ok(&self.audio_streams[i]);
            }
            i += 1;
        }
        proof {
            lemma_first_index_none(self.audio_streams@.len() as int, p);
        }
        Err(stream_not_found("audio", stream_index))
    }

    /// The subtitle stream with an index.
    pub fn get_subtitle_stream(&self, track_index: usize) -> (r: Result<&SubtitleStreamInfo>)
        ensures
            match r {
                Ok(stream) => subtitle_index(self.subtitle_streams@, track_index) matches Some(i)
                    && *stream == self.subtitle_streams@[i],
                Err(e) => subtitle_index(self.subtitle_streams@, track_index) is None && (e matches
                    HlsError::StreamNotFound(m) && m@ == not_found_text(
                    "subtitle"@,
                    track_index,
                )),
            },
    {
        let ghost p = |i: int| self.subtitle_streams@[i].stream_index == track_index;
        let mut i: usize = 0;
        while i < self.subtitle_streams.len()
            invariant
                i <= self.subtitle_streams@.len(),
                p == (|i: int| self.subtitle_streams@[i].stream_index == track_index),
                forall|j: int| 0 <= j < i ==> !(#[trigger] p(j)),
            decreases self.subtitle_streams.len() - i,
        {
            if self.subtitle_streams[i].stream_index == track_index {
                proof {
                    lemma_first_index_found(self.subtitle_streams@.len() as int, p, i as int);
                }
                return Ok(&self.subtitle_streams[i]);
            }
            i += 1;
        }
        proof {
            lemma_first_index_none(self.subtitle_streams@.len() as int, p);
        }
        Err(stream_not_found("subtitle", track_index))
    }

    /// The first video stream.
    pub fn primary_video(&self) -> (video: Option<&VideoStreamInfo>)
        ensures
            match video {
                Some(v) => self.video_streams@.len() > 0 && *v == self.video_streams@[0],
                None => self.video_streams@.len() == 0,
            },
    {
        if self.video_streams.len() > 0 {
            Some(&self.video_streams[0])
        } else {
            None
        }
    }

    /// Whether the media is complete from the start: it always is.
    pub fn is_vod(&self) -> (b: bool)
        ensures
            b,
    {
        true
    }

    /// The number of segments.
    pub fn segment_count(&self) -> (n: usize)
        ensures
            n == self.segments@.len(),
    {
        self.segments.len()
    }

    /// Forgets the first timestamps of the segments.
    pub fn init_segment_first_pts(&mut self)
        ensures
            final(self).segment_first_pts@ == Seq::new(
                old(self).segments@.len(),
                |i: int| i64::MIN,
            ),
            *final(self) == (StreamIndex {
                segment_first_pts: final(self).segment_first_pts,
                ..*old(self)
            }),
    {
        let mut v: Vec<i64> = Vec::new();
        let n: usize = self.segments.len();
        while v.len() < n
            invariant
                v@.len() <= n,
                forall|i: int| 0 <= i < v@.len() ==> v@[i] == i64::MIN,
            decreases n - v.len(),
        {
            v.push(i64::MIN);
        }
        assert(v@ =~= Seq::new(self.segments@.len(), |i: int| i64::MIN));
        self.segment_first_pts = v;
    }
}

/// The text of a UUID: hexadecimal digits in groups of 8, 4, 4, 4 and 12.
pub open spec fn is_uuid_text(s: Seq<char>) -> bool {
    &&& s.len() == 36
    &&& forall|i: int|
        0 <= i < 36 ==> if i == 8 || i == 13 || i == 18 || i == 23 {
            #[trigger] s[i] == '-'
        } else {
            '0' <= s[i] <= '9' || 'a' <= s[i] <= 'f'
        }
}

/// `Uuid::new_v4`, written out: a random UUID, in lower case with hyphens.
#[verifier::external_body]
fn new_stream_id() -> (id: String)
    ensures
        is_uuid_text(id@),
{
    uuid::Uuid::new_v4().to_string()
}

/// The audio streams in a language, whatever the case that it is written in.
pub open spec fn audio_in_language(streams: Seq<AudioStreamInfo>, lower: Seq<char>) -> Seq<
    AudioStreamInfo,
> {
    streams.filter(
        |a: AudioStreamInfo| a.language matches Some(l) && lowercase(l@) == lower,
    )
}

/// The subtitle streams in a language, whatever the case that it is written in.
pub open spec fn subtitles_in_language(streams: Seq<SubtitleStreamInfo>, lower: Seq<char>) -> Seq<
    SubtitleStreamInfo,
> {
    streams.filter(
        |s: SubtitleStreamInfo| s.language matches Some(l) && lowercase(l@) == lower,
    )
}

/// Nothing is known of a file but its path.
pub open spec fn is_blank(index: StreamIndex, path: Seq<char>) -> bool {
    &&& index.source_path@ == path
    &&& index.duration_us == 0
    &&& index.video_timebase == Rational(1, 1)
    &&& index.video_streams@.len() == 0
    &&& index.audio_streams@.len() == 0
    &&& index.subtitle_streams@.len() == 0
    &&& index.segments@.len() == 0
    &&& index.last_accessed == 0
    &&& index.segment_first_pts@.len() == 0
    &&& index.cache_enabled
}

fn is_language(language: &Option<String>, lower: &str) -> (same: bool)
    ensures
        same == (*language matches Some(l) && lowercase(l@) == lower@),
{
    match language {
        Some(l) => same_text(l.as_str().to_lowercase().as_str(), lower),
        None => false,
    }
}

impl StreamIndex {
    /// What is known of a file before it is looked at: nothing but the id of the stream.
    pub fn with_id(source_path: String, stream_id: String, indexed_at: u64) -> (index: Self)
        ensures
            index.stream_id == stream_id,
            index.indexed_at == indexed_at,
            is_blank(index, source_path@),
    {
        StreamIndex {
            stream_id,
            source_path,
            duration_us: 0,
            video_timebase: Rational::new(1, 1),
            video_streams: Vec::new(),
            audio_streams: Vec::new(),
            subtitle_streams: Vec::new(),
            segments: Vec::new(),
            indexed_at,
            last_accessed: 0,
            segment_first_pts: Vec::new(),
            cache_enabled: true,
        }
    }

    /// What is known of a file before it is looked at. The stream gets a new id.
    pub fn new(source_path: String) -> (index: Self)
        ensures
            is_uuid_text(index.stream_id@),
            is_blank(index, source_path@),
    {
        StreamIndex::with_id(source_path, new_stream_id(), unix_nanos())
    }

    /// The audio streams in a language.
    pub fn audio_by_language(&self, language: &str) -> (found: Vec<&AudioStreamInfo>)
        ensures
            found@.unref() == audio_in_language(self.audio_streams@, lowercase(language@)),
    {
        let lower: String = language.to_lowercase();
        let mut found: Vec<&AudioStreamInfo> = Vec::new();
        let mut i: usize = 0;
        let streams: &Vec<AudioStreamInfo> = &self.audio_streams;
        proof {
            reveal(Seq::filter);
            assert(found@.unref() =~= audio_in_language(streams@.take(0), lower@));
        }
        while i < streams.len()
            invariant
                i <= streams@.len(),
                found@.unref() == audio_in_language(streams@.take(i as int), lower@),
            decreases streams.len() - i,
        {
            proof {
                reveal(Seq::filter);
                assert(streams@.take(i + 1).drop_last() =~= streams@.take(i as int));
            }
            let ghost before = found@;
            if is_language(&streams[i].language, lower.as_str()) {
                found.push(&streams[i]);
                assert(found@.unref() =~= before.unref().push(streams@[i as int]));
            }
            i += 1;
        }
        assert(streams@.take(streams@.len() as int) =~= streams@);
        found
    }

    /// The subtitle streams in a language.
    pub fn subtitle_by_language(&self, language: &str) -> (found: Vec<&SubtitleStreamInfo>)
        ensures
            found@.unref() == subtitles_in_language(self.subtitle_streams@, lowercase(language@)),
    {
        let lower: String = language.to_lowercase();
        let mut found: Vec<&SubtitleStreamInfo> = Vec::new();
        let mut i: usize = 0;
        let streams: &Vec<SubtitleStreamInfo> = &self.subtitle_streams;
        proof {
            reveal(Seq::filter);
            assert(found@.unref() =~= subtitles_in_language(streams@.take(0), lower@));
        }
        while i < streams.len()
            invariant
                i <= streams@.len(),
                found@.unref() == subtitles_in_language(streams@.take(i as int), lower@),
            decreases streams.len() - i,
        {
            proof {
                reveal(Seq::filter);
                assert(streams@.take(i + 1).drop_last() =~= streams@.take(i as int));
            }
            let ghost before = found@;
            if is_language(&streams[i].language, lower.as_str()) {
                found.push(&streams[i]);
                assert(found@.unref() =~= before.unref().push(streams@[i as int]));
            }
            i += 1;
        }
        assert(streams@.take(streams@.len() as int) =~= streams@);
        found
    }
}

/// The audio streams in a language are all those, in order, that name it in any case of letters,
/// and no others. The result tells where each one stands.
pub proof fn law_audio_in_language(streams: Seq<AudioStreamInfo>, lower: Seq<char>) -> (from: Seq<
    int,
>)
    ensures
        audio_in_language(streams, lower).len() == from.len(),
        forall|k: int|
            0 <= k < from.len() ==> 0 <= #[trigger] from[k] < streams.len() && audio_in_language(
                streams,
                lower,
            )[k] == streams[from[k]],
        forall|k: int, l: int| 0 <= k < l < from.len() ==> from[k] < from[l],
        forall|i: int|
            0 <= i < streams.len() ==> from.contains(i) == ((
            #[trigger] streams[i]).language is Some && lowercase(streams[i].language->Some_0@)
                == lower),
{
    let f = |a: AudioStreamInfo| a.language matches Some(l) && lowercase(l@) == lower;
    let p = |i: int| f(streams[i]);
    let from = lemma_filter_is_choice(streams, f, p);
    assert forall|i: int| 0 <= i < streams.len() implies from.contains(i) == ((
    #[trigger] streams[i]).language is Some && lowercase(streams[i].language->Some_0@) == lower) by {
        assert(from.contains(i) == p(i));
    }
    from
}

/// The subtitle streams in a language are all those, in order, that name it in any case of
/// letters, and no others. The result tells where each one stands.
pub proof fn law_subtitles_in_language(streams: Seq<SubtitleStreamInfo>, lower: Seq<char>) -> (from:
    Seq<int>)
    ensures
        subtitles_in_language(streams, lower).len() == from.len(),
        forall|k: int|
            0 <= k < from.len() ==> 0 <= #[trigger] from[k] < streams.len()
                && subtitles_in_language(streams, lower)[k] == streams[from[k]],
        forall|k: int, l: int| 0 <= k < l < from.len() ==> from[k] < from[l],
        forall|i: int|
            0 <= i < streams.len() ==> from.contains(i) == ((
            #[trigger] streams[i]).language is Some && lowercase(streams[i].language->Some_0@)
                == lower),
{
    let f = |s: SubtitleStreamInfo| s.language matches Some(l) && lowercase(l@) == lower;
    let p = |i: int| f(streams[i]);
    let from = lemma_filter_is_choice(streams, f, p);
    assert forall|i: int| 0 <= i < streams.len() implies from.contains(i) == ((
    #[trigger] streams[i]).language is Some && lowercase(streams[i].language->Some_0@) == lower) by {
        assert(from.contains(i) == p(i));
    }
    from
}

} // verus!
