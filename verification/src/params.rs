//! Stream URLs: what they name, read and written.

use vstd::prelude::*;
use crate::text::{chars_of, is_at, push_decimal, text_of};
use crate::url_grammar::{
    at, audio_name, audio_number_end, audio_segment_text, audio_text, base_name, base_start,
    codec_end, codec_suffix, codec_text, digits_end, encoded, ends_behind_something, fits, is_digit,
    is_video_url, item_name, lower_end, number, one_line, parsed, playlist_audio, playlist_from,
    playlist_name, playlist_tail, playlist_text, segment_text, video_text, vtt_text, segment_suffix,
    slash_from, splits_at, video_name, video_url_end, vtt_name, AudioSegmentView, ParamsView,
    PlaylistView, UrlTypeView, VideoSegmentView, VttSegmentView,
};

verus! {

/// A playlist or segment of a video, as named by a URL.
#[derive(Debug, Clone)]
pub struct HlsParams {
    /// What the URL names.
    pub url_type: UrlType,
    /// The session, which only a main playlist goes without.
    pub session_id: Option<String>,
    /// The URL of the video file.
    pub video_url: String,
}

/// The kinds of URL.
#[derive(Debug, Clone)]
pub enum UrlType {
    MainPlaylist,
    Playlist(Playlist),
    VideoSegment(VideoSegment),
    AudioSegment(AudioSegment),
    VttSegment(VttSegment),
}

/// A video segment.
#[derive(Debug, Clone)]
pub struct VideoSegment {
    pub track_id: usize,
    /// The audio track that is interleaved with the video.
    pub audio_track_id: Option<usize>,
    /// The codec that the audio is transcoded to.
    pub audio_transcode_to: Option<String>,
    /// The number of the segment; the initialization segment has none.
    pub segment_id: Option<usize>,
}

/// An audio segment.
#[derive(Debug, Clone)]
pub struct AudioSegment {
    pub track_id: usize,
    /// The codec that the audio is transcoded to.
    pub transcode_to: Option<String>,
    /// The number of the segment; the initialization segment has none.
    pub segment_id: Option<usize>,
}

/// A segment of subtitles.
#[derive(Debug, Clone)]
pub struct VttSegment {
    pub track_id: usize,
    /// The first of the segments that it covers.
    pub start_cue: usize,
    /// The last of the segments that it covers.
    pub end_cue: usize,
}

/// The playlist of an audio, video or subtitle track.
#[derive(Debug, Clone)]
pub struct Playlist {
    pub track_id: usize,
    /// The audio track that is interleaved with the track.
    pub audio_track_id: Option<usize>,
    /// The codec that the audio is transcoded to.
    pub audio_transcode_to: Option<String>,
}

/// A number in a URL does not fit a `usize`.
#[derive(Debug, Clone, Copy, PartialEq, Eq)]
pub struct NumberTooLarge;

pub open spec fn opt_text(s: Option<String>) -> Option<Seq<char>> {
    match s {
        Some(t) => Some(t@),
        None => None,
    }
}

pub open spec fn opt_nat(n: Option<usize>) -> Option<nat> {
    match n {
        Some(v) => Some(v as nat),
        None => None,
    }
}

impl View for Playlist {
    type V = PlaylistView;

    open spec fn view(&self) -> PlaylistView {
        PlaylistView {
            track_id: self.track_id as nat,
            audio_track_id: opt_nat(self.audio_track_id),
            audio_transcode_to: opt_text(self.audio_transcode_to),
        }
    }
}

impl View for VideoSegment {
    type V = VideoSegmentView;

    open spec fn view(&self) -> VideoSegmentView {
        VideoSegmentView {
            track_id: self.track_id as nat,
            audio_track_id: opt_nat(self.audio_track_id),
            audio_transcode_to: opt_text(self.audio_transcode_to),
            segment_id: opt_nat(self.segment_id),
        }
    }
}

impl View for AudioSegment {
    type V = AudioSegmentView;

    open spec fn view(&self) -> AudioSegmentView {
        AudioSegmentView {
            track_id: self.track_id as nat,
            transcode_to: opt_text(self.transcode_to),
            segment_id: opt_nat(self.segment_id),
        }
    }
}

impl View for VttSegment {
    type V = VttSegmentView;

    open spec fn view(&self) -> VttSegmentView {
        VttSegmentView {
            track_id: self.track_id as nat,
            start_cue: self.start_cue as nat,
            end_cue: self.end_cue as nat,
        }
    }
}

impl View for UrlType {
    type V = UrlTypeView;

    open spec fn view(&self) -> UrlTypeView {
        match *self {
            UrlType::MainPlaylist => UrlTypeView::MainPlaylist,
            UrlType::Playlist(p) => UrlTypeView::Playlist(p@),
            UrlType::VideoSegment(v) => UrlTypeView::VideoSegment(v@),
            UrlType::AudioSegment(a) => UrlTypeView::AudioSegment(a@),
            UrlType::VttSegment(s) => UrlTypeView::VttSegment(s@),
        }
    }
}

impl View for HlsParams {
    type V = ParamsView;

    open spec fn view(&self) -> ParamsView {
        ParamsView {
            url_type: self.url_type@,
            session_id: opt_text(self.session_id),
            video_url: self.video_url@,
        }
    }
}

fn word_at(s: &[char], pos: usize, word: &str) -> (found: bool)
    requires
        pos <= s@.len(),
    ensures
        found == at(s@, pos as int, word@),
        s@.len() <= usize::MAX,
{
    assert(s@.len() == s.len());
    let w: Vec<char> = chars_of(word);
    is_at(s, w.as_slice(), pos)
}

pub(crate) fn find_digits_end(s: &[char], from: usize) -> (end: usize)
    requires
        from <= s@.len(),
    ensures
        end == digits_end(s@, from as int),
        from <= end <= s@.len(),
        forall|i: int| from <= i < end ==> is_digit(#[trigger] s@[i]),
{
    let mut end: usize = from;
    while end < s.len() && '0' <= s[end] && s[end] <= '9'
        invariant
            from <= end <= s@.len(),
            digits_end(s@, end as int) == digits_end(s@, from as int),
            forall|i: int| from <= i < end ==> is_digit(#[trigger] s@[i]),
        decreases s.len() - end,
    {
        end += 1;
    }
    end
}

fn find_lower_end(s: &[char], from: usize) -> (end: usize)
    requires
        from <= s@.len(),
    ensures
        end == lower_end(s@, from as int),
        from <= end <= s@.len(),
{
    let mut end: usize = from;
    while end < s.len() && 'a' <= s[end] && s[end] <= 'z'
        invariant
            from <= end <= s@.len(),
            lower_end(s@, end as int) == lower_end(s@, from as int),
        decreases s.len() - end,
    {
        end += 1;
    }
    end
}

proof fn lemma_number_grows(digits: Seq<char>, n: int)
    requires
        0 <= n <= digits.len(),
        forall|i: int| 0 <= i < digits.len() ==> is_digit(#[trigger] digits[i]),
    ensures
        number(digits.take(n)) <= number(digits),
    decreases digits.len(),
{
    if n < digits.len() {
        lemma_number_grows(digits.drop_last(), n);
        assert(digits.drop_last().take(n) =~= digits.take(n));
    } else {
        assert(digits.take(n) =~= digits);
    }
}

/// Reads a run of digits.
pub(crate) fn usize_from_digits(s: &[char], from: usize, to: usize) -> (n: Option<usize>)
    requires
        from <= to <= s@.len(),
        forall|i: int| from <= i < to ==> is_digit(#[trigger] s@[i]),
    ensures
        match n {
            Some(v) => v == number(s@.subrange(from as int, to as int)),
            None => number(s@.subrange(from as int, to as int)) > usize::MAX,
        },
{
    let ghost digits = s@.subrange(from as int, to as int);
    let mut n: usize = 0;
    let mut i: usize = from;
    while i < to
        invariant
            from <= i <= to <= s@.len(),
            digits == s@.subrange(from as int, to as int),
            forall|j: int| from <= j < to ==> is_digit(#[trigger] s@[j]),
            n == number(digits.take(i - from)),
        decreases to - i,
    {
        assert(is_digit(s@[i as int]));
        let d: usize = (s[i] as u32 - '0' as u32) as usize;
        proof {
            let next = digits.take(i + 1 - from);
            assert(next.drop_last() =~= digits.take(i - from));
            assert(next.last() == s@[i as int]);
            assert(number(next) == n * 10 + d);
            assert forall|j: int| 0 <= j < digits.len() implies is_digit(#[trigger] digits[j]) by {
                assert(digits[j] == s@[from + j]);
            }
            lemma_number_grows(digits, i + 1 - from);
        }
        match n.checked_mul(10) {
            None => {
                return None;
            },
            Some(tenfold) => match tenfold.checked_add(d) {
                None => {
                    return None;
                },
                Some(sum) => {
                    n = sum;
                },
            },
        }
        i += 1;
    }
    assert(digits.take(to - from) =~= digits);
    Some(n)
}

fn is_one_line(s: &[char], from: usize, to: usize) -> (b: bool)
    requires
        from <= to <= s@.len(),
    ensures
        b == one_line(s@, from as int, to as int),
{
    let mut i: usize = from;
    while i < to
        invariant
            from <= i <= to <= s@.len(),
            one_line(s@, from as int, i as int),
        decreases to - i,
    {
        if s[i] == '\n' {
            return false;
        }
        i += 1;
    }
    true
}

fn find_codec_end(s: &[char], from: usize) -> (found: Option<usize>)
    requires
        from <= s@.len(),
    ensures
        match found {
            Some(end) => codec_end(s@, from as int, s@.len() as int) == Some(end as int) && from
                < end < s@.len(),
            None => codec_end(s@, from as int, s@.len() as int) is None,
        },
{
    let mut end: usize = s.len();
    while end > from
        invariant
            from <= end <= s@.len(),
            codec_end(s@, from as int, end as int) == codec_end(
                s@,
                from as int,
                s@.len() as int,
            ),
        decreases end,
    {
        if end < s.len() && word_at(s, end + 1, "m3u8") && is_one_line(s, from, end + 1) {
            return Some(end);
        }
        proof {
            reveal_strlit("m3u8");
        }
        end -= 1;
    }
    None
}

fn parse_playlist_tail(s: &[char], pos: usize) -> (tail: Option<Option<String>>)
    requires
        pos <= s@.len(),
    ensures
        match tail {
            Some(codec) => playlist_tail(s@, pos as int) == Some(opt_text(codec)),
            None => playlist_tail(s@, pos as int) is None,
        },
{
    proof {
        reveal_strlit("-");
    }
    if word_at(s, pos, "-") {
        if let Some(end) = find_codec_end(s, pos + 1) {
            return Some(Some(text_of(s, pos + 1, end)));
        }
    }
    if pos < s.len() && s[pos] != '\n' && word_at(s, pos + 1, "m3u8") {
        Some(None)
    } else {
        None
    }
}

fn find_audio_number_end(s: &[char], from: usize, to: usize) -> (found: Option<usize>)
    requires
        from <= to <= s@.len(),
    ensures
        match found {
            Some(end) => audio_number_end(s@, from as int, to as int) == Some(end as int) && from
                < end <= to && playlist_tail(s@, end as int) is Some,
            None => audio_number_end(s@, from as int, to as int) is None,
        },
{
    let mut end: usize = to;
    while end > from
        invariant
            from <= end <= to <= s@.len(),
            audio_number_end(s@, from as int, end as int) == audio_number_end(
                s@,
                from as int,
                to as int,
            ),
        decreases end,
    {
        if parse_playlist_tail(s, end).is_some() {
            return Some(end);
        }
        end -= 1;
    }
    None
}

/// The span of the audio track number, if there is one, and the codec.
fn parse_playlist_audio(s: &[char], pos: usize) -> (found: Option<
    (Option<(usize, usize)>, Option<String>),
>)
    requires
        pos <= s@.len(),
    ensures
        match found {
            Some((Some((from, to)), codec)) => from <= to <= s@.len() && (forall|i: int|
                from <= i < to ==> is_digit(#[trigger] s@[i])) && playlist_audio(s@, pos as int)
                == Some((Some(number(s@.subrange(from as int, to as int))), opt_text(codec))),
            Some((None, codec)) => playlist_audio(s@, pos as int) == Some(
                (None::<nat>, opt_text(codec)),
            ),
            None => playlist_audio(s@, pos as int) is None,
        },
{
    proof {
        reveal_strlit("+");
    }
    if word_at(s, pos, "+") {
        let digits: usize = find_digits_end(s, pos + 1);
        if let Some(end) = find_audio_number_end(s, pos + 1, digits) {
            if let Some(codec) = parse_playlist_tail(s, end) {
                return Some((Some((pos + 1, end)), codec));
            }
        }
    }
    match parse_playlist_tail(s, pos) {
        Some(codec) => Some((None, codec)),
        None => None,
    }
}

/// What reading a name came to: nothing, the item it stands for, or, where a number does
/// not fit, an error.
pub open spec fn reads_as(
    r: Result<Option<UrlType>, NumberTooLarge>,
    item: Option<UrlTypeView>,
) -> bool {
    match item {
        None => r matches Ok(None),
        Some(view) => if fits(view) {
            r matches Ok(Some(url_type)) && url_type@ == view
        } else {
            r is Err
        },
    }
}

fn parse_playlist(s: &[char]) -> (r: Result<Option<UrlType>, NumberTooLarge>)
    ensures
        reads_as(
            r,
            match playlist_name(s@) {
                Some(p) => Some(UrlTypeView::Playlist(p)),
                None => None,
            },
        ),
{
    proof {
        reveal_strlit("t");
    }
    if !word_at(s, 0, "t") || s.len() < 2 || s[1] == '\n' {
        return Ok(None);
    }
    let digits: usize = find_digits_end(s, 2);
    let mut end: usize = digits;
    while end > 2
        invariant
            2 <= end <= digits <= s@.len(),
            forall|i: int| 2 <= i < digits ==> is_digit(#[trigger] s@[i]),
            playlist_from(s@, end as int) == playlist_name(s@),
        decreases end,
    {
        if let Some((audio, audio_transcode_to)) = parse_playlist_audio(s, end) {
            let track: Option<usize> = usize_from_digits(s, 2, end);
            return match (track, audio) {
                (Some(track_id), None) => Ok(
                    Some(
                        UrlType::Playlist(
                            Playlist { track_id, audio_track_id: None, audio_transcode_to },
                        ),
                    ),
                ),
                (Some(track_id), Some((from, to))) => match usize_from_digits(s, from, to) {
                    Some(audio_track_id) => Ok(
                        Some(
                            UrlType::Playlist(
                                Playlist {
                                    track_id,
                                    audio_track_id: Some(audio_track_id),
                                    audio_transcode_to,
                                },
                            ),
                        ),
                    ),
                    None => Err(NumberTooLarge),
                },
                (None, _) => Err(NumberTooLarge),
            };
        }
        end -= 1;
    }
    Ok(None)
}

/// The span of the segment number, if there is one, and the end of the suffix.
fn parse_segment_suffix(s: &[char], pos: usize) -> (found: Option<
    (Option<(usize, usize)>, usize),
>)
    requires
        pos <= s@.len(),
    ensures
        match found {
            Some((Some((from, to)), end)) => from <= to <= s@.len() && end <= s@.len() && (forall|
                i: int,
            |
                from <= i < to ==> is_digit(#[trigger] s@[i])) && segment_suffix(s@, pos as int)
                == Some((Some(number(s@.subrange(from as int, to as int))), end as int)),
            Some((None, end)) => end <= s@.len() && segment_suffix(s@, pos as int) == Some(
                (None::<nat>, end as int),
            ),
            None => segment_suffix(s@, pos as int) is None,
        },
{
    proof {
        reveal_strlit(".");
        reveal_strlit("m4s");
        reveal_strlit("init");
        reveal_strlit("mp4");
    }
    if !word_at(s, pos, ".") {
        return None;
    }
    let digits: usize = find_digits_end(s, pos + 1);
    let numbered: bool = digits > pos + 1;
    let dot: usize = if numbered {
        digits
    } else {
        pos
    };
    let segment: Option<(usize, usize)> = if numbered {
        Some((pos + 1, digits))
    } else {
        None
    };
    if !word_at(s, dot, ".") {
        None
    } else if word_at(s, dot + 1, "m4s") {
        if numbered {
            Some((segment, dot + 4))
        } else {
            None
        }
    } else if word_at(s, dot + 1, "init") && s.len() - dot >= 9 && s[dot + 5] != '\n' && word_at(
        s,
        dot + 6,
        "mp4",
    ) {
        if numbered && s[dot + 5] == '.' {
            None
        } else {
            Some((segment, dot + 9))
        }
    } else {
        None
    }
}

fn parse_codec_suffix(s: &[char], pos: usize) -> (found: Option<(Option<String>, usize)>)
    requires
        pos <= s@.len(),
    ensures
        match found {
            Some((codec, end)) => end <= s@.len() && codec_suffix(s@, pos as int) == Some(
                (opt_text(codec), end as int),
            ),
            None => codec_suffix(s@, pos as int) is None,
        },
{
    proof {
        reveal_strlit("-");
    }
    if !word_at(s, pos, "-") {
        return Some((None, pos));
    }
    let end: usize = find_lower_end(s, pos + 1);
    if end > pos + 1 {
        Some((Some(text_of(s, pos + 1, end)), end))
    } else {
        None
    }
}

/// Reads the number in a span, if there is a span.
fn usize_from_span(s: &[char], span: Option<(usize, usize)>) -> (n: Result<
    Option<usize>,
    NumberTooLarge,
>)
    requires
        span matches Some((from, to)) ==> from <= to <= s@.len() && forall|i: int|
            from <= i < to ==> is_digit(#[trigger] s@[i]),
    ensures
        match span {
            None => n == Ok::<Option<usize>, NumberTooLarge>(None),
            Some((from, to)) => match n {
                Ok(v) => opt_nat(v) == Some(number(s@.subrange(from as int, to as int))),
                Err(_) => number(s@.subrange(from as int, to as int)) > usize::MAX,
            },
        },
{
    match span {
        None => Ok(None),
        Some((from, to)) => match usize_from_digits(s, from, to) {
            Some(v) => Ok(Some(v)),
            None => Err(NumberTooLarge),
        },
    }
}

fn parse_audio(s: &[char]) -> (r: Result<Option<UrlType>, NumberTooLarge>)
    ensures
        reads_as(
            r,
            match audio_name(s@) {
                Some(a) => Some(UrlTypeView::AudioSegment(a)),
                None => None,
            },
        ),
{
    proof {
        reveal_strlit("a/");
    }
    if !word_at(s, 0, "a/") {
        return Ok(None);
    }
    let digits: usize = find_digits_end(s, 2);
    if digits == 2 {
        return Ok(None);
    }
    let (transcode_to, pos): (Option<String>, usize) = match parse_codec_suffix(s, digits) {
        Some(found) => found,
        None => {
            return Ok(None);
        },
    };
    let (span, end): (Option<(usize, usize)>, usize) = match parse_segment_suffix(s, pos) {
        Some(found) => found,
        None => {
            return Ok(None);
        },
    };
    if end != s.len() {
        return Ok(None);
    }
    let track_id: usize = match usize_from_digits(s, 2, digits) {
        Some(n) => n,
        None => {
            return Err(NumberTooLarge);
        },
    };
    let segment_id: Option<usize> = match usize_from_span(s, span) {
        Ok(n) => n,
        Err(e) => {
            return Err(e);
        },
    };
    Ok(Some(UrlType::AudioSegment(AudioSegment { track_id, transcode_to, segment_id })))
}

fn parse_video(s: &[char]) -> (r: Result<Option<UrlType>, NumberTooLarge>)
    ensures
        reads_as(
            r,
            match video_name(s@) {
                Some(v) => Some(UrlTypeView::VideoSegment(v)),
                None => None,
            },
        ),
{
    proof {
        reveal_strlit("v/");
        reveal_strlit("+");
    }
    if !word_at(s, 0, "v/") {
        return Ok(None);
    }
    let digits: usize = find_digits_end(s, 2);
    if digits == 2 {
        return Ok(None);
    }
    let mut audio: Option<(usize, usize)> = None;
    let mut audio_transcode_to: Option<String> = None;
    let mut pos: usize = digits;
    if word_at(s, digits, "+") {
        let audio_digits: usize = find_digits_end(s, digits + 1);
        if audio_digits == digits + 1 {
            return Ok(None);
        }
        match parse_codec_suffix(s, audio_digits) {
            Some((codec, end)) => {
                audio = Some((digits + 1, audio_digits));
                audio_transcode_to = codec;
                pos = end;
            },
            None => {
                return Ok(None);
            },
        }
    }
    let (span, _end): (Option<(usize, usize)>, usize) = match parse_segment_suffix(s, pos) {
        Some(found) => found,
        None => {
            return Ok(None);
        },
    };
    let track_id: usize = match usize_from_digits(s, 2, digits) {
        Some(n) => n,
        None => {
            return Err(NumberTooLarge);
        },
    };
    let audio_track_id: Option<usize> = match usize_from_span(s, audio) {
        Ok(n) => n,
        Err(e) => {
            return Err(e);
        },
    };
    let segment_id: Option<usize> = match usize_from_span(s, span) {
        Ok(n) => n,
        Err(e) => {
            return Err(e);
        },
    };
    Ok(
        Some(
            UrlType::VideoSegment(
                VideoSegment { track_id, audio_track_id, audio_transcode_to, segment_id },
            ),
        ),
    )
}

fn parse_vtt(s: &[char]) -> (r: Result<Option<UrlType>, NumberTooLarge>)
    ensures
        reads_as(
            r,
            match vtt_name(s@) {
                Some(v) => Some(UrlTypeView::VttSegment(v)),
                None => None,
            },
        ),
{
    proof {
        reveal_strlit("s/");
        reveal_strlit(".");
        reveal_strlit("-");
        reveal_strlit(".vtt");
    }
    if !word_at(s, 0, "s/") {
        return Ok(None);
    }
    let digits: usize = find_digits_end(s, 2);
    if digits == 2 || !word_at(s, digits, ".") {
        return Ok(None);
    }
    let start: usize = find_digits_end(s, digits + 1);
    if start == digits + 1 || !word_at(s, start, "-") {
        return Ok(None);
    }
    let end: usize = find_digits_end(s, start + 1);
    if end == start + 1 || !word_at(s, end, ".vtt") || s.len() - end != 4 {
        return Ok(None);
    }
    match (
        usize_from_digits(s, 2, digits),
        usize_from_digits(s, digits + 1, start),
        usize_from_digits(s, start + 1, end),
    ) {
        (Some(track_id), Some(start_cue), Some(end_cue)) => Ok(
            Some(UrlType::VttSegment(VttSegment { track_id, start_cue, end_cue })),
        ),
        _ => Err(NumberTooLarge),
    }
}

fn parse_item(s: &[char]) -> (r: Result<Option<UrlType>, NumberTooLarge>)
    ensures
        reads_as(r, item_name(s@)),
{
    match parse_playlist(s) {
        Ok(None) => {},
        found => {
            return found;
        },
    }
    match parse_audio(s) {
        Ok(None) => {},
        found => {
            return found;
        },
    }
    match parse_video(s) {
        Ok(None) => {},
        found => {
            return found;
        },
    }
    parse_vtt(s)
}

fn ends_in_word(s: &[char], to: usize, word: &str) -> (b: bool)
    requires
        to <= s@.len(),
    ensures
        b == ends_behind_something(s@.take(to as int), word@),
{
    let len: usize = chars_of(word).len();
    if to <= len {
        return false;
    }
    let b: bool = word_at(s, to - len, word);
    proof {
        assert(s@.take(to as int).subrange(to - len, to as int) =~= s@.subrange(
            to - len,
            to as int,
        ));
    }
    b
}

fn is_video_url_upto(s: &[char], to: usize) -> (b: bool)
    requires
        to <= s@.len(),
    ensures
        b == is_video_url(s@.take(to as int)),
{
    let line: bool = is_one_line(s, 0, to);
    proof {
        let t = s@.take(to as int);
        assert(one_line(t, 0, to as int) == one_line(s@, 0, to as int)) by {
            if one_line(t, 0, to as int) {
                assert forall|i: int| 0 <= i < to implies #[trigger] s@[i] != '\n' by {
                    assert(t[i] == s@[i]);
                }
            }
        }
    }
    line && (ends_in_word(s, to, ".mp4") || ends_in_word(s, to, ".m4v") || ends_in_word(
        s,
        to,
        ".mkv",
    ) || ends_in_word(s, to, ".webm"))
}

fn find_slash(s: &[char], from: usize) -> (pos: usize)
    requires
        from <= s@.len(),
    ensures
        pos == slash_from(s@, from as int),
        from <= pos <= s@.len(),
{
    let mut pos: usize = from;
    while pos < s.len() && s[pos] != '/'
        invariant
            from <= pos <= s@.len(),
            slash_from(s@, pos as int) == slash_from(s@, from as int),
        decreases s.len() - pos,
    {
        pos += 1;
    }
    pos
}

fn is_split(s: &[char], n: usize) -> (b: bool)
    requires
        n <= s@.len(),
    ensures
        b == splits_at(s@, n as int),
{
    if n == s.len() || s[n] != '/' || !is_video_url_upto(s, n) {
        return false;
    }
    let slash: usize = find_slash(s, n + 1);
    n + 1 < slash && slash < s.len() && slash + 1 < s.len() && is_one_line(s, slash + 1, s.len())
}

fn find_video_url_end(s: &[char]) -> (found: Option<usize>)
    ensures
        match found {
            Some(n) => video_url_end(s@, s@.len() as int) == Some(n as int) && splits_at(
                s@,
                n as int,
            ),
            None => video_url_end(s@, s@.len() as int) is None,
        },
{
    let mut n: usize = s.len();
    loop
        invariant
            n <= s@.len(),
            video_url_end(s@, n as int) == video_url_end(s@, s@.len() as int),
        decreases n,
    {
        if is_split(s, n) {
            return Some(n);
        }
        if n == 0 {
            assert(video_url_end(s@, -1) is None);
            return None;
        }
        n -= 1;
    }
}

impl HlsParams {
    /// Reads a stream URL: `None` if it is none, an error if one of its numbers does not
    /// fit.
    pub fn try_parse(url: &str) -> (r: Result<Option<HlsParams>, NumberTooLarge>)
        ensures
            match parsed(url@) {
                None => r matches Ok(None),
                Some(view) => if fits(view.url_type) {
                    r matches Ok(Some(params)) && params@ == view
                } else {
                    r is Err
                },
            },
    {
        let chars: Vec<char> = chars_of(url);
        let s: &[char] = chars.as_slice();
        let len: usize = s.len();
        proof {
            reveal_strlit(".as.m3u8");
        }
        if len >= 8 && word_at(s, len - 8, ".as.m3u8") && is_video_url_upto(s, len - 8) {
            let video_url: String = text_of(s, 0, len - 8);
            return Ok(
                Some(HlsParams { url_type: UrlType::MainPlaylist, session_id: None, video_url }),
            );
        }
        let n: usize = match find_video_url_end(s) {
            Some(n) => n,
            None => {
                return Ok(None);
            },
        };
        let slash: usize = find_slash(s, n + 1);
        let item: &[char] = vstd::slice::slice_subrange(s, slash + 1, len);
        match parse_item(item) {
            Err(e) => Err(e),
            Ok(None) => Ok(None),
            Ok(Some(url_type)) => Ok(
                Some(
                    HlsParams {
                        url_type,
                        session_id: Some(text_of(s, n + 1, slash)),
                        video_url: text_of(s, 0, n),
                    },
                ),
            ),
        }
    }

    /// Reads a stream URL whose numbers fit.
    pub fn parse(url: &str) -> (r: Option<HlsParams>)
        requires
            parsed(url@) matches Some(view) ==> fits(view.url_type),
        ensures
            match parsed(url@) {
                None => r is None,
                Some(view) => r matches Some(params) && params@ == view,
            },
    {
        match HlsParams::try_parse(url) {
            Ok(found) => found,
            Err(_) => None,
        }
    }
}

/// What follows the last slash of a path.
pub fn basename(s: &str) -> (base: String)
    ensures
        base@ == base_name(s@),
{
    let chars: Vec<char> = chars_of(s);
    let mut start: usize = chars.len();
    assert(chars@.take(chars@.len() as int) =~= chars@);
    while start > 0 && chars[start - 1] != '/'
        invariant
            start <= chars@.len(),
            chars@ == s@,
            base_start(chars@.take(start as int)) == base_start(chars@),
        decreases start,
    {
        assert(chars@.take(start as int).drop_last() =~= chars@.take(start - 1));
        start -= 1;
    }
    text_of(chars.as_slice(), start, chars.len())
}

fn push_codec(out: &mut String, codec: &Option<String>)
    ensures
        final(out)@ == old(out)@ + codec_text(opt_text(*codec)),
{
    if let Some(c) = codec {
        out.push_str("-");
        out.push_str(c.as_str());
    }
    assert(out@ =~= old(out)@ + codec_text(opt_text(*codec)));
}

fn push_audio(out: &mut String, audio: Option<usize>, codec: &Option<String>)
    ensures
        final(out)@ == old(out)@ + audio_text(opt_nat(audio), opt_text(*codec)),
{
    if let Some(a) = audio {
        out.push_str("+");
        push_decimal(out, a as u64);
        push_codec(out, codec);
    }
    assert(out@ =~= old(out)@ + audio_text(opt_nat(audio), opt_text(*codec)));
}

fn push_segment(out: &mut String, segment: Option<usize>)
    ensures
        final(out)@ == old(out)@ + segment_text(opt_nat(segment)),
{
    match segment {
        Some(n) => {
            out.push_str(".");
            push_decimal(out, n as u64);
            out.push_str(".m4s");
        },
        None => {
            out.push_str(".init.mp4");
        },
    }
    assert(out@ =~= old(out)@ + segment_text(opt_nat(segment)));
}

impl Playlist {
    /// The name of the playlist below its session.
    pub fn encode(&self) -> (name: String)
        ensures
            name@ == playlist_text(self@),
    {
        let mut out = String::new();
        out.push_str("t.");
        push_decimal(&mut out, self.track_id as u64);
        push_audio(&mut out, self.audio_track_id, &self.audio_transcode_to);
        out.push_str(".m3u8");
        assert(out@ =~= playlist_text(self@));
        out
    }
}

impl VideoSegment {
    /// The name of the segment below its session.
    pub fn encode(&self) -> (name: String)
        ensures
            name@ == video_text(self@),
    {
        let mut out = String::new();
        out.push_str("v/");
        push_decimal(&mut out, self.track_id as u64);
        push_audio(&mut out, self.audio_track_id, &self.audio_transcode_to);
        push_segment(&mut out, self.segment_id);
        assert(out@ =~= video_text(self@));
        out
    }
}

impl AudioSegment {
    /// The name of the segment below its session.
    pub fn encode(&self) -> (name: String)
        ensures
            name@ == audio_segment_text(self@),
    {
        let mut out = String::new();
        out.push_str("a/");
        push_decimal(&mut out, self.track_id as u64);
        push_codec(&mut out, &self.transcode_to);
        push_segment(&mut out, self.segment_id);
        assert(out@ =~= audio_segment_text(self@));
        out
    }
}

impl VttSegment {
    /// The name of the segment below its session.
    pub fn encode(&self) -> (name: String)
        ensures
            name@ == vtt_text(self@),
    {
        let mut out = String::new();
        out.push_str("s/");
        push_decimal(&mut out, self.track_id as u64);
        out.push_str(".");
        push_decimal(&mut out, self.start_cue as u64);
        out.push_str("-");
        push_decimal(&mut out, self.end_cue as u64);
        out.push_str(".vtt");
        assert(out@ =~= vtt_text(self@));
        out
    }
}

/// A copy of an optional text.
pub(crate) fn copied(s: &Option<String>) -> (out: Option<String>)
    ensures
        opt_text(out) == opt_text(*s),
{
    match s {
        Some(t) => Some(t.clone()),
        None => None,
    }
}

/// What a URL type names `offset` segments later: nothing but for numbered segments.
pub open spec fn moved(url_type: UrlTypeView, offset: nat) -> Option<UrlTypeView> {
    match url_type {
        UrlTypeView::VideoSegment(v) => match v.segment_id {
            Some(id) => Some(
                UrlTypeView::VideoSegment(VideoSegmentView { segment_id: Some(id + offset), ..v }),
            ),
            None => None,
        },
        UrlTypeView::AudioSegment(a) => match a.segment_id {
            Some(id) => Some(
                UrlTypeView::AudioSegment(AudioSegmentView { segment_id: Some(id + offset), ..a }),
            ),
            None => None,
        },
        _ => None,
    }
}

/// The MIME type of what a URL names.
pub open spec fn mime_type_of(url_type: UrlTypeView) -> Seq<char> {
    match url_type {
        UrlTypeView::MainPlaylist => "application/vnd.apple.mpegurl"@,
        UrlTypeView::Playlist(_) => "application/vnd.apple.mpegurl"@,
        UrlTypeView::VideoSegment(v) => if v.segment_id is None {
            "video/mp4"@
        } else {
            "video/iso.segment"@
        },
        UrlTypeView::AudioSegment(a) => if a.segment_id is None {
            "video/mp4"@
        } else {
            "audio/mp4"@
        },
        UrlTypeView::VttSegment(_) => "text/vtt"@,
    }
}

impl HlsParams {
    /// The URL, relative to the playlist that it stands in.
    pub fn encode_url(&self) -> (url: String)
        ensures
            url@ == encoded(self@),
    {
        match &self.url_type {
            UrlType::MainPlaylist => {
                let mut out: String = basename(self.video_url.as_str());
                out.push_str(".as.m3u8");
                out
            },
            UrlType::Playlist(p) => {
                let mut out: String = basename(self.video_url.as_str());
                out.push_str("/");
                if let Some(id) = &self.session_id {
                    out.push_str(id.as_str());
                    out.push_str("/");
                }
                let name: String = p.encode();
                out.push_str(name.as_str());
                assert(out@ =~= encoded(self@));
                out
            },
            UrlType::VideoSegment(s) => s.encode(),
            UrlType::AudioSegment(s) => s.encode(),
            UrlType::VttSegment(s) => s.encode(),
        }
    }

    /// The MIME type of what the URL names.
    pub fn mime_type(&self) -> (mime: &'static str)
        ensures
            mime@ == mime_type_of(self@.url_type),
    {
        match &self.url_type {
            UrlType::MainPlaylist => "application/vnd.apple.mpegurl",
            UrlType::Playlist(_) => "application/vnd.apple.mpegurl",
            UrlType::VideoSegment(v) => if v.segment_id.is_none() {
                "video/mp4"
            } else {
                "video/iso.segment"
            },
            UrlType::AudioSegment(a) => if a.segment_id.is_none() {
                "video/mp4"
            } else {
                "audio/mp4"
            },
            UrlType::VttSegment(_) => "text/vtt",
        }
    }

    /// How long what the URL names may be cached: playlists not at all.
    pub fn cache_control(&self) -> (control: &'static str)
        ensures
            control@ == if self.url_type is MainPlaylist || self.url_type is Playlist {
                "no-cache"@
            } else {
                "max-age=3600"@
            },
    {
        match &self.url_type {
            UrlType::MainPlaylist => "no-cache",
            UrlType::Playlist(_) => "no-cache",
            _ => "max-age=3600",
        }
    }

    /// What the URL names `offset` segments later; `None` for initialization segments,
    /// playlists and subtitles.
    pub fn with_segment_offset(&self, offset: usize) -> (r: Option<HlsParams>)
        requires
            moved(self@.url_type, offset as nat) matches Some(view) ==> fits(view),
        ensures
            match moved(self@.url_type, offset as nat) {
                None => r is None,
                Some(url_type) => r matches Some(params) && params@ == (ParamsView {
                    url_type,
                    ..self@
                }),
            },
    {
        let url_type: UrlType = match &self.url_type {
            UrlType::VideoSegment(v) => match v.segment_id {
                Some(id) => UrlType::VideoSegment(
                    VideoSegment {
                        track_id: v.track_id,
                        audio_track_id: v.audio_track_id,
                        audio_transcode_to: copied(&v.audio_transcode_to),
                        segment_id: Some(id + offset),
                    },
                ),
                None => {
                    return None;
                },
            },
            UrlType::AudioSegment(a) => match a.segment_id {
                Some(id) => UrlType::AudioSegment(
                    AudioSegment {
                        track_id: a.track_id,
                        transcode_to: copied(&a.transcode_to),
                        segment_id: Some(id + offset),
                    },
                ),
                None => {
                    return None;
                },
            },
            _ => {
                return None;
            },
        };
        Some(
            HlsParams {
                url_type,
                session_id: copied(&self.session_id),
                video_url: self.video_url.clone(),
            },
        )
    }
}

} // verus!
