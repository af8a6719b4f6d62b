//! The grammar of stream URLs.
//!
//! Below the URL of a video file stand its main playlist (`<video>.as.m3u8`) and, behind
//! a session id, the playlists and segments of its tracks (`<video>/<session>/<item>`).

use vstd::prelude::*;
use crate::text::decimal;

verus! {

/// What a stream URL names, with numbers of any size.
pub struct ParamsView {
    pub url_type: UrlTypeView,
    pub session_id: Option<Seq<char>>,
    pub video_url: Seq<char>,
}

pub enum UrlTypeView {
    MainPlaylist,
    Playlist(PlaylistView),
    VideoSegment(VideoSegmentView),
    AudioSegment(AudioSegmentView),
    VttSegment(VttSegmentView),
}

pub struct PlaylistView {
    pub track_id: nat,
    pub audio_track_id: Option<nat>,
    pub audio_transcode_to: Option<Seq<char>>,
}

pub struct VideoSegmentView {
    pub track_id: nat,
    pub audio_track_id: Option<nat>,
    pub audio_transcode_to: Option<Seq<char>>,
    pub segment_id: Option<nat>,
}

pub struct AudioSegmentView {
    pub track_id: nat,
    pub transcode_to: Option<Seq<char>>,
    pub segment_id: Option<nat>,
}

pub struct VttSegmentView {
    pub track_id: nat,
    pub start_cue: nat,
    pub end_cue: nat,
}

pub open spec fn is_digit(c: char) -> bool {
    '0' <= c <= '9'
}

pub open spec fn is_lower(c: char) -> bool {
    'a' <= c <= 'z'
}

/// The number that a run of decimal digits spells.
pub open spec fn number(digits: Seq<char>) -> nat
    decreases digits.len(),
{
    if digits.len() == 0 {
        0
    } else {
        number(digits.drop_last()) * 10 + (digits.last() as nat - '0' as nat) as nat
    }
}

/// `word` stands at `pos`.
pub open spec fn at(s: Seq<char>, pos: int, word: Seq<char>) -> bool {
    0 <= pos && pos + word.len() <= s.len() && s.subrange(pos, pos + word.len()) == word
}

/// A character other than a line break stands at `pos`.
pub open spec fn any_at(s: Seq<char>, pos: int) -> bool {
    0 <= pos < s.len() && s[pos] != '\n'
}

/// There is no line break from `from` up to `to`.
pub open spec fn one_line(s: Seq<char>, from: int, to: int) -> bool {
    forall|i: int| from <= i < to ==> #[trigger] s[i] != '\n'
}

/// The end of the run of digits that starts at `pos`.
pub open spec fn digits_end(s: Seq<char>, pos: int) -> int
    decreases s.len() - pos,
{
    if 0 <= pos < s.len() && is_digit(s[pos]) {
        digits_end(s, pos + 1)
    } else {
        pos
    }
}

/// The end of the run of lower case letters that starts at `pos`.
pub open spec fn lower_end(s: Seq<char>, pos: int) -> int
    decreases s.len() - pos,
{
    if 0 <= pos < s.len() && is_lower(s[pos]) {
        lower_end(s, pos + 1)
    } else {
        pos
    }
}

/// The longest codec name that starts at `from`, ends at `end` or before it, and has one
/// more character and `m3u8` behind it: where it ends.
pub open spec fn codec_end(s: Seq<char>, from: int, end: int) -> Option<int>
    decreases end - from,
{
    if end <= from {
        None
    } else if one_line(s, from, end + 1) && at(s, end + 1, "m3u8"@) {
        Some(end)
    } else {
        codec_end(s, from, end - 1)
    }
}

/// What follows the track numbers of a playlist name: `-<codec>`, if there is one, and
/// the suffix, whose first character may be any.
pub open spec fn playlist_tail(s: Seq<char>, pos: int) -> Option<Option<Seq<char>>> {
    if at(s, pos, "-"@) && codec_end(s, pos + 1, s.len() as int) is Some {
        Some(Some(s.subrange(pos + 1, codec_end(s, pos + 1, s.len() as int)->Some_0)))
    } else if any_at(s, pos) && at(s, pos + 1, "m3u8"@) {
        Some(None)
    } else {
        None
    }
}

/// The longest run of digits that starts at `from`, ends at `end` or before it, and has
/// a playlist tail behind it: where it ends.
pub open spec fn audio_number_end(s: Seq<char>, from: int, end: int) -> Option<int>
    decreases end - from,
{
    if end <= from {
        None
    } else if playlist_tail(s, end) is Some {
        Some(end)
    } else {
        audio_number_end(s, from, end - 1)
    }
}

/// What follows the first track number of a playlist name: `+<audio track>`, if there
/// is one, and the tail.
pub open spec fn playlist_audio(s: Seq<char>, pos: int) -> Option<
    (Option<nat>, Option<Seq<char>>),
> {
    let end = audio_number_end(s, pos + 1, digits_end(s, pos + 1));
    if at(s, pos, "+"@) && end is Some {
        Some(
            (
                Some(number(s.subrange(pos + 1, end->Some_0))),
                playlist_tail(s, end->Some_0)->Some_0,
            ),
        )
    } else if playlist_tail(s, pos) is Some {
        Some((None, playlist_tail(s, pos)->Some_0))
    } else {
        None
    }
}

/// The playlist name whose first track number ends at `end` or, failing that, before it.
pub open spec fn playlist_from(s: Seq<char>, end: int) -> Option<PlaylistView>
    decreases end,
{
    if end <= 2 {
        None
    } else if playlist_audio(s, end) is Some {
        let (audio_track_id, audio_transcode_to) = playlist_audio(s, end)->Some_0;
        Some(
            PlaylistView { track_id: number(s.subrange(2, end)), audio_track_id, audio_transcode_to },
        )
    } else {
        playlist_from(s, end - 1)
    }
}

/// `t.<track>.m3u8`, `t.<track>+<audio track>.m3u8`, and either with `-<codec>` in front
/// of the suffix. The longest reading of each part counts; anything may follow.
pub open spec fn playlist_name(s: Seq<char>) -> Option<PlaylistView> {
    if at(s, 0, "t"@) && any_at(s, 1) {
        playlist_from(s, digits_end(s, 2))
    } else {
        None
    }
}

/// `.<segment>.m4s` or `.init.mp4`: the segment number, if there is one, and where the
/// suffix ends.
pub open spec fn segment_suffix(s: Seq<char>, pos: int) -> Option<(Option<nat>, int)> {
    let digits = digits_end(s, pos + 1);
    let numbered = at(s, pos, "."@) && digits > pos + 1;
    let dot = if numbered {
        digits
    } else {
        pos
    };
    let segment = if numbered {
        Some(number(s.subrange(pos + 1, digits)))
    } else {
        None
    };
    if !at(s, dot, "."@) {
        None
    } else if at(s, dot + 1, "m4s"@) {
        if numbered {
            Some((segment, dot + 4))
        } else {
            None
        }
    } else if at(s, dot + 1, "init"@) && any_at(s, dot + 5) && at(s, dot + 6, "mp4"@) {
        if numbered && s[dot + 5] == '.' {
            None
        } else {
            Some((segment, dot + 9))
        }
    } else {
        None
    }
}

/// `-<codec>`, in lower case letters, if a dash stands at `pos`: the codec, and where it
/// ends.
pub open spec fn codec_suffix(s: Seq<char>, pos: int) -> Option<(Option<Seq<char>>, int)> {
    let end = lower_end(s, pos + 1);
    if !at(s, pos, "-"@) {
        Some((None, pos))
    } else if end > pos + 1 {
        Some((Some(s.subrange(pos + 1, end)), end))
    } else {
        None
    }
}

/// `a/<track>`, `-<codec>` if there is one, and a segment suffix; nothing may follow.
pub open spec fn audio_name(s: Seq<char>) -> Option<AudioSegmentView> {
    let digits = digits_end(s, 2);
    let codec = codec_suffix(s, digits);
    let suffix = segment_suffix(s, codec->Some_0.1);
    if at(s, 0, "a/"@) && digits > 2 && codec is Some && suffix is Some && suffix->Some_0.1
        == s.len() {
        Some(
            AudioSegmentView {
                track_id: number(s.subrange(2, digits)),
                transcode_to: codec->Some_0.0,
                segment_id: suffix->Some_0.0,
            },
        )
    } else {
        None
    }
}

/// `v/<track>`, `+<audio track>` if there is one, with `-<codec>` if there is one, and a
/// segment suffix; anything may follow.
pub open spec fn video_name(s: Seq<char>) -> Option<VideoSegmentView> {
    let digits = digits_end(s, 2);
    let interleaved = at(s, digits, "+"@);
    let audio_digits = digits_end(s, digits + 1);
    let codec = if interleaved {
        codec_suffix(s, audio_digits)
    } else {
        Some((None, digits))
    };
    let suffix = segment_suffix(s, codec->Some_0.1);
    if at(s, 0, "v/"@) && digits > 2 && (interleaved ==> audio_digits > digits + 1) && codec is Some
        && suffix is Some {
        Some(
            VideoSegmentView {
                track_id: number(s.subrange(2, digits)),
                audio_track_id: if interleaved {
                    Some(number(s.subrange(digits + 1, audio_digits)))
                } else {
                    None
                },
                audio_transcode_to: codec->Some_0.0,
                segment_id: suffix->Some_0.0,
            },
        )
    } else {
        None
    }
}

/// `s/<track>.<first>-<last>.vtt`; nothing may follow.
pub open spec fn vtt_name(s: Seq<char>) -> Option<VttSegmentView> {
    let digits = digits_end(s, 2);
    let start = digits_end(s, digits + 1);
    let end = digits_end(s, start + 1);
    if at(s, 0, "s/"@) && digits > 2 && at(s, digits, "."@) && start > digits + 1 && at(
        s,
        start,
        "-"@,
    ) && end > start + 1 && at(s, end, ".vtt"@) && end + 4 == s.len() {
        Some(
            VttSegmentView {
                track_id: number(s.subrange(2, digits)),
                start_cue: number(s.subrange(digits + 1, start)),
                end_cue: number(s.subrange(start + 1, end)),
            },
        )
    } else {
        None
    }
}

/// The playlist or segment that a name below a session stands for.
pub open spec fn item_name(s: Seq<char>) -> Option<UrlTypeView> {
    if playlist_name(s) is Some {
        Some(UrlTypeView::Playlist(playlist_name(s)->Some_0))
    } else if audio_name(s) is Some {
        Some(UrlTypeView::AudioSegment(audio_name(s)->Some_0))
    } else if video_name(s) is Some {
        Some(UrlTypeView::VideoSegment(video_name(s)->Some_0))
    } else if vtt_name(s) is Some {
        Some(UrlTypeView::VttSegment(vtt_name(s)->Some_0))
    } else {
        None
    }
}

/// `s` ends in `word`, with something in front of it.
pub open spec fn ends_behind_something(s: Seq<char>, word: Seq<char>) -> bool {
    s.len() > word.len() && at(s, s.len() - word.len(), word)
}

/// The URL of a video file: one line that ends in `.mp4`, `.m4v`, `.mkv` or `.webm`.
pub open spec fn is_video_url(s: Seq<char>) -> bool {
    one_line(s, 0, s.len() as int) && (ends_behind_something(s, ".mp4"@) || ends_behind_something(
        s,
        ".m4v"@,
    ) || ends_behind_something(s, ".mkv"@) || ends_behind_something(s, ".webm"@))
}

/// The position of the first slash at `pos` or behind it; the length if there is none.
pub open spec fn slash_from(s: Seq<char>, pos: int) -> int
    decreases s.len() - pos,
{
    if 0 <= pos < s.len() && s[pos] != '/' {
        slash_from(s, pos + 1)
    } else {
        pos
    }
}

/// The first `n` characters are a video URL, and a session id and a name follow.
pub open spec fn splits_at(s: Seq<char>, n: int) -> bool {
    let slash = slash_from(s, n + 1);
    0 <= n < s.len() && s[n] == '/' && is_video_url(s.take(n)) && n + 1 < slash && slash + 1
        < s.len() && one_line(s, slash + 1, s.len() as int)
}

/// The longest video URL, of at most `n` characters, that splits `s`.
pub open spec fn video_url_end(s: Seq<char>, n: int) -> Option<int>
    decreases n + 1,
{
    if n < 0 {
        None
    } else if splits_at(s, n) {
        Some(n)
    } else {
        video_url_end(s, n - 1)
    }
}

/// What a stream URL names.
pub open spec fn parsed(url: Seq<char>) -> Option<ParamsView> {
    if at(url, url.len() - 8, ".as.m3u8"@) && is_video_url(url.take(url.len() - 8)) {
        Some(
            ParamsView {
                url_type: UrlTypeView::MainPlaylist,
                session_id: None,
                video_url: url.take(url.len() - 8),
            },
        )
    } else {
        match video_url_end(url, url.len() as int) {
            None => None,
            Some(n) => {
                let slash = slash_from(url, n + 1);
                match item_name(url.subrange(slash + 1, url.len() as int)) {
                    None => None,
                    Some(url_type) => Some(
                        ParamsView {
                            url_type,
                            session_id: Some(url.subrange(n + 1, slash)),
                            video_url: url.take(n),
                        },
                    ),
                }
            },
        }
    }
}

/// Every number fits a `usize`.
pub open spec fn fits(url_type: UrlTypeView) -> bool {
    match url_type {
        UrlTypeView::MainPlaylist => true,
        UrlTypeView::Playlist(p) => p.track_id <= usize::MAX && opt_fits(p.audio_track_id),
        UrlTypeView::VideoSegment(v) => v.track_id <= usize::MAX && opt_fits(v.audio_track_id)
            && opt_fits(v.segment_id),
        UrlTypeView::AudioSegment(a) => a.track_id <= usize::MAX && opt_fits(a.segment_id),
        UrlTypeView::VttSegment(s) => s.track_id <= usize::MAX && s.start_cue <= usize::MAX
            && s.end_cue <= usize::MAX,
    }
}

pub open spec fn opt_fits(n: Option<nat>) -> bool {
    n matches Some(v) ==> v <= usize::MAX
}

/// `-<codec>`, or nothing.
pub open spec fn codec_text(codec: Option<Seq<char>>) -> Seq<char> {
    match codec {
        Some(c) => "-"@ + c,
        None => Seq::empty(),
    }
}

/// `+<audio track>` with its codec, or nothing.
pub open spec fn audio_text(audio: Option<nat>, codec: Option<Seq<char>>) -> Seq<char> {
    match audio {
        Some(a) => "+"@ + decimal(a) + codec_text(codec),
        None => Seq::empty(),
    }
}

/// `.<segment>.m4s`, or `.init.mp4`.
pub open spec fn segment_text(segment: Option<nat>) -> Seq<char> {
    match segment {
        Some(n) => "."@ + decimal(n) + ".m4s"@,
        None => ".init.mp4"@,
    }
}

/// The name of a playlist.
pub open spec fn playlist_text(p: PlaylistView) -> Seq<char> {
    "t."@ + decimal(p.track_id) + audio_text(p.audio_track_id, p.audio_transcode_to) + ".m3u8"@
}

/// The name of a video segment.
pub open spec fn video_text(v: VideoSegmentView) -> Seq<char> {
    "v/"@ + decimal(v.track_id) + audio_text(v.audio_track_id, v.audio_transcode_to) + segment_text(
        v.segment_id,
    )
}

/// The name of an audio segment.
pub open spec fn audio_segment_text(a: AudioSegmentView) -> Seq<char> {
    "a/"@ + decimal(a.track_id) + codec_text(a.transcode_to) + segment_text(a.segment_id)
}

/// The name of a subtitle segment.
pub open spec fn vtt_text(s: VttSegmentView) -> Seq<char> {
    "s/"@ + decimal(s.track_id) + "."@ + decimal(s.start_cue) + "-"@ + decimal(s.end_cue) + ".vtt"@
}

/// The position behind the last slash.
pub open spec fn base_start(s: Seq<char>) -> int
    decreases s.len(),
{
    if s.len() == 0 || s.last() == '/' {
        s.len() as int
    } else {
        base_start(s.drop_last())
    }
}

/// What follows the last slash.
pub open spec fn base_name(s: Seq<char>) -> Seq<char> {
    s.subrange(base_start(s), s.len() as int)
}

/// `<session>/`, or nothing.
pub open spec fn session_text(session: Option<Seq<char>>) -> Seq<char> {
    match session {
        Some(id) => id + "/"@,
        None => Seq::empty(),
    }
}

/// A stream URL relative to the playlist that it stands in: playlists stand in the main
/// playlist, which is beside the video file, segments in a playlist.
pub open spec fn encoded(p: ParamsView) -> Seq<char> {
    match p.url_type {
        UrlTypeView::MainPlaylist => base_name(p.video_url) + ".as.m3u8"@,
        UrlTypeView::Playlist(s) => base_name(p.video_url) + "/"@ + session_text(p.session_id)
            + playlist_text(s),
        UrlTypeView::VideoSegment(s) => video_text(s),
        UrlTypeView::AudioSegment(s) => audio_segment_text(s),
        UrlTypeView::VttSegment(s) => vtt_text(s),
    }
}

} // verus!
