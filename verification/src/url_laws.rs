//! Reading a stream URL undoes writing it.

use vstd::prelude::*;
use crate::params::moved;
use crate::text::decimal;
use crate::url_grammar::{
    at, audio_name, audio_number_end, audio_segment_text, audio_text, base_name, base_start,
    codec_end, codec_suffix, codec_text, digits_end, encoded, ends_behind_something, is_digit,
    is_lower, is_video_url, item_name, lower_end, number, one_line, parsed, playlist_audio,
    playlist_from, playlist_name, playlist_tail, playlist_text, segment_suffix, segment_text,
    slash_from, splits_at, video_name, video_text, video_url_end, vtt_name, vtt_text,
    AudioSegmentView, ParamsView, PlaylistView, UrlTypeView, VideoSegmentView, VttSegmentView,
};

verus! {

/// A number reads back from its decimal digits.
pub proof fn law_decimal_reads_back(n: nat)
    ensures
        number(decimal(n)) == n,
        decimal(n).len() > 0,
        forall|i: int| 0 <= i < decimal(n).len() ==> is_digit(#[trigger] decimal(n)[i]),
    decreases n,
{
    if n < 10 {
        assert(decimal(n).drop_last() =~= Seq::<char>::empty());
        assert(number(decimal(n).drop_last()) == 0);
    } else {
        law_decimal_reads_back(n / 10);
        assert(decimal(n).drop_last() =~= decimal(n / 10));
    }
}

proof fn lemma_digits_end(s: Seq<char>, pos: int, end: int)
    requires
        0 <= pos <= end <= s.len(),
        forall|i: int| pos <= i < end ==> is_digit(#[trigger] s[i]),
        end < s.len() ==> !is_digit(s[end]),
    ensures
        digits_end(s, pos) == end,
    decreases end - pos,
{
    if pos < end {
        assert(is_digit(s[pos]));
        lemma_digits_end(s, pos + 1, end);
    }
}

proof fn lemma_lower_end(s: Seq<char>, pos: int, end: int)
    requires
        0 <= pos <= end <= s.len(),
        forall|i: int| pos <= i < end ==> is_lower(#[trigger] s[i]),
        end < s.len() ==> !is_lower(s[end]),
    ensures
        lower_end(s, pos) == end,
    decreases end - pos,
{
    if pos < end {
        assert(is_lower(s[pos]));
        lemma_lower_end(s, pos + 1, end);
    }
}

proof fn lemma_slash_from(s: Seq<char>, pos: int, end: int)
    requires
        0 <= pos <= end <= s.len(),
        forall|i: int| pos <= i < end ==> #[trigger] s[i] != '/',
        end < s.len() ==> s[end] == '/',
    ensures
        slash_from(s, pos) == end,
    decreases end - pos,
{
    if pos < end {
        assert(s[pos] != '/');
        lemma_slash_from(s, pos + 1, end);
    }
}

/// `a` number written at `pos` is read from there, if no digit follows.
proof fn lemma_number_at(s: Seq<char>, pos: int, n: nat)
    requires
        at(s, pos, decimal(n)),
        pos + decimal(n).len() < s.len() ==> !is_digit(s[pos + decimal(n).len()]),
    ensures
        digits_end(s, pos) == pos + decimal(n).len(),
        digits_end(s, pos) > pos,
        number(s.subrange(pos, digits_end(s, pos))) == n,
{
    law_decimal_reads_back(n);
    let end = pos + decimal(n).len();
    assert forall|i: int| pos <= i < end implies is_digit(#[trigger] s[i]) by {
        assert(s.subrange(pos, end)[i - pos] == s[i]);
    }
    lemma_digits_end(s, pos, end);
}

/// A codec name in a playlist name is read up to the suffix at the end.
proof fn lemma_codec_end(s: Seq<char>, from: int, end: int)
    requires
        0 <= from < s.len() - 5 <= end <= s.len(),
        one_line(s, from, s.len() as int),
        at(s, s.len() - 4, "m3u8"@),
    ensures
        codec_end(s, from, end) == Some(s.len() - 5),
    decreases end,
{
    reveal_strlit("m3u8");
    if end > s.len() - 5 {
        lemma_codec_end(s, from, end - 1);
    }
}

/// The codec of a playlist name can be read back: it goes with an audio track, and it is
/// one line.
pub open spec fn codec_fits_playlist(audio: Option<nat>, codec: Option<Seq<char>>) -> bool {
    codec matches Some(c) ==> audio is Some && c.len() > 0 && one_line(c, 0, c.len() as int)
}

/// The codec of a segment name can be read back: it is made of lower case letters.
pub open spec fn codec_is_lower(codec: Option<Seq<char>>) -> bool {
    codec matches Some(c) ==> c.len() > 0 && forall|i: int|
        0 <= i < c.len() ==> is_lower(#[trigger] c[i])
}

/// A playlist name reads back as the playlist it was written for.
#[verifier::rlimit(30)]
pub proof fn law_playlist_name_reads_back(p: PlaylistView)
    requires
        codec_fits_playlist(p.audio_track_id, p.audio_transcode_to),
    ensures
        playlist_name(playlist_text(p)) == Some(p),
{
    reveal_strlit("t");
    reveal_strlit("t.");
    reveal_strlit("+");
    reveal_strlit("-");
    reveal_strlit(".m3u8");
    reveal_strlit("m3u8");
    let s = playlist_text(p);
    let audio = audio_text(p.audio_track_id, p.audio_transcode_to);
    let track = decimal(p.track_id);
    let n = s.len() as int;
    let e = 2 + track.len() as int;
    lemma_audio_text_starts(p.audio_track_id, p.audio_transcode_to);
    assert(n == e + audio.len() + 5);
    assert(at(s, 2, track)) by {
        assert(s.subrange(2, e) =~= track);
    }
    assert(s[e] == if audio.len() > 0 {
        audio[0]
    } else {
        '.'
    });
    lemma_number_at(s, 2, p.track_id);
    assert(at(s, n - 4, "m3u8"@)) by {
        assert(s.subrange(n - 4, n) =~= "m3u8"@);
    }
    assert(at(s, 0, "t"@)) by {
        assert(s.subrange(0, 1) =~= "t"@);
    }
    assert(s[n - 5] == '.');
    match p.audio_track_id {
        None => {
            lemma_not_at(s, e, '+');
            lemma_not_at(s, e, '-');
            assert(playlist_tail(s, e) == Some(None::<Seq<char>>));
        },
        Some(a) => {
            let d = decimal(a);
            let c = codec_text(p.audio_transcode_to);
            let f = e + 1 + d.len();
            assert(at(s, e, "+"@)) by {
                assert(s.subrange(e, e + 1) =~= "+"@);
            }
            assert(at(s, e + 1, d)) by {
                assert(s.subrange(e + 1, f) =~= d);
            }
            assert(s[f] == if c.len() > 0 {
                '-'
            } else {
                '.'
            });
            lemma_number_at(s, e + 1, a);
            match p.audio_transcode_to {
                None => {
                    lemma_not_at(s, f, '-');
                    assert(playlist_tail(s, f) == Some(None::<Seq<char>>));
                },
                Some(codec) => {
                    assert(at(s, f, "-"@)) by {
                        assert(s.subrange(f, f + 1) =~= "-"@);
                    }
                    assert(s.subrange(f + 1, n - 5) =~= codec);
                    assert forall|i: int| f + 1 <= i < n implies #[trigger] s[i] != '\n' by {
                        if i < n - 5 {
                            assert(s[i] == codec[i - f - 1]);
                        }
                    }
                    lemma_codec_end(s, f + 1, n);
                    assert(playlist_tail(s, f) == Some(Some(codec)));
                },
            }
            assert(audio_number_end(s, e + 1, f) == Some(f));
            assert(playlist_audio(s, e) == Some((Some(a), p.audio_transcode_to)));
        },
    }
    assert(playlist_from(s, e) == Some(p));
}

/// A segment suffix written at `pos`, at the end, is read from there.
proof fn lemma_segment_suffix(s: Seq<char>, pos: int, segment: Option<nat>)
    requires
        at(s, pos, segment_text(segment)),
        pos + segment_text(segment).len() == s.len(),
    ensures
        segment_suffix(s, pos) == Some((segment, s.len() as int)),
        s[pos] == '.',
{
    reveal_strlit(".");
    reveal_strlit(".m4s");
    reveal_strlit("m4s");
    reveal_strlit(".init.mp4");
    reveal_strlit("init");
    reveal_strlit("mp4");
    let text = segment_text(segment);
    let n = s.len() as int;
    assert(s[pos] == text[0]) by {
        assert(s.subrange(pos, n)[0] == s[pos]);
    }
    assert(s.subrange(pos, pos + 1) =~= "."@);
    match segment {
        None => {
            assert forall|i: int| 0 <= i < 9 implies s[pos + i] == #[trigger] text[i] by {
                assert(s.subrange(pos, n)[i] == s[pos + i]);
            }
            assert(s[pos + 1] == text[1]);
            assert(digits_end(s, pos + 1) == pos + 1);
            assert(s.subrange(pos + 1, pos + 5) =~= "init"@) by {
                assert(text[1] == 'i' && text[2] == 'n' && text[3] == 'i' && text[4] == 't');
            }
            assert(s[pos + 5] == text[5]);
            assert(s.subrange(pos + 6, pos + 9) =~= "mp4"@) by {
                assert(text[6] == 'm' && text[7] == 'p' && text[8] == '4');
            }
            assert(s.subrange(pos + 1, pos + 4)[0] == 'i');
        },
        Some(id) => {
            let d = decimal(id);
            law_decimal_reads_back(id);
            let k = d.len() as int;
            assert forall|i: int| 0 <= i < text.len() implies s[pos + i] == #[trigger] text[i] by {
                assert(s.subrange(pos, n)[i] == s[pos + i]);
            }
            let e = pos + 1 + k;
            assert(s.subrange(pos + 1, e) =~= d) by {
                assert forall|i: int| 0 <= i < d.len() implies s[pos + 1 + i] == d[i] by {
                    assert(text[1 + i] == d[i]);
                }
            }
            assert(s[e] == text[1 + k]);
            assert(text[1 + k] == '.');
            lemma_number_at(s, pos + 1, id);
            assert(s.subrange(e, e + 1) =~= "."@);
            assert(s.subrange(e + 1, e + 4) =~= "m4s"@) by {
                assert(text[2 + k] == 'm' && text[3 + k] == '4' && text[4 + k]
                    == 's');
                assert(s[e + 1] == text[2 + k]);
                assert(s[e + 2] == text[3 + k]);
                assert(s[e + 3] == text[4 + k]);
            }
        },
    }
}

/// A codec suffix written at `pos`, in front of a dot, is read from there.
proof fn lemma_codec_suffix(s: Seq<char>, pos: int, codec: Option<Seq<char>>)
    requires
        codec_is_lower(codec),
        at(s, pos, codec_text(codec)),
        pos + codec_text(codec).len() < s.len(),
        s[pos + codec_text(codec).len()] == '.',
    ensures
        codec_suffix(s, pos) == Some((codec, pos + codec_text(codec).len())),
{
    reveal_strlit("-");
    match codec {
        None => {
            assert(s[pos] == '.');
            if at(s, pos, "-"@) {
                assert(s.subrange(pos, pos + 1)[0] == '-');
            }
        },
        Some(c) => {
            let text = codec_text(codec);
            let end = pos + text.len();
            assert forall|i: int| 0 <= i < text.len() implies s[pos + i] == #[trigger] text[i] by {
                assert(s.subrange(pos, end)[i] == s[pos + i]);
            }
            assert(s[pos] == text[0]);
            assert(s.subrange(pos, pos + 1) =~= "-"@);
            assert(s.subrange(pos + 1, end) =~= c) by {
                assert forall|i: int| 0 <= i < c.len() implies s[pos + 1 + i] == c[i] by {
                    assert(text[1 + i] == c[i]);
                }
            }
            assert forall|i: int| pos + 1 <= i < end implies is_lower(#[trigger] s[i]) by {
                assert(s.subrange(pos + 1, end)[i - pos - 1] == s[i]);
                assert(is_lower(c[i - pos - 1]));
            }
            lemma_lower_end(s, pos + 1, end);
        },
    }
}

/// An audio segment name reads back as the segment it was written for.
pub proof fn law_audio_name_reads_back(a: AudioSegmentView)
    requires
        codec_is_lower(a.transcode_to),
    ensures
        audio_name(audio_segment_text(a)) == Some(a),
{
    reveal_strlit("a/");
    reveal_strlit("-");
    let s = audio_segment_text(a);
    let track = decimal(a.track_id);
    let codec = codec_text(a.transcode_to);
    let segment = segment_text(a.segment_id);
    let e = 2 + track.len() as int;
    lemma_segment_text_starts(a.segment_id);
    assert(at(s, 0, "a/"@)) by {
        assert(s.subrange(0, 2) =~= "a/"@);
    }
    assert(at(s, 2, track)) by {
        assert(s.subrange(2, e) =~= track);
    }
    assert(s[e] == if codec.len() > 0 {
        codec[0]
    } else {
        segment[0]
    });
    lemma_number_at(s, 2, a.track_id);
    assert(at(s, e, codec)) by {
        assert(s.subrange(e, e + codec.len()) =~= codec);
    }
    assert(s[e + codec.len()] == segment[0]);
    lemma_codec_suffix(s, e, a.transcode_to);
    assert(at(s, e + codec.len(), segment)) by {
        assert(s.subrange(e + codec.len(), s.len() as int) =~= segment);
    }
    assert(s.len() == e + codec.len() + segment.len());
    lemma_segment_suffix(s, e + codec.len(), a.segment_id);
}

proof fn lemma_segment_text_starts(segment: Option<nat>)
    ensures
        segment_text(segment).len() > 0,
        segment_text(segment)[0] == '.',
{
    reveal_strlit(".");
    reveal_strlit(".m4s");
    reveal_strlit(".init.mp4");
}

/// A video segment name reads back as the segment it was written for.
pub proof fn law_video_name_reads_back(v: VideoSegmentView)
    requires
        codec_is_lower(v.audio_transcode_to),
        v.audio_transcode_to is Some ==> v.audio_track_id is Some,
    ensures
        video_name(video_text(v)) == Some(v),
{
    reveal_strlit("v/");
    let s = video_text(v);
    let track = decimal(v.track_id);
    let audio = audio_text(v.audio_track_id, v.audio_transcode_to);
    let segment = segment_text(v.segment_id);
    let e = 2 + track.len() as int;
    lemma_segment_text_starts(v.segment_id);
    lemma_audio_text_starts(v.audio_track_id, v.audio_transcode_to);
    assert(at(s, 0, "v/"@)) by {
        assert(s.subrange(0, 2) =~= "v/"@);
    }
    assert(at(s, 2, track)) by {
        assert(s.subrange(2, e) =~= track);
    }
    assert(s[e] == if audio.len() > 0 {
        audio[0]
    } else {
        segment[0]
    });
    lemma_number_at(s, 2, v.track_id);
    assert(at(s, e + audio.len(), segment)) by {
        assert(s.subrange(e + audio.len(), s.len() as int) =~= segment);
    }
    assert(s.len() == e + audio.len() + segment.len());
    lemma_segment_suffix(s, e + audio.len(), v.segment_id);
    match v.audio_track_id {
        None => {
            lemma_not_at(s, e, '+');
        },
        Some(a) => {
            assert(at(s, e, audio)) by {
                assert(s.subrange(e, e + audio.len()) =~= audio);
            }
            lemma_audio_part(s, e, a, v.audio_transcode_to);
        },
    }
}

proof fn lemma_audio_text_starts(audio: Option<nat>, codec: Option<Seq<char>>)
    ensures
        audio is Some ==> audio_text(audio, codec).len() > 0 && audio_text(audio, codec)[0] == '+',
        audio is None ==> audio_text(audio, codec).len() == 0,
{
    reveal_strlit("+");
}

/// A single character does not stand where another one does.
proof fn lemma_not_at(s: Seq<char>, pos: int, c: char)
    requires
        0 <= pos < s.len(),
        s[pos] != c,
        c == '+' || c == '-',
    ensures
        c == '+' ==> !at(s, pos, "+"@),
        c == '-' ==> !at(s, pos, "-"@),
{
    reveal_strlit("+");
    reveal_strlit("-");
    assert(s.subrange(pos, pos + 1)[0] == s[pos]);
}

/// An audio track and its codec, written at `pos` in front of a dot, are read from there.
proof fn lemma_audio_part(s: Seq<char>, pos: int, a: nat, codec: Option<Seq<char>>)
    requires
        codec_is_lower(codec),
        at(s, pos, audio_text(Some(a), codec)),
        pos + audio_text(Some(a), codec).len() < s.len(),
        s[pos + audio_text(Some(a), codec).len()] == '.',
    ensures
        ({
            let digits = digits_end(s, pos + 1);
            &&& at(s, pos, "+"@)
            &&& digits > pos + 1
            &&& number(s.subrange(pos + 1, digits)) == a
            &&& codec_suffix(s, digits) == Some((codec, pos + audio_text(Some(a), codec).len()))
        }),
{
    reveal_strlit("+");
    reveal_strlit("-");
    let text = audio_text(Some(a), codec);
    let d = decimal(a);
    let c = codec_text(codec);
    let end = pos + text.len();
    let f = pos + 1 + d.len();
    assert forall|i: int| 0 <= i < text.len() implies s[pos + i] == #[trigger] text[i] by {
        assert(s.subrange(pos, end)[i] == s[pos + i]);
    }
    assert(text[0] == '+');
    assert(at(s, pos, "+"@)) by {
        assert(s.subrange(pos, pos + 1) =~= "+"@);
    }
    assert(at(s, pos + 1, d)) by {
        assert forall|i: int| 0 <= i < d.len() implies s[pos + 1 + i] == #[trigger] d[i] by {
            assert(text[1 + i] == d[i]);
        }
        assert(s.subrange(pos + 1, f) =~= d);
    }
    assert(at(s, f, c)) by {
        assert forall|i: int| 0 <= i < c.len() implies s[f + i] == #[trigger] c[i] by {
            assert(text[1 + d.len() as int + i] == c[i]);
        }
        assert(s.subrange(f, f + c.len()) =~= c);
    }
    assert(!is_digit(s[f])) by {
        if c.len() > 0 {
            assert(s[f] == c[0]);
        }
    }
    lemma_number_at(s, pos + 1, a);
    lemma_codec_suffix(s, f, codec);
}

/// A subtitle segment name reads back as the segment it was written for.
pub proof fn law_vtt_name_reads_back(v: VttSegmentView)
    ensures
        vtt_name(vtt_text(v)) == Some(v),
{
    reveal_strlit("s/");
    reveal_strlit(".");
    reveal_strlit("-");
    reveal_strlit(".vtt");
    let s = vtt_text(v);
    let (t, a, b) = (decimal(v.track_id), decimal(v.start_cue), decimal(v.end_cue));
    let e1 = 2 + t.len() as int;
    let e2 = e1 + 1 + a.len();
    let e3 = e2 + 1 + b.len();
    assert(s.len() == e3 + 4);
    assert(at(s, 0, "s/"@)) by {
        assert(s.subrange(0, 2) =~= "s/"@);
    }
    assert(at(s, 2, t) && s[e1] == '.') by {
        assert(s.subrange(2, e1) =~= t);
    }
    lemma_number_at(s, 2, v.track_id);
    assert(at(s, e1, "."@)) by {
        assert(s.subrange(e1, e1 + 1) =~= "."@);
    }
    assert(at(s, e1 + 1, a) && s[e2] == '-') by {
        assert(s.subrange(e1 + 1, e2) =~= a);
    }
    lemma_number_at(s, e1 + 1, v.start_cue);
    assert(at(s, e2, "-"@)) by {
        assert(s.subrange(e2, e2 + 1) =~= "-"@);
    }
    assert(at(s, e2 + 1, b) && s[e3] == '.') by {
        assert(s.subrange(e2 + 1, e3) =~= b);
    }
    lemma_number_at(s, e2 + 1, v.end_cue);
    assert(at(s, e3, ".vtt"@)) by {
        assert(s.subrange(e3, e3 + 4) =~= ".vtt"@);
    }
}

/// The name of a playlist or segment below its session.
pub open spec fn item_text(url_type: UrlTypeView) -> Seq<char> {
    match url_type {
        UrlTypeView::MainPlaylist => Seq::empty(),
        UrlTypeView::Playlist(p) => playlist_text(p),
        UrlTypeView::VideoSegment(v) => video_text(v),
        UrlTypeView::AudioSegment(a) => audio_segment_text(a),
        UrlTypeView::VttSegment(v) => vtt_text(v),
    }
}

/// The URL under which a playlist or segment is asked for.
pub open spec fn full_url(p: ParamsView) -> Seq<char> {
    if p.url_type is MainPlaylist {
        p.video_url + ".as.m3u8"@
    } else {
        p.video_url + "/"@ + p.session_id->Some_0 + "/"@ + item_text(p.url_type)
    }
}

/// The codec of a name, if it has one, can be read back.
pub open spec fn codec_reads_back(url_type: UrlTypeView) -> bool {
    match url_type {
        UrlTypeView::MainPlaylist => true,
        UrlTypeView::Playlist(p) => codec_fits_playlist(p.audio_track_id, p.audio_transcode_to),
        UrlTypeView::VideoSegment(v) => codec_is_lower(v.audio_transcode_to) && (
        v.audio_transcode_to is Some ==> v.audio_track_id is Some),
        UrlTypeView::AudioSegment(a) => codec_is_lower(a.transcode_to),
        UrlTypeView::VttSegment(_) => true,
    }
}

/// A session id that can stand between two slashes.
pub open spec fn is_session_id(id: Seq<char>) -> bool {
    id.len() > 0 && forall|i: int| 0 <= i < id.len() ==> #[trigger] id[i] != '/'
}

/// Everything that a URL needs to be read back, but for the one reading of it.
pub open spec fn is_sound(p: ParamsView) -> bool {
    &&& is_video_url(p.video_url)
    &&& codec_reads_back(p.url_type)
    &&& if p.url_type is MainPlaylist {
        p.session_id is None
    } else {
        p.session_id matches Some(id) && is_session_id(id)
    }
}

/// The URL is that of a main playlist.
pub open spec fn is_main_url(url: Seq<char>) -> bool {
    at(url, url.len() - 8, ".as.m3u8"@) && is_video_url(url.take(url.len() - 8))
}

/// Nothing behind the video URL makes the URL read as one of a longer video URL, nor as
/// one of a main playlist.
pub open spec fn is_unambiguous(p: ParamsView) -> bool {
    p.url_type is MainPlaylist || (!is_main_url(full_url(p)) && forall|n: int|
        n > p.video_url.len() ==> !#[trigger] splits_at(full_url(p), n))
}

pub open spec fn is_line(s: Seq<char>) -> bool {
    one_line(s, 0, s.len() as int)
}

proof fn lemma_line_concat(a: Seq<char>, b: Seq<char>)
    requires
        is_line(a),
        is_line(b),
    ensures
        is_line(a + b),
{
    assert forall|i: int| 0 <= i < (a + b).len() implies #[trigger] (a + b)[i] != '\n' by {
        if i < a.len() {
            assert(a[i] != '\n');
        } else {
            assert(b[i - a.len()] != '\n');
        }
    }
}

proof fn lemma_decimal_line(n: nat)
    ensures
        is_line(decimal(n)),
{
    law_decimal_reads_back(n);
    assert forall|i: int| 0 <= i < decimal(n).len() implies #[trigger] decimal(n)[i] != '\n' by {
        assert(is_digit(decimal(n)[i]));
    }
}

proof fn lemma_codec_line(codec: Option<Seq<char>>)
    requires
        codec matches Some(c) ==> is_line(c),
    ensures
        is_line(codec_text(codec)),
{
    reveal_strlit("-");
    if let Some(c) = codec {
        lemma_line_concat("-"@, c);
    }
}

proof fn lemma_lower_line(codec: Option<Seq<char>>)
    requires
        codec_is_lower(codec),
    ensures
        codec matches Some(c) ==> is_line(c),
{
    if let Some(c) = codec {
        assert forall|i: int| 0 <= i < c.len() implies #[trigger] c[i] != '\n' by {
            assert(is_lower(c[i]));
        }
    }
}

proof fn lemma_audio_line(audio: Option<nat>, codec: Option<Seq<char>>)
    requires
        codec matches Some(c) ==> is_line(c),
    ensures
        is_line(audio_text(audio, codec)),
{
    reveal_strlit("+");
    if let Some(a) = audio {
        lemma_decimal_line(a);
        lemma_codec_line(codec);
        lemma_line_concat("+"@, decimal(a));
        lemma_line_concat("+"@ + decimal(a), codec_text(codec));
    }
}

proof fn lemma_segment_line(segment: Option<nat>)
    ensures
        is_line(segment_text(segment)),
{
    reveal_strlit(".");
    reveal_strlit(".m4s");
    reveal_strlit(".init.mp4");
    if let Some(n) = segment {
        lemma_decimal_line(n);
        lemma_line_concat("."@, decimal(n));
        lemma_line_concat("."@ + decimal(n), ".m4s"@);
    }
}

proof fn lemma_item_line(url_type: UrlTypeView)
    requires
        codec_reads_back(url_type),
    ensures
        is_line(item_text(url_type)),
        !(url_type is MainPlaylist) ==> item_text(url_type).len() > 2,
{
    reveal_strlit("t.");
    reveal_strlit("v/");
    reveal_strlit("a/");
    reveal_strlit("s/");
    reveal_strlit(".");
    reveal_strlit("-");
    reveal_strlit(".m3u8");
    reveal_strlit(".vtt");
    match url_type {
        UrlTypeView::MainPlaylist => {},
        UrlTypeView::Playlist(p) => {
            lemma_decimal_line(p.track_id);
            lemma_audio_line(p.audio_track_id, p.audio_transcode_to);
            let audio = audio_text(p.audio_track_id, p.audio_transcode_to);
            lemma_line_concat("t."@, decimal(p.track_id));
            lemma_line_concat("t."@ + decimal(p.track_id), audio);
            lemma_line_concat("t."@ + decimal(p.track_id) + audio, ".m3u8"@);
        },
        UrlTypeView::VideoSegment(v) => {
            lemma_decimal_line(v.track_id);
            lemma_lower_line(v.audio_transcode_to);
            lemma_audio_line(v.audio_track_id, v.audio_transcode_to);
            lemma_segment_line(v.segment_id);
            lemma_segment_text_starts(v.segment_id);
            let audio = audio_text(v.audio_track_id, v.audio_transcode_to);
            lemma_line_concat("v/"@, decimal(v.track_id));
            lemma_line_concat("v/"@ + decimal(v.track_id), audio);
            lemma_line_concat("v/"@ + decimal(v.track_id) + audio, segment_text(v.segment_id));
        },
        UrlTypeView::AudioSegment(a) => {
            lemma_decimal_line(a.track_id);
            lemma_lower_line(a.transcode_to);
            lemma_codec_line(a.transcode_to);
            lemma_segment_line(a.segment_id);
            lemma_segment_text_starts(a.segment_id);
            let codec = codec_text(a.transcode_to);
            lemma_line_concat("a/"@, decimal(a.track_id));
            lemma_line_concat("a/"@ + decimal(a.track_id), codec);
            lemma_line_concat("a/"@ + decimal(a.track_id) + codec, segment_text(a.segment_id));
        },
        UrlTypeView::VttSegment(v) => {
            let (t, a, b) = (decimal(v.track_id), decimal(v.start_cue), decimal(v.end_cue));
            lemma_decimal_line(v.track_id);
            lemma_decimal_line(v.start_cue);
            lemma_decimal_line(v.end_cue);
            lemma_line_concat("s/"@, t);
            lemma_line_concat("s/"@ + t, "."@);
            lemma_line_concat("s/"@ + t + "."@, a);
            lemma_line_concat("s/"@ + t + "."@ + a, "-"@);
            lemma_line_concat("s/"@ + t + "."@ + a + "-"@, b);
            lemma_line_concat("s/"@ + t + "."@ + a + "-"@ + b, ".vtt"@);
        },
    }
}

/// The name of a playlist or segment reads back as what it was written for.
pub proof fn law_item_name_reads_back(url_type: UrlTypeView)
    requires
        codec_reads_back(url_type),
        !(url_type is MainPlaylist),
    ensures
        item_name(item_text(url_type)) == Some(url_type),
{
    reveal_strlit("t");
    reveal_strlit("a/");
    reveal_strlit("v/");
    reveal_strlit("s/");
    reveal_strlit("t.");
    let s = item_text(url_type);
    lemma_item_line(url_type);
    assert(s.subrange(0, 1)[0] == s[0]);
    assert(s.subrange(0, 2)[0] == s[0]);
    match url_type {
        UrlTypeView::MainPlaylist => {},
        UrlTypeView::Playlist(p) => {
            law_playlist_name_reads_back(p);
        },
        UrlTypeView::AudioSegment(a) => {
            law_audio_name_reads_back(a);
            assert(s[0] == 'a');
        },
        UrlTypeView::VideoSegment(v) => {
            law_video_name_reads_back(v);
            assert(s[0] == 'v');
        },
        UrlTypeView::VttSegment(v) => {
            law_vtt_name_reads_back(v);
            assert(s[0] == 's');
        },
    }
}

proof fn lemma_video_url_end(url: Seq<char>, n: int, from: int)
    requires
        0 <= n <= from,
        splits_at(url, n),
        forall|k: int| k > n ==> !#[trigger] splits_at(url, k),
    ensures
        video_url_end(url, from) == Some(n),
    decreases from,
{
    if from > n {
        assert(!splits_at(url, from));
        lemma_video_url_end(url, n, from - 1);
    }
}

/// A stream URL reads back as what it was written for, unless something behind the video
/// URL gives it another reading.
#[verifier::rlimit(30)]
pub proof fn law_url_reads_back(p: ParamsView)
    requires
        is_sound(p),
        is_unambiguous(p),
    ensures
        parsed(full_url(p)) == Some(p),
{
    reveal_strlit(".as.m3u8");
    reveal_strlit("/");
    let url = full_url(p);
    let n = p.video_url.len() as int;
    if p.url_type is MainPlaylist {
        assert(url.subrange(n, n + 8) =~= ".as.m3u8"@);
        assert(url.take(n) =~= p.video_url);
    } else {
        let id = p.session_id->Some_0;
        let item = item_text(p.url_type);
        lemma_item_line(p.url_type);
        law_item_name_reads_back(p.url_type);
        let slash = n + 1 + id.len();
        assert(url[n] == '/');
        assert(url[slash] == '/');
        assert(url.take(n) =~= p.video_url);
        assert forall|i: int| n + 1 <= i < slash implies #[trigger] url[i] != '/' by {
            assert(url[i] == id[i - n - 1]);
        }
        lemma_slash_from(url, n + 1, slash);
        assert(url.subrange(slash + 1, url.len() as int) =~= item);
        assert(url.subrange(n + 1, slash) =~= id);
        assert forall|i: int| slash + 1 <= i < url.len() implies #[trigger] url[i] != '\n' by {
            assert(url[i] == item[i - slash - 1]);
        }
        assert(splits_at(url, n));
        lemma_video_url_end(url, n, url.len() as int);
    }
}

/// The written URL, put behind the directory of the playlist that it stands in, is the
/// full URL: the main playlist stands beside the video file, a track playlist below its
/// session.
pub proof fn law_encoded_is_relative(p: ParamsView)
    requires
        p.url_type is MainPlaylist || p.session_id is Some,
    ensures
        full_url(p) == match p.url_type {
            UrlTypeView::MainPlaylist => p.video_url.take(base_start(p.video_url)) + encoded(p),
            UrlTypeView::Playlist(_) => p.video_url.take(base_start(p.video_url)) + encoded(p),
            _ => p.video_url + "/"@ + p.session_id->Some_0 + "/"@ + encoded(p),
        },
{
    lemma_base_start(p.video_url);
    assert(p.video_url =~= p.video_url.take(base_start(p.video_url)) + base_name(p.video_url));
    let dir = p.video_url.take(base_start(p.video_url));
    let base = base_name(p.video_url);
    match p.url_type {
        UrlTypeView::MainPlaylist => {
            assert(full_url(p) =~= dir + (base + ".as.m3u8"@));
        },
        UrlTypeView::Playlist(s) => {
            let id = p.session_id->Some_0;
            assert(full_url(p) =~= dir + (base + "/"@ + (id + "/"@) + playlist_text(s)));
        },
        _ => {},
    }
}

proof fn lemma_base_start(s: Seq<char>)
    ensures
        0 <= base_start(s) <= s.len(),
    decreases s.len(),
{
    if s.len() > 0 && s.last() != '/' {
        lemma_base_start(s.drop_last());
    }
}

/// A text that ends like the URL of a video file.
pub open spec fn ends_like_video(s: Seq<char>) -> bool {
    at(s, s.len() - 4, ".mp4"@) || at(s, s.len() - 4, ".m4v"@) || at(s, s.len() - 4, ".mkv"@)
        || at(s, s.len() - 5, ".webm"@)
}

/// A codec, if there is one, without dots and slashes.
pub open spec fn codec_is_plain(codec: Option<Seq<char>>) -> bool {
    codec matches Some(c) ==> forall|i: int|
        0 <= i < c.len() ==> #[trigger] c[i] != '/' && c[i] != '.'
}

/// The codec of a name, if it has one.
pub open spec fn codec_of(url_type: UrlTypeView) -> Option<Seq<char>> {
    match url_type {
        UrlTypeView::MainPlaylist => None,
        UrlTypeView::Playlist(p) => p.audio_transcode_to,
        UrlTypeView::VideoSegment(v) => v.audio_transcode_to,
        UrlTypeView::AudioSegment(a) => a.transcode_to,
        UrlTypeView::VttSegment(_) => None,
    }
}

/// No video URL ends in a path component that does not end like one.
proof fn lemma_no_video_url(s: Seq<char>, slash: int)
    requires
        0 <= slash < s.len(),
        s[slash] == '/',
        !ends_like_video(s.skip(slash + 1)),
    ensures
        !is_video_url(s),
{
    reveal_strlit(".mp4");
    reveal_strlit(".m4v");
    reveal_strlit(".mkv");
    reveal_strlit(".webm");
    lemma_no_ending(s, slash, ".mp4"@);
    lemma_no_ending(s, slash, ".m4v"@);
    lemma_no_ending(s, slash, ".mkv"@);
    lemma_no_ending(s, slash, ".webm"@);
}

proof fn lemma_no_ending(s: Seq<char>, slash: int, word: Seq<char>)
    requires
        0 <= slash < s.len(),
        s[slash] == '/',
        slashless(word),
        ({
            let tail = s.skip(slash + 1);
            !at(tail, tail.len() - word.len(), word)
        }),
    ensures
        !ends_behind_something(s, word),
{
    let n = s.len() as int;
    let k = n - word.len();
    if ends_behind_something(s, word) {
        if k <= slash {
            assert(s.subrange(k, n)[slash - k] == '/');
        } else {
            let tail = s.skip(slash + 1);
            assert(tail.subrange(k - slash - 1, tail.len() as int) =~= s.subrange(k, n));
        }
    }
}

proof fn lemma_decimal_has(n: nat, i: int)
    requires
        0 <= i < decimal(n).len(),
    ensures
        decimal(n)[i] != '/',
        decimal(n)[i] != '.',
        decimal(n)[i] != 's',
{
    law_decimal_reads_back(n);
    assert(is_digit(decimal(n)[i]));
}

/// Text without a slash.
spec fn slashless(s: Seq<char>) -> bool {
    forall|i: int| 0 <= i < s.len() ==> #[trigger] s[i] != '/'
}

proof fn lemma_slashless_concat(a: Seq<char>, b: Seq<char>)
    requires
        slashless(a),
        slashless(b),
    ensures
        slashless(a + b),
{
    assert forall|i: int| 0 <= i < (a + b).len() implies #[trigger] (a + b)[i] != '/' by {
        if i < a.len() {
            assert(a[i] != '/');
        } else {
            assert(b[i - a.len()] != '/');
        }
    }
}

proof fn lemma_slashless_parts(
    n: nat,
    audio: Option<nat>,
    codec: Option<Seq<char>>,
    segment: Option<nat>,
)
    requires
        codec_is_plain(codec),
    ensures
        slashless(decimal(n)),
        slashless(codec_text(codec)),
        slashless(audio_text(audio, codec)),
        slashless(segment_text(segment)),
{
    reveal_strlit("+");
    reveal_strlit("-");
    reveal_strlit(".");
    reveal_strlit(".m4s");
    reveal_strlit(".init.mp4");
    assert forall|i: int| 0 <= i < decimal(n).len() implies #[trigger] decimal(n)[i] != '/' by {
        lemma_decimal_has(n, i);
    }
    if let Some(c) = codec {
        lemma_slashless_concat("-"@, c);
    }
    if let Some(a) = audio {
        assert forall|i: int| 0 <= i < decimal(a).len() implies #[trigger] decimal(a)[i]
            != '/' by {
            lemma_decimal_has(a, i);
        }
        lemma_slashless_concat("+"@, decimal(a));
        lemma_slashless_concat("+"@ + decimal(a), codec_text(codec));
    }
    if let Some(m) = segment {
        assert forall|i: int| 0 <= i < decimal(m).len() implies #[trigger] decimal(m)[i]
            != '/' by {
            lemma_decimal_has(m, i);
        }
        lemma_slashless_concat("."@, decimal(m));
        lemma_slashless_concat("."@ + decimal(m), ".m4s"@);
    }
}

/// The only slash of a name is its second character, and no name ends like a main
/// playlist.
#[verifier::rlimit(30)]
proof fn lemma_item_shape(url_type: UrlTypeView)
    requires
        codec_reads_back(url_type),
        codec_is_plain(codec_of(url_type)),
        !(url_type is MainPlaylist),
    ensures
        ({
            let s = item_text(url_type);
            &&& s.len() >= 8
            &&& s[0] != '/' && s[0] != '.'
            &&& forall|i: int| 0 <= i < s.len() && i != 1 ==> #[trigger] s[i] != '/'
            &&& !at(s, s.len() - 8, ".as.m3u8"@)
        }),
{
    reveal_strlit("t.");
    reveal_strlit("v/");
    reveal_strlit("a/");
    reveal_strlit("s/");
    reveal_strlit("+");
    reveal_strlit("-");
    reveal_strlit(".");
    reveal_strlit(".m3u8");
    reveal_strlit(".vtt");
    reveal_strlit(".m4s");
    reveal_strlit(".init.mp4");
    reveal_strlit(".as.m3u8");
    let s = item_text(url_type);
    let n = s.len() as int;
    let main = at(s, n - 8, ".as.m3u8"@);
    if main {
        let tail = s.subrange(n - 8, n);
        assert(tail[0] == s[n - 8] && tail[2] == s[n - 6] && tail[7] == s[n - 1]);
        assert(tail[1] == s[n - 7]);
    }
    match url_type {
        UrlTypeView::MainPlaylist => {},
        UrlTypeView::Playlist(p) => {
            let (t, codec) = (decimal(p.track_id), p.audio_transcode_to);
            let audio = audio_text(p.audio_track_id, codec);
            law_decimal_reads_back(p.track_id);
            lemma_slashless_parts(p.track_id, p.audio_track_id, codec, None);
            lemma_slashless_concat("t."@, t);
            lemma_slashless_concat("t."@ + t, audio);
            lemma_slashless_concat("t."@ + t + audio, ".m3u8"@);
            if main {
                match p.audio_track_id {
                    None => {
                        lemma_decimal_has(p.track_id, t.len() - 1);
                        assert(s[n - 6] == t[t.len() - 1]);
                    },
                    Some(a) => {
                        law_decimal_reads_back(a);
                        match codec {
                            None => {
                                lemma_decimal_has(a, decimal(a).len() - 1);
                                assert(s[n - 6] == decimal(a)[decimal(a).len() - 1]);
                            },
                            Some(c) => {
                                let k = c.len() as int;
                                assert(audio =~= ("+"@ + decimal(a) + "-"@) + c);
                                if k >= 3 {
                                    assert(s[n - 8] == c[k - 3]);
                                    assert(c[k - 3] != '.');
                                } else if k == 2 {
                                    assert(s[n - 8] == '-');
                                } else {
                                    assert(s[n - 7] == '-');
                                }
                            },
                        }
                    },
                }
            }
        },
        UrlTypeView::VideoSegment(v) => {
            let (t, codec) = (decimal(v.track_id), v.audio_transcode_to);
            let audio = audio_text(v.audio_track_id, codec);
            let segment = segment_text(v.segment_id);
            law_decimal_reads_back(v.track_id);
            lemma_slashless_parts(v.track_id, v.audio_track_id, codec, v.segment_id);
            lemma_slashless_concat(t, audio);
            lemma_slashless_concat(t + audio, segment);
            let rest = t + audio + segment;
            assert(s =~= "v/"@ + rest);
            lemma_behind_slash(s, "v/"@, rest);
            lemma_segment_end(s, "v/"@ + t + audio, v.segment_id);
        },
        UrlTypeView::AudioSegment(a) => {
            let (t, codec) = (decimal(a.track_id), codec_text(a.transcode_to));
            let segment = segment_text(a.segment_id);
            law_decimal_reads_back(a.track_id);
            lemma_slashless_parts(a.track_id, None, a.transcode_to, a.segment_id);
            lemma_slashless_concat(t, codec);
            lemma_slashless_concat(t + codec, segment);
            let rest = t + codec + segment;
            assert(s =~= "a/"@ + rest);
            lemma_behind_slash(s, "a/"@, rest);
            lemma_segment_end(s, "a/"@ + t + codec, a.segment_id);
        },
        UrlTypeView::VttSegment(v) => {
            let (t, a, b) = (decimal(v.track_id), decimal(v.start_cue), decimal(v.end_cue));
            law_decimal_reads_back(v.track_id);
            law_decimal_reads_back(v.start_cue);
            law_decimal_reads_back(v.end_cue);
            lemma_slashless_parts(v.track_id, None, None, None);
            lemma_slashless_parts(v.start_cue, None, None, None);
            lemma_slashless_parts(v.end_cue, None, None, None);
            lemma_slashless_concat(t, "."@);
            lemma_slashless_concat(t + "."@, a);
            lemma_slashless_concat(t + "."@ + a, "-"@);
            lemma_slashless_concat(t + "."@ + a + "-"@, b);
            lemma_slashless_concat(t + "."@ + a + "-"@ + b, ".vtt"@);
            let rest = t + "."@ + a + "-"@ + b + ".vtt"@;
            assert(s =~= "s/"@ + rest);
            lemma_behind_slash(s, "s/"@, rest);
            assert(s[n - 1] == 't');
        },
    }
}

proof fn lemma_behind_slash(s: Seq<char>, head: Seq<char>, rest: Seq<char>)
    requires
        s == head + rest,
        head.len() == 2,
        head[0] != '/',
        slashless(rest),
    ensures
        forall|i: int| 0 <= i < s.len() && i != 1 ==> #[trigger] s[i] != '/',
{
    assert forall|i: int| 0 <= i < s.len() && i != 1 implies #[trigger] s[i] != '/' by {
        if i >= 2 {
            assert(s[i] == rest[i - 2]);
        }
    }
}

proof fn lemma_segment_end(s: Seq<char>, head: Seq<char>, segment: Option<nat>)
    requires
        s == head + segment_text(segment),
        head.len() >= 3,
    ensures
        s.len() >= 8,
        s.last() == 's' || s.last() == '4',
{
    reveal_strlit(".");
    reveal_strlit(".m4s");
    reveal_strlit(".init.mp4");
    if let Some(n) = segment {
        law_decimal_reads_back(n);
        assert(segment_text(segment).last() == 's');
        assert(s.last() == segment_text(segment).last());
        if s.len() < 8 {
            assert(head.len() + 1 + decimal(n).len() + 4 < 8);
        }
    } else {
        assert(s.last() == segment_text(segment).last());
    }
}

/// Every stream URL reads back as what it was written for, if its session id does not end like
/// a video URL and its codec holds no dots and slashes: in full, and as it is written below the
/// directory of the playlist that it stands in.
pub proof fn law_written_url_reads_back(p: ParamsView)
    requires
        is_sound(p),
        p.session_id matches Some(id) ==> !ends_like_video(id),
        codec_is_plain(codec_of(p.url_type)),
    ensures
        parsed(full_url(p)) == Some(p),
        parsed(
            match p.url_type {
                UrlTypeView::MainPlaylist => p.video_url.take(base_start(p.video_url)) + encoded(p),
                UrlTypeView::Playlist(_) => p.video_url.take(base_start(p.video_url)) + encoded(p),
                _ => p.video_url + "/"@ + p.session_id->Some_0 + "/"@ + encoded(p),
            },
        ) == Some(p),
{
    reveal_strlit("/");
    reveal_strlit(".as.m3u8");
    if !(p.url_type is MainPlaylist) {
        let url = full_url(p);
        let id = p.session_id->Some_0;
        let item = item_text(p.url_type);
        let n = p.video_url.len() as int;
        let slash = n + 1 + id.len();
        let len = url.len() as int;
        lemma_item_shape(p.url_type);
        assert(url.subrange(len - 8, len) =~= item.subrange(item.len() - 8, item.len() as int));
        assert(!is_main_url(url));
        assert forall|k: int| k > n implies !#[trigger] splits_at(url, k) by {
            if splits_at(url, k) {
                let t = url.take(k);
                if k < slash {
                    assert(url[k] == id[k - n - 1]);
                } else if k == slash {
                    assert(t[n] == '/');
                    assert(t.skip(n + 1) =~= id);
                    lemma_no_video_url(t, n);
                } else {
                    assert(url[k] == item[k - slash - 1]);
                    assert(k == slash + 2);
                    assert(t[slash] == '/');
                    assert(t.skip(slash + 1).len() == 1);
                    lemma_no_video_url(t, slash);
                }
            }
        }
    }
    law_url_reads_back(p);
    law_encoded_is_relative(p);
}

/// Moving on by two offsets in turn is moving on by their sum, and moving on by none is
/// staying.
pub proof fn law_offsets_add_up(url_type: UrlTypeView, a: nat, b: nat)
    ensures
        moved(url_type, a) matches Some(there) ==> moved(there, b) == moved(url_type, a + b),
        moved(url_type, 0) matches Some(here) ==> here == url_type,
        moved(url_type, a) is Some == moved(url_type, b) is Some,
{
}

/// The URL of a video file is a name with one of four endings, on one line: every such URL is one,
/// and no other.
pub proof fn law_video_urls(name: Seq<char>, url: Seq<char>)
    requires
        is_line(name),
        name.len() > 0,
    ensures
        is_video_url(name + ".mp4"@),
        is_video_url(name + ".m4v"@),
        is_video_url(name + ".mkv"@),
        is_video_url(name + ".webm"@),
        is_video_url(url) ==> is_line(url) && ends_like_video(url) && url.len() > 4,
{
    reveal_strlit(".mp4");
    reveal_strlit(".m4v");
    reveal_strlit(".mkv");
    reveal_strlit(".webm");
    lemma_line_concat(name, ".mp4"@);
    lemma_line_concat(name, ".m4v"@);
    lemma_line_concat(name, ".mkv"@);
    lemma_line_concat(name, ".webm"@);
    let n = name.len() as int;
    assert((name + ".mp4"@).subrange(n, n + 4) =~= ".mp4"@);
    assert((name + ".m4v"@).subrange(n, n + 4) =~= ".m4v"@);
    assert((name + ".mkv"@).subrange(n, n + 4) =~= ".mkv"@);
    assert((name + ".webm"@).subrange(n, n + 5) =~= ".webm"@);
}

} // verus!
