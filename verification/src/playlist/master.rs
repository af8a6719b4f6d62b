//! The main playlist, which lists the playlists of all tracks.

use std::collections::{HashMap, HashSet};
use vstd::prelude::*;
use vstd::std_specs::hash::*;
use crate::media::{
    AudioStreamInfo, AudioView, Id, StreamIndex, SubtitleStreamInfo, VideoStreamInfo,
};
use crate::params::{opt_text, HlsParams, Playlist, UrlType};
use crate::search::{first_index, lemma_first_index_found, lemma_first_index_none};
use crate::text::{
    decimal, is_text_less, joined_with, push_decimal, same_text, text_less, uppercase,
};
use crate::url_grammar::{encoded, ParamsView, PlaylistView, UrlTypeView};
use super::codec::{
    attribute_name, bandwidth, build_codec_attribute, calculate_bandwidth, codec_id, codec_label,
    codec_name, codec_name_normalized, codec_name_short, codec_names, codec_of_name, label_of,
    rfc5646, short_name, to_rfc5646, video_attribute,
};
use super::variant::opt_str;

verus! {

broadcast use vstd::std_specs::hash::group_hash_axioms;

/// Audio streams as values.
pub open spec fn audio_views(streams: Seq<AudioStreamInfo>) -> Seq<AudioView> {
    streams.map_values(|s: AudioStreamInfo| s@)
}

/// The audio streams that are enabled.
pub open spec fn enabled_audio(streams: Seq<AudioView>, tracks: Set<usize>) -> Seq<AudioView> {
    streams.filter(|a: AudioView| tracks.contains(a.stream_index))
}

/// The audio stream at `i`, marked with the codec that it is to be transcoded to. Only the
/// first of several streams with one index is marked.
pub open spec fn marked_at(
    streams: Seq<AudioView>,
    i: int,
    transcode: Map<usize, String>,
) -> AudioView {
    let a = streams[i];
    if transcode.dom().contains(a.stream_index) && first_index(
        i,
        |j: int| streams[j].stream_index == a.stream_index,
    ) is None {
        AudioView { transcode_to: codec_of_name(transcode[a.stream_index]@), ..a }
    } else {
        a
    }
}

/// The audio streams, marked with the codecs that they are to be transcoded to.
pub open spec fn marked(streams: Seq<AudioView>, transcode: Map<usize, String>) -> Seq<AudioView> {
    Seq::new(streams.len(), |i: int| marked_at(streams, i, transcode))
}

/// One of the named codecs is that of the stream, or the one it is transcoded to.
pub open spec fn accepts(codecs: Seq<String>, a: AudioView) -> bool {
    exists|k: int|
        0 <= k < codecs.len() && (codec_of_name((#[trigger] codecs[k])@) matches Some(id) && (
        a.codec_id == id || a.transcode_to == Some(id)))
}

/// The audio streams in a codec that is named; all of them if none is.
pub open spec fn supported(streams: Seq<AudioView>, codecs: Seq<String>) -> Seq<AudioView> {
    if codecs.len() == 0 {
        streams
    } else {
        streams.filter(|a: AudioView| accepts(codecs, a))
    }
}

/// AAC is among the named codecs.
pub open spec fn names_aac(codecs: Seq<String>) -> bool {
    exists|k: int|
        0 <= k < codecs.len() && codec_of_name((#[trigger] codecs[k])@) == Some(Id::AAC)
}

/// The audio streams in the codec of the first one, all transcoded to AAC.
pub open spec fn as_aac(streams: Seq<AudioView>) -> Seq<AudioView> {
    streams.filter(|a: AudioView| a.codec_id == streams[0].codec_id).map_values(
        |a: AudioView| AudioView { transcode_to: Some(Id::AAC), ..a },
    )
}

/// The audio streams of a main playlist: the enabled ones in a codec that is named. Where
/// none is left and AAC is named, they are transcoded to AAC.
pub open spec fn selected_audio(
    streams: Seq<AudioView>,
    tracks: Set<usize>,
    transcode: Map<usize, String>,
    codecs: Seq<String>,
) -> Seq<AudioView> {
    let enabled = enabled_audio(streams, tracks);
    let left = supported(marked(enabled, transcode), codecs);
    if left.len() == 0 && names_aac(codecs) {
        as_aac(enabled)
    } else {
        left
    }
}

/// The codec that a stream is delivered in.
pub open spec fn delivered(a: AudioView) -> Id {
    match a.transcode_to {
        Some(id) => id,
        None => a.codec_id,
    }
}

/// The name of the group of a stream: that of its codec. A codec without a name is
/// grouped with AAC.
pub open spec fn group_name(a: AudioView) -> Seq<char> {
    match short_name(delivered(a)) {
        Some(name) => name,
        None => "aac"@,
    }
}

/// `a` is listed before `b`: by group, then by stream.
pub open spec fn listed_before(a: AudioView, b: AudioView) -> bool {
    text_less(group_name(a), group_name(b)) || (group_name(a) == group_name(b) && a.stream_index
        < b.stream_index)
}

/// `x` put behind the streams that it is not listed before.
pub open spec fn inserted(sorted: Seq<AudioView>, x: AudioView) -> Seq<AudioView>
    decreases sorted.len(),
{
    if sorted.len() == 0 || !listed_before(x, sorted.last()) {
        sorted.push(x)
    } else {
        inserted(sorted.drop_last(), x).push(sorted.last())
    }
}

/// The streams in the order in which they are listed.
pub open spec fn in_order(streams: Seq<AudioView>) -> Seq<AudioView>
    decreases streams.len(),
{
    if streams.len() == 0 {
        Seq::empty()
    } else {
        inserted(in_order(streams.drop_last()), streams.last())
    }
}

fn duplicate(s: &AudioStreamInfo) -> (copy: AudioStreamInfo)
    ensures
        copy@ == s@,
{
    AudioStreamInfo {
        stream_index: s.stream_index,
        codec_id: s.codec_id,
        sample_rate: s.sample_rate,
        channels: s.channels,
        bitrate: s.bitrate,
        language: match &s.language {
            Some(l) => Some(l.clone()),
            None => None,
        },
        encoder_delay: s.encoder_delay,
        transcode_to: s.transcode_to,
    }
}

fn select_enabled(streams: &Vec<AudioStreamInfo>, tracks: &HashSet<usize>) -> (out: Vec<
    AudioStreamInfo,
>)
    ensures
        audio_views(out@) == enabled_audio(audio_views(streams@), tracks@),
{
    let mut out: Vec<AudioStreamInfo> = Vec::new();
    let mut i: usize = 0;
    let ghost views = audio_views(streams@);
    proof {
        reveal(Seq::filter);
        assert(audio_views(out@) =~= enabled_audio(views.take(0), tracks@));
    }
    while i < streams.len()
        invariant
            i <= streams@.len(),
            views == audio_views(streams@),
            audio_views(out@) == enabled_audio(views.take(i as int), tracks@),
        decreases streams.len() - i,
    {
        proof {
            reveal(Seq::filter);
            assert(views.take(i + 1).drop_last() =~= views.take(i as int));
            assert(views.take(i + 1).last() == streams@[i as int]@);
        }
        let ghost before = out@;
        if tracks.contains(&streams[i].stream_index) {
            out.push(duplicate(&streams[i]));
            assert(audio_views(out@) =~= audio_views(before).push(streams@[i as int]@));
        }
        i += 1;
    }
    assert(views.take(views.len() as int) =~= views);
    out
}

fn is_repeated(streams: &Vec<AudioStreamInfo>, i: usize) -> (b: bool)
    requires
        i < streams@.len(),
    ensures
        b == (first_index(
            i as int,
            |j: int|
                audio_views(streams@)[j].stream_index == audio_views(
                    streams@,
                )[i as int].stream_index,
        ) is Some),
{
    let ghost p = |j: int|
        audio_views(streams@)[j].stream_index == audio_views(streams@)[i as int].stream_index;
    let mut j: usize = 0;
    while j < i
        invariant
            j <= i < streams@.len(),
            p == (|j: int|
                audio_views(streams@)[j].stream_index == audio_views(
                    streams@,
                )[i as int].stream_index),
            forall|k: int| 0 <= k < j ==> !(#[trigger] p(k)),
        decreases i - j,
    {
        assert(audio_views(streams@)[j as int] == streams@[j as int]@);
        assert(audio_views(streams@)[i as int] == streams@[i as int]@);
        if streams[j].stream_index == streams[i].stream_index {
            proof {
                lemma_first_index_found(i as int, p, j as int);
            }
            return true;
        }
        j += 1;
    }
    proof {
        lemma_first_index_none(i as int, p);
    }
    false
}

fn mark_transcoded(streams: &Vec<AudioStreamInfo>, transcode: &HashMap<usize, String>) -> (out: Vec<
    AudioStreamInfo,
>)
    ensures
        audio_views(out@) == marked(audio_views(streams@), transcode@),
{
    let mut out: Vec<AudioStreamInfo> = Vec::new();
    let mut i: usize = 0;
    let ghost views = audio_views(streams@);
    while i < streams.len()
        invariant
            i <= streams@.len(),
            out@.len() == i,
            views == audio_views(streams@),
            forall|k: int| 0 <= k < i ==> (#[trigger] out@[k])@ == marked_at(views, k, transcode@),
        decreases streams.len() - i,
    {
        let mut s: AudioStreamInfo = duplicate(&streams[i]);
        assert(views[i as int] == streams@[i as int]@);
        let repeated: bool = is_repeated(streams, i);
        if !repeated {
            if let Some(codec) = transcode.get(&s.stream_index) {
                s.transcode_to = codec_id(codec.as_str());
            }
        }
        assert(s@ == marked_at(views, i as int, transcode@));
        out.push(s);
        i += 1;
    }
    assert(audio_views(out@) =~= marked(views, transcode@));
    out
}

fn is_accepted(codecs: &[String], a: &AudioStreamInfo) -> (b: bool)
    ensures
        b == accepts(codecs@, a@),
{
    let mut k: usize = 0;
    while k < codecs.len()
        invariant
            k <= codecs@.len(),
            forall|j: int|
                0 <= j < k ==> !(codec_of_name((#[trigger] codecs@[j])@) matches Some(id) && (
                a.codec_id == id || a.transcode_to == Some(id))),
        decreases codecs.len() - k,
    {
        if let Some(id) = codec_id(codecs[k].as_str()) {
            if a.codec_id == id || (a.transcode_to.is_some() && a.transcode_to.unwrap() == id) {
                assert(codec_of_name(codecs@[k as int]@) == Some(id));
                return true;
            }
        }
        k += 1;
    }
    false
}

fn select_supported(streams: Vec<AudioStreamInfo>, codecs: &[String]) -> (out: Vec<
    AudioStreamInfo,
>)
    ensures
        audio_views(out@) == supported(audio_views(streams@), codecs@),
{
    if codecs.len() == 0 {
        return streams;
    }
    let mut out: Vec<AudioStreamInfo> = Vec::new();
    let mut i: usize = 0;
    let ghost views = audio_views(streams@);
    let ghost p = |a: AudioView| accepts(codecs@, a);
    proof {
        reveal(Seq::filter);
        assert(audio_views(out@) =~= views.take(0).filter(p));
    }
    while i < streams.len()
        invariant
            i <= streams@.len(),
            views == audio_views(streams@),
            p == (|a: AudioView| accepts(codecs@, a)),
            audio_views(out@) == views.take(i as int).filter(p),
        decreases streams.len() - i,
    {
        proof {
            reveal(Seq::filter);
            assert(views.take(i + 1).drop_last() =~= views.take(i as int));
            assert(views.take(i + 1).last() == streams@[i as int]@);
        }
        let ghost before = out@;
        if is_accepted(codecs, &streams[i]) {
            out.push(duplicate(&streams[i]));
            assert(audio_views(out@) =~= audio_views(before).push(streams@[i as int]@));
        }
        i += 1;
    }
    assert(views.take(views.len() as int) =~= views);
    out
}

fn is_aac_named(codecs: &[String]) -> (b: bool)
    ensures
        b == names_aac(codecs@),
{
    let mut k: usize = 0;
    while k < codecs.len()
        invariant
            k <= codecs@.len(),
            forall|j: int|
                0 <= j < k ==> codec_of_name((#[trigger] codecs@[j])@) != Some(Id::AAC),
        decreases codecs.len() - k,
    {
        if let Some(id) = codec_id(codecs[k].as_str()) {
            if id == Id::AAC {
                assert(codec_of_name(codecs@[k as int]@) == Some(Id::AAC));
                return true;
            }
        }
        k += 1;
    }
    false
}

fn transcode_all(streams: &Vec<AudioStreamInfo>) -> (out: Vec<AudioStreamInfo>)
    ensures
        audio_views(out@) == as_aac(audio_views(streams@)),
{
    let mut out: Vec<AudioStreamInfo> = Vec::new();
    let mut i: usize = 0;
    let ghost views = audio_views(streams@);
    let ghost p = |a: AudioView| a.codec_id == views[0].codec_id;
    let ghost f = |a: AudioView| AudioView { transcode_to: Some(Id::AAC), ..a };
    proof {
        reveal(Seq::filter);
        assert(audio_views(out@) =~= views.take(0).filter(p).map_values(f));
    }
    while i < streams.len()
        invariant
            i <= streams@.len(),
            views == audio_views(streams@),
            p == (|a: AudioView| a.codec_id == views[0].codec_id),
            f == (|a: AudioView| AudioView { transcode_to: Some(Id::AAC), ..a }),
            audio_views(out@) == views.take(i as int).filter(p).map_values(f),
        decreases streams.len() - i,
    {
        proof {
            reveal(Seq::filter);
            assert(views.take(i + 1).drop_last() =~= views.take(i as int));
            assert(views.take(i + 1).last() == streams@[i as int]@);
            assert(views[0] == streams@[0]@);
        }
        let ghost before = out@;
        let ghost kept = views.take(i as int).filter(p);
        if streams[i].codec_id == streams[0].codec_id {
            let mut s: AudioStreamInfo = duplicate(&streams[i]);
            s.transcode_to = Some(Id::AAC);
            assert(s@ == f(streams@[i as int]@));
            out.push(s);
            assert(audio_views(out@) =~= audio_views(before).push(f(streams@[i as int]@)));
            assert(kept.push(streams@[i as int]@).map_values(f) =~= kept.map_values(f).push(
                f(streams@[i as int]@),
            ));
        }
        i += 1;
    }
    assert(views.take(views.len() as int) =~= views);
    out
}

/// Selects the audio streams of a main playlist.
pub fn select_audio(
    streams: &Vec<AudioStreamInfo>,
    tracks: &HashSet<usize>,
    transcode: &HashMap<usize, String>,
    codecs: &[String],
) -> (out: Vec<AudioStreamInfo>)
    ensures
        audio_views(out@) == selected_audio(
            audio_views(streams@),
            tracks@,
            transcode@,
            codecs@,
        ),
{
    let enabled: Vec<AudioStreamInfo> = select_enabled(streams, tracks);
    let left: Vec<AudioStreamInfo> = select_supported(
        mark_transcoded(&enabled, transcode),
        codecs,
    );
    assert(left@.len() == audio_views(left@).len());
    if left.len() == 0 && is_aac_named(codecs) {
        transcode_all(&enabled)
    } else {
        left
    }
}

fn group_of(s: &AudioStreamInfo) -> (name: &'static str)
    ensures
        name@ == group_name(s@),
{
    let id: Id = match s.transcode_to {
        Some(id) => id,
        None => s.codec_id,
    };
    match codec_name_short(id) {
        Some(name) => name,
        None => "aac",
    }
}

fn is_listed_before(a: &AudioStreamInfo, b: &AudioStreamInfo) -> (before: bool)
    ensures
        before == listed_before(a@, b@),
{
    let (ga, gb): (&str, &str) = (group_of(a), group_of(b));
    is_text_less(ga, gb) || (same_text(ga, gb) && a.stream_index < b.stream_index)
}

proof fn lemma_inserted_at(sorted: Seq<AudioView>, x: AudioView, pos: int)
    requires
        0 <= pos <= sorted.len(),
        forall|k: int| pos <= k < sorted.len() ==> listed_before(x, #[trigger] sorted[k]),
        pos > 0 ==> !listed_before(x, sorted[pos - 1]),
    ensures
        inserted(sorted, x) == sorted.insert(pos, x),
    decreases sorted.len(),
{
    if pos == sorted.len() {
        assert(sorted.push(x) =~= sorted.insert(pos, x));
    } else {
        let rest = sorted.drop_last();
        assert forall|k: int| pos <= k < rest.len() implies listed_before(
            x,
            #[trigger] rest[k],
        ) by {
            assert(rest[k] == sorted[k]);
        }
        lemma_inserted_at(rest, x, pos);
        assert(rest.insert(pos, x).push(sorted.last()) =~= sorted.insert(pos, x));
    }
}

fn sort_streams(streams: &Vec<AudioStreamInfo>) -> (out: Vec<AudioStreamInfo>)
    ensures
        audio_views(out@) == in_order(audio_views(streams@)),
{
    let mut out: Vec<AudioStreamInfo> = Vec::new();
    let mut i: usize = 0;
    let ghost views = audio_views(streams@);
    assert(audio_views(out@) =~= in_order(views.take(0)));
    while i < streams.len()
        invariant
            i <= streams@.len(),
            views == audio_views(streams@),
            audio_views(out@) == in_order(views.take(i as int)),
        decreases streams.len() - i,
    {
        let x: AudioStreamInfo = duplicate(&streams[i]);
        let ghost sorted = audio_views(out@);
        let mut pos: usize = out.len();
        while pos > 0 && is_listed_before(&x, &out[pos - 1])
            invariant
                pos <= out@.len(),
                sorted == audio_views(out@),
                forall|k: int| pos <= k < sorted.len() ==> listed_before(x@, #[trigger] sorted[k]),
            ensures
                pos <= out@.len(),
                forall|k: int| pos <= k < sorted.len() ==> listed_before(x@, #[trigger] sorted[k]),
                pos > 0 ==> !listed_before(x@, out@[pos - 1]@),
            decreases pos,
        {
            assert(sorted[pos - 1] == out@[pos - 1]@);
            pos -= 1;
        }
        proof {
            if pos > 0 {
                assert(sorted[pos - 1] == out@[pos - 1]@);
            }
            lemma_inserted_at(sorted, x@, pos as int);
            assert(views.take(i + 1).drop_last() =~= views.take(i as int));
        }
        let ghost before = out@;
        out.insert(pos, x);
        assert(audio_views(out@) =~= sorted.insert(pos as int, x@));
        i += 1;
    }
    assert(views.take(views.len() as int) =~= views);
    out
}

/// Where a main playlist is: the URL of the video, and the session.
pub struct Place {
    pub video_url: Seq<char>,
    pub session_id: Option<Seq<char>>,
}

/// The URL of a track playlist, as it stands in a main playlist.
pub open spec fn playlist_uri(
    place: Place,
    track: usize,
    audio: Option<usize>,
    codec: Option<Seq<char>>,
) -> Seq<char> {
    encoded(
        ParamsView {
            url_type: UrlTypeView::Playlist(
                PlaylistView {
                    track_id: track as nat,
                    audio_track_id: match audio {
                        Some(a) => Some(a as nat),
                        None => None,
                    },
                    audio_transcode_to: codec,
                },
            ),
            session_id: place.session_id,
            video_url: place.video_url,
        },
    )
}

fn make_uri(
    video_url: &str,
    session_id: Option<&str>,
    track_id: usize,
    audio_track_id: Option<usize>,
    codec: Option<&'static str>,
) -> (uri: String)
    ensures
        uri@ == playlist_uri(
            Place { video_url: video_url@, session_id: opt_str(session_id) },
            track_id,
            audio_track_id,
            opt_str(codec),
        ),
{
    let params = HlsParams {
        url_type: UrlType::Playlist(
            Playlist {
                track_id,
                audio_track_id,
                audio_transcode_to: match codec {
                    Some(c) => Some(c.to_owned()),
                    None => None,
                },
            },
        ),
        session_id: match session_id {
            Some(id) => Some(id.to_owned()),
            None => None,
        },
        video_url: video_url.to_owned(),
    };
    params.encode_url()
}

/// The codec that a stream is transcoded to, by name.
pub open spec fn transcode_name_of(a: AudioView) -> Option<Seq<char>> {
    match a.transcode_to {
        Some(id) => short_name(id),
        None => None,
    }
}

fn find_transcode_name(a: &AudioStreamInfo) -> (name: Option<&'static str>)
    ensures
        opt_str(name) == transcode_name_of(a@),
{
    match a.transcode_to {
        Some(id) => codec_name_short(id),
        None => None,
    }
}

/// The language of a stream; `und` if it is not known.
pub open spec fn language_or_und(language: Option<Seq<char>>) -> Seq<char> {
    match language {
        Some(l) => l,
        None => "und"@,
    }
}

/// The name of an audio track, given its language in upper case.
pub open spec fn audio_track_name(language: Seq<char>, upper: Seq<char>, label: Seq<char>) -> Seq<
    char,
> {
    if language == "und"@ {
        label
    } else {
        upper + " "@ + label
    }
}

/// `YES` or `NO`.
pub open spec fn yes_no(b: bool) -> Seq<char> {
    if b {
        "YES"@
    } else {
        "NO"@
    }
}

fn to_yes_no(b: bool) -> (s: &'static str)
    ensures
        s@ == yes_no(b),
{
    if b {
        "YES"
    } else {
        "NO"
    }
}

/// The entry of an audio track; `upper` is its language in upper case, `first` whether it
/// is the first of its group.
pub open spec fn audio_line(
    a: AudioView,
    upper: Seq<char>,
    first: bool,
    place: Place,
) -> Seq<char> {
    let language = language_or_und(a.language);
    "#EXT-X-MEDIA:TYPE=AUDIO,GROUP-ID=\"audio-"@ + group_name(a) + "\",LANGUAGE=\""@ + rfc5646(
        language,
    ) + "\",NAME=\""@ + audio_track_name(language, upper, label_of(delivered(a)))
        + "\",DEFAULT="@ + yes_no(first) + ",AUTOSELECT=YES,URI=\""@ + playlist_uri(
        place,
        a.stream_index,
        None,
        transcode_name_of(a),
    ) + "\"\n"@
}

/// The entry of an audio track, given its language in upper case.
pub fn audio_media_line(
    a: &AudioStreamInfo,
    upper: &str,
    first: bool,
    video_url: &str,
    session_id: Option<&str>,
) -> (line: String)
    ensures
        line@ == audio_line(
            a@,
            upper@,
            first,
            Place { video_url: video_url@, session_id: opt_str(session_id) },
        ),
{
    let language: &str = match &a.language {
        Some(l) => l.as_str(),
        None => "und",
    };
    let id: Id = match a.transcode_to {
        Some(id) => id,
        None => a.codec_id,
    };
    let mut out: String = "#EXT-X-MEDIA:TYPE=AUDIO,GROUP-ID=\"audio-".to_owned();
    out.push_str(group_of(a));
    out.push_str("\",LANGUAGE=\"");
    out.push_str(to_rfc5646(language).as_str());
    out.push_str("\",NAME=\"");
    if !same_text(language, "und") {
        out.push_str(upper);
        out.push_str(" ");
    }
    out.push_str(codec_label(id));
    out.push_str("\",DEFAULT=");
    out.push_str(to_yes_no(first));
    out.push_str(",AUTOSELECT=YES,URI=\"");
    out.push_str(
        make_uri(video_url, session_id, a.stream_index, None, find_transcode_name(a)).as_str(),
    );
    out.push_str("\"\n");
    assert(out@ =~= audio_line(
        a@,
        upper@,
        first,
        Place { video_url: video_url@, session_id: opt_str(session_id) },
    ));
    out
}

/// The entry of a subtitle track; `upper` is its language in upper case.
pub open spec fn subtitle_line(
    language: Seq<char>,
    track: usize,
    upper: Seq<char>,
    first: bool,
    place: Place,
) -> Seq<char> {
    "#EXT-X-MEDIA:TYPE=SUBTITLES,GROUP-ID=\"subs\",LANGUAGE=\""@ + rfc5646(language)
        + "\",NAME=\""@ + upper + " Subtitles\",DEFAULT="@ + yes_no(first) + ",AUTOSELECT="@
        + yes_no(first) + ",FORCED=NO,URI=\""@ + playlist_uri(place, track, None, None)
        + "\"\n"@
}

/// The entry of a subtitle track, given its language in upper case.
pub fn subtitle_media_line(
    language: &str,
    track: usize,
    upper: &str,
    first: bool,
    video_url: &str,
    session_id: Option<&str>,
) -> (line: String)
    ensures
        line@ == subtitle_line(
            language@,
            track,
            upper@,
            first,
            Place { video_url: video_url@, session_id: opt_str(session_id) },
        ),
{
    let mut out: String = "#EXT-X-MEDIA:TYPE=SUBTITLES,GROUP-ID=\"subs\",LANGUAGE=\"".to_owned();
    out.push_str(to_rfc5646(language).as_str());
    out.push_str("\",NAME=\"");
    out.push_str(upper);
    out.push_str(" Subtitles\",DEFAULT=");
    out.push_str(to_yes_no(first));
    out.push_str(",AUTOSELECT=");
    out.push_str(to_yes_no(first));
    out.push_str(",FORCED=NO,URI=\"");
    out.push_str(make_uri(video_url, session_id, track, None, None).as_str());
    out.push_str("\"\n");
    assert(out@ =~= subtitle_line(
        language@,
        track,
        upper@,
        first,
        Place { video_url: video_url@, session_id: opt_str(session_id) },
    ));
    out
}

/// No earlier stream of the list is in the group of the one at `i`.
pub open spec fn is_first_of_group(sorted: Seq<AudioView>, i: int) -> bool {
    forall|j: int| 0 <= j < i ==> group_name(#[trigger] sorted[j]) != group_name(sorted[i])
}

/// The entries of the first `n` audio tracks of a list.
pub open spec fn audio_lines(sorted: Seq<AudioView>, n: int, place: Place) -> Seq<char>
    decreases n,
{
    if n <= 0 {
        Seq::empty()
    } else {
        audio_lines(sorted, n - 1, place) + audio_line(
            sorted[n - 1],
            uppercase(language_or_und(sorted[n - 1].language)),
            is_first_of_group(sorted, n - 1),
            place,
        )
    }
}

/// The entries of the audio tracks, by group; none where the audio is interleaved.
pub open spec fn audio_section(
    audio: Seq<AudioView>,
    interleaved: bool,
    place: Place,
) -> Seq<char> {
    if audio.len() == 0 || interleaved {
        Seq::empty()
    } else {
        "# Audio Tracks\n"@ + audio_lines(in_order(audio), in_order(audio).len() as int, place)
            + "\n"@
    }
}

fn is_group_new(sorted: &Vec<AudioStreamInfo>, i: usize) -> (b: bool)
    requires
        i < sorted@.len(),
    ensures
        b == is_first_of_group(audio_views(sorted@), i as int),
{
    let ghost views = audio_views(sorted@);
    let group: &str = group_of(&sorted[i]);
    assert(group@ == group_name(views[i as int]));
    let mut j: usize = 0;
    while j < i
        invariant
            j <= i < sorted@.len(),
            views == audio_views(sorted@),
            group@ == group_name(views[i as int]),
            forall|k: int| 0 <= k < j ==> group_name(#[trigger] views[k]) != group@,
        decreases i - j,
    {
        assert(views[j as int] == sorted@[j as int]@);
        if same_text(group_of(&sorted[j]), group) {
            assert(group_name(views[j as int]) == group@);
            return false;
        }
        j += 1;
    }
    true
}

fn push_audio_section(
    out: &mut String,
    audio: &Vec<AudioStreamInfo>,
    interleaved: bool,
    video_url: &str,
    session_id: Option<&str>,
)
    ensures
        final(out)@ == old(out)@ + audio_section(
            audio_views(audio@),
            interleaved,
            Place { video_url: video_url@, session_id: opt_str(session_id) },
        ),
{
    let ghost place = Place { video_url: video_url@, session_id: opt_str(session_id) };
    assert(audio_views(audio@).len() == audio@.len());
    if audio.len() == 0 || interleaved {
        assert(old(out)@ + Seq::<char>::empty() =~= old(out)@);
        return ;
    }
    out.push_str("# Audio Tracks\n");
    let ghost open = out@;
    let sorted: Vec<AudioStreamInfo> = sort_streams(audio);
    let ghost views = audio_views(sorted@);
    assert(open + Seq::<char>::empty() =~= open);
    let mut i: usize = 0;
    while i < sorted.len()
        invariant
            i <= sorted@.len(),
            views == audio_views(sorted@),
            place == (Place { video_url: video_url@, session_id: opt_str(session_id) }),
            out@ == open + audio_lines(views, i as int, place),
        decreases sorted.len() - i,
    {
        let first: bool = is_group_new(&sorted, i);
        let a: &AudioStreamInfo = &sorted[i];
        assert(views[i as int] == a@);
        let language: &str = match &a.language {
            Some(l) => l.as_str(),
            None => "und",
        };
        let upper: String = language.to_uppercase();
        let line: String = audio_media_line(a, upper.as_str(), first, video_url, session_id);
        out.push_str(line.as_str());
        assert(out@ =~= open + audio_lines(views, i + 1, place));
        i += 1;
    }
    out.push_str("\n");
    assert(out@ =~= old(out)@ + audio_section(audio_views(audio@), interleaved, place));
}

/// The subtitle streams that are enabled.
pub open spec fn enabled_subtitles(
    streams: Seq<SubtitleStreamInfo>,
    tracks: Set<usize>,
) -> Seq<SubtitleStreamInfo> {
    streams.filter(|s: SubtitleStreamInfo| tracks.contains(s.stream_index))
}

/// The video streams that are enabled.
pub open spec fn enabled_video(
    streams: Seq<VideoStreamInfo>,
    tracks: Set<usize>,
) -> Seq<VideoStreamInfo> {
    streams.filter(|v: VideoStreamInfo| tracks.contains(v.stream_index))
}

/// The entries of subtitle tracks.
pub open spec fn subtitle_lines(subtitles: Seq<SubtitleStreamInfo>, place: Place) -> Seq<char>
    decreases subtitles.len(),
{
    if subtitles.len() == 0 {
        Seq::empty()
    } else {
        let s = subtitles.last();
        let language = language_or_und(opt_text(s.language));
        subtitle_lines(subtitles.drop_last(), place) + subtitle_line(
            language,
            s.stream_index,
            uppercase(language),
            subtitles.len() == 1,
            place,
        )
    }
}

/// The entries of the subtitle tracks, if there are any.
pub open spec fn subtitle_section(subtitles: Seq<SubtitleStreamInfo>, place: Place) -> Seq<char> {
    if subtitles.len() == 0 {
        Seq::empty()
    } else {
        "# Subtitle Tracks\n"@ + subtitle_lines(subtitles, place) + "\n"@
    }
}

fn push_subtitle_section(
    out: &mut String,
    streams: &Vec<SubtitleStreamInfo>,
    tracks: &HashSet<usize>,
    video_url: &str,
    session_id: Option<&str>,
) -> (shown: bool)
    ensures
        final(out)@ == old(out)@ + subtitle_section(
            enabled_subtitles(streams@, tracks@),
            Place { video_url: video_url@, session_id: opt_str(session_id) },
        ),
        shown == (enabled_subtitles(streams@, tracks@).len() > 0),
{
    let ghost place = Place { video_url: video_url@, session_id: opt_str(session_id) };
    let mut lines: String = String::new();
    let mut shown: bool = false;
    let mut i: usize = 0;
    proof {
        reveal(Seq::filter);
    }
    while i < streams.len()
        invariant
            i <= streams@.len(),
            place == (Place { video_url: video_url@, session_id: opt_str(session_id) }),
            lines@ == subtitle_lines(enabled_subtitles(streams@.take(i as int), tracks@), place),
            shown == (enabled_subtitles(streams@.take(i as int), tracks@).len() > 0),
        decreases streams.len() - i,
    {
        let s: &SubtitleStreamInfo = &streams[i];
        proof {
            reveal(Seq::filter);
            assert(streams@.take(i + 1).drop_last() =~= streams@.take(i as int));
            let before = enabled_subtitles(streams@.take(i as int), tracks@);
            assert(before.push(*s).drop_last() =~= before);
        }
        if tracks.contains(&s.stream_index) {
            let language: &str = match &s.language {
                Some(l) => l.as_str(),
                None => "und",
            };
            let upper: String = language.to_uppercase();
            let line: String = subtitle_media_line(
                language,
                s.stream_index,
                upper.as_str(),
                !shown,
                video_url,
                session_id,
            );
            lines.push_str(line.as_str());
            shown = true;
        }
        i += 1;
    }
    assert(streams@.take(streams@.len() as int) =~= streams@);
    if shown {
        out.push_str("# Subtitle Tracks\n");
        out.push_str(lines.as_str());
        out.push_str("\n");
    }
    assert(out@ =~= old(out)@ + subtitle_section(enabled_subtitles(streams@, tracks@), place));
    shown
}

/// The groups of audio streams, in the order in which they are first met.
pub open spec fn groups(audio: Seq<AudioView>) -> Seq<Seq<char>>
    decreases audio.len(),
{
    if audio.len() == 0 {
        Seq::empty()
    } else {
        let before = groups(audio.drop_last());
        if before.contains(group_name(audio.last())) {
            before
        } else {
            before.push(group_name(audio.last()))
        }
    }
}

/// The bit rates of the audio streams of a group, cut to 32 bits.
pub open spec fn group_bitrates(audio: Seq<AudioView>, group: Seq<char>) -> Seq<u32> {
    audio.filter(|a: AudioView| group_name(a) == group).map_values(
        |a: AudioView| (a.bitrate % 0x1_0000_0000) as u32,
    )
}

/// The bit rate that a video stream is announced with: at least 100,000.
pub open spec fn video_rate(video: VideoStreamInfo) -> nat {
    if video.bitrate > 100_000 {
        video.bitrate as nat
    } else {
        100_000
    }
}

/// The bandwidth and resolution that open the entry of a variant.
pub open spec fn variant_head(video: VideoStreamInfo, audio: Seq<u32>) -> Seq<char> {
    "#EXT-X-STREAM-INF:BANDWIDTH="@ + decimal(bandwidth(video_rate(video), audio))
        + ",RESOLUTION="@ + decimal(video.width as nat) + "x"@ + decimal(video.height as nat)
}

/// The reference to the subtitles, if there are any.
pub open spec fn subtitle_attribute(subtitles: bool) -> Seq<char> {
    if subtitles {
        ",SUBTITLES=\"subs\""@
    } else {
        Seq::empty()
    }
}

/// The codecs of a video stream with some audio and subtitles.
pub open spec fn codec_list(
    video: VideoStreamInfo,
    audio: Option<Seq<char>>,
    subtitles: bool,
) -> Seq<Seq<char>> {
    codec_names(
        video_attribute(video.codec_id, video.profile, video.level),
        audio,
        subtitles,
    )
}

/// The `CODECS` attribute of a variant, if there is anything to name.
pub open spec fn codecs_attribute(
    video: VideoStreamInfo,
    audio: Option<Seq<char>>,
    subtitles: bool,
) -> Seq<char> {
    let names = codec_list(video, audio, subtitles);
    if names.len() > 0 {
        ",CODECS=\""@ + joined_with(names, ","@) + "\""@
    } else {
        Seq::empty()
    }
}

/// What ends the entry of a variant: a line break, and the URL of its playlist.
pub open spec fn variant_end(uri: Seq<char>) -> Seq<char> {
    "\n"@ + uri + "\n"@
}

/// The variant with interleaved audio.
pub open spec fn interleaved_variant(
    video: VideoStreamInfo,
    a: AudioView,
    subtitles: bool,
    place: Place,
) -> Seq<char> {
    variant_head(video, seq![(a.bitrate % 0x1_0000_0000) as u32]) + codecs_attribute(
        video,
        Some(attribute_name(delivered(a))),
        subtitles,
    ) + subtitle_attribute(subtitles) + variant_end(
        playlist_uri(place, video.stream_index, Some(a.stream_index), transcode_name_of(a)),
    )
}

/// The variant without audio.
pub open spec fn silent_variant(video: VideoStreamInfo, subtitles: bool, place: Place) -> Seq<
    char,
> {
    variant_head(video, Seq::empty()) + subtitle_attribute(subtitles) + codecs_attribute(
        video,
        None,
        subtitles,
    ) + variant_end(playlist_uri(place, video.stream_index, None, None))
}

/// The name of a group in a `CODECS` attribute.
pub open spec fn group_attribute(group: Seq<char>) -> Seq<char> {
    match codec_of_name(group) {
        Some(id) => attribute_name(id),
        None => group,
    }
}

/// The reference to the audio of a group.
pub open spec fn audio_attribute(group: Seq<char>) -> Seq<char> {
    ",AUDIO=\"audio-"@ + group + "\""@
}

/// The variant with the audio of one group.
pub open spec fn group_variant(
    video: VideoStreamInfo,
    audio: Seq<AudioView>,
    group: Seq<char>,
    subtitles: bool,
    place: Place,
) -> Seq<char> {
    variant_head(video, group_bitrates(audio, group)) + audio_attribute(group) + codecs_attribute(
        video,
        Some(group_attribute(group)),
        subtitles,
    ) + subtitle_attribute(subtitles) + variant_end(
        playlist_uri(place, video.stream_index, None, None),
    )
}

/// The variants with the audio of each of some groups.
pub open spec fn group_variants(
    video: VideoStreamInfo,
    audio: Seq<AudioView>,
    names: Seq<Seq<char>>,
    subtitles: bool,
    place: Place,
) -> Seq<char>
    decreases names.len(),
{
    if names.len() == 0 {
        Seq::empty()
    } else {
        group_variants(video, audio, names.drop_last(), subtitles, place) + group_variant(
            video,
            audio,
            names.last(),
            subtitles,
            place,
        )
    }
}

/// All variants of a video stream.
pub open spec fn variants(
    video: VideoStreamInfo,
    audio: Seq<AudioView>,
    interleaved: bool,
    subtitles: bool,
    place: Place,
) -> Seq<char> {
    if interleaved {
        interleaved_variant(video, audio[0], subtitles, place)
    } else if audio.len() == 0 {
        silent_variant(video, subtitles, place)
    } else {
        group_variants(video, audio, groups(audio), subtitles, place)
    }
}

fn push_variant_head(out: &mut String, video: &VideoStreamInfo, audio: &[u32])
    ensures
        final(out)@ == old(out)@ + variant_head(*video, audio@),
{
    let rate: u64 = if video.bitrate > 100_000 {
        video.bitrate
    } else {
        100_000
    };
    out.push_str("#EXT-X-STREAM-INF:BANDWIDTH=");
    push_decimal(out, calculate_bandwidth(rate, audio));
    out.push_str(",RESOLUTION=");
    push_decimal(out, video.width as u64);
    out.push_str("x");
    push_decimal(out, video.height as u64);
    assert(out@ =~= old(out)@ + variant_head(*video, audio@));
}

fn push_subtitle_attribute(out: &mut String, subtitles: bool)
    ensures
        final(out)@ == old(out)@ + subtitle_attribute(subtitles),
{
    if subtitles {
        out.push_str(",SUBTITLES=\"subs\"");
    }
    assert(out@ =~= old(out)@ + subtitle_attribute(subtitles));
}

fn cut_rate(rate: u64) -> (cut: u32)
    ensures
        cut == (rate % 0x1_0000_0000) as u32,
{
    (rate % 0x1_0000_0000) as u32
}

fn push_codecs(out: &mut String, video: &VideoStreamInfo, audio: Option<&str>, subtitles: bool)
    ensures
        final(out)@ == old(out)@ + codecs_attribute(*video, opt_str(audio), subtitles),
{
    if let Some(codecs) = build_codec_attribute(
        Some(video.codec_id),
        video.profile,
        video.level,
        audio,
        subtitles,
    ) {
        out.push_str(",CODECS=\"");
        out.push_str(codecs.as_str());
        out.push_str("\"");
    }
    assert(out@ =~= old(out)@ + codecs_attribute(*video, opt_str(audio), subtitles));
}

fn push_variant_end(out: &mut String, uri: &str)
    ensures
        final(out)@ == old(out)@ + variant_end(uri@),
{
    out.push_str("\n");
    out.push_str(uri);
    out.push_str("\n");
    assert(out@ =~= old(out)@ + variant_end(uri@));
}

fn push_interleaved_variant(
    out: &mut String,
    video: &VideoStreamInfo,
    a: &AudioStreamInfo,
    subtitles: bool,
    video_url: &str,
    session_id: Option<&str>,
)
    ensures
        final(out)@ == old(out)@ + interleaved_variant(
            *video,
            a@,
            subtitles,
            Place { video_url: video_url@, session_id: opt_str(session_id) },
        ),
{
    let id: Id = match a.transcode_to {
        Some(id) => id,
        None => a.codec_id,
    };
    let mut rates: Vec<u32> = Vec::new();
    rates.push(cut_rate(a.bitrate));
    assert(rates@ =~= seq![(a.bitrate % 0x1_0000_0000) as u32]);
    let uri: String = make_uri(
        video_url,
        session_id,
        video.stream_index,
        Some(a.stream_index),
        find_transcode_name(a),
    );
    push_variant_head(out, video, rates.as_slice());
    push_codecs(out, video, Some(codec_name(id)), subtitles);
    push_subtitle_attribute(out, subtitles);
    push_variant_end(out, uri.as_str());
    assert(out@ =~= old(out)@ + interleaved_variant(
        *video,
        a@,
        subtitles,
        Place { video_url: video_url@, session_id: opt_str(session_id) },
    ));
}

fn push_silent_variant(
    out: &mut String,
    video: &VideoStreamInfo,
    subtitles: bool,
    video_url: &str,
    session_id: Option<&str>,
)
    ensures
        final(out)@ == old(out)@ + silent_variant(
            *video,
            subtitles,
            Place { video_url: video_url@, session_id: opt_str(session_id) },
        ),
{
    let rates: Vec<u32> = Vec::new();
    assert(rates@ =~= Seq::<u32>::empty());
    let uri: String = make_uri(video_url, session_id, video.stream_index, None, None);
    push_variant_head(out, video, rates.as_slice());
    push_subtitle_attribute(out, subtitles);
    push_codecs(out, video, None, subtitles);
    push_variant_end(out, uri.as_str());
    assert(out@ =~= old(out)@ + silent_variant(
        *video,
        subtitles,
        Place { video_url: video_url@, session_id: opt_str(session_id) },
    ));
}

fn collect_bitrates(audio: &Vec<AudioStreamInfo>, group: &str) -> (rates: Vec<u32>)
    ensures
        rates@ == group_bitrates(audio_views(audio@), group@),
{
    let mut rates: Vec<u32> = Vec::new();
    let ghost views = audio_views(audio@);
    let ghost p = |a: AudioView| group_name(a) == group@;
    let ghost f = |a: AudioView| (a.bitrate % 0x1_0000_0000) as u32;
    proof {
        reveal(Seq::filter);
        assert(rates@ =~= views.take(0).filter(p).map_values(f));
    }
    let mut i: usize = 0;
    while i < audio.len()
        invariant
            i <= audio@.len(),
            views == audio_views(audio@),
            p == (|a: AudioView| group_name(a) == group@),
            f == (|a: AudioView| (a.bitrate % 0x1_0000_0000) as u32),
            rates@ == views.take(i as int).filter(p).map_values(f),
        decreases audio.len() - i,
    {
        let ghost kept = views.take(i as int).filter(p);
        proof {
            reveal(Seq::filter);
            assert(views.take(i + 1).drop_last() =~= views.take(i as int));
            assert(views.take(i + 1).last() == audio@[i as int]@);
            assert(kept.push(audio@[i as int]@).map_values(f) =~= kept.map_values(f).push(
                f(audio@[i as int]@),
            ));
        }
        if same_text(group_of(&audio[i]), group) {
            rates.push(cut_rate(audio[i].bitrate));
        }
        i += 1;
    }
    assert(views.take(views.len() as int) =~= views);
    rates
}

fn push_audio_attribute(out: &mut String, group: &str)
    ensures
        final(out)@ == old(out)@ + audio_attribute(group@),
{
    out.push_str(",AUDIO=\"audio-");
    out.push_str(group);
    out.push_str("\"");
    assert(out@ =~= old(out)@ + audio_attribute(group@));
}

#[verifier::rlimit(30)]
fn push_group_variant(
    out: &mut String,
    video: &VideoStreamInfo,
    audio: &Vec<AudioStreamInfo>,
    group: &str,
    subtitles: bool,
    video_url: &str,
    session_id: Option<&str>,
)
    ensures
        final(out)@ == old(out)@ + group_variant(
            *video,
            audio_views(audio@),
            group@,
            subtitles,
            Place { video_url: video_url@, session_id: opt_str(session_id) },
        ),
{
    let rates: Vec<u32> = collect_bitrates(audio, group);
    let attribute: String = match codec_name_normalized(group) {
        Some(name) => name,
        None => group.to_owned(),
    };
    let uri: String = make_uri(video_url, session_id, video.stream_index, None, None);
    push_variant_head(out, video, rates.as_slice());
    push_audio_attribute(out, group);
    push_codecs(out, video, Some(attribute.as_str()), subtitles);
    push_subtitle_attribute(out, subtitles);
    push_variant_end(out, uri.as_str());
    assert(out@ =~= old(out)@ + group_variant(
        *video,
        audio_views(audio@),
        group@,
        subtitles,
        Place { video_url: video_url@, session_id: opt_str(session_id) },
    ));
}

/// Static names as texts.
pub open spec fn names_of(list: Seq<&'static str>) -> Seq<Seq<char>> {
    Seq::new(list.len(), |i: int| list[i]@)
}

fn is_name_in(list: &Vec<&'static str>, name: &str) -> (b: bool)
    ensures
        b == names_of(list@).contains(name@),
{
    let mut i: usize = 0;
    while i < list.len()
        invariant
            i <= list@.len(),
            forall|j: int| 0 <= j < i ==> (#[trigger] list@[j])@ != name@,
        decreases list.len() - i,
    {
        if same_text(list[i], name) {
            assert(names_of(list@)[i as int] == name@);
            return true;
        }
        i += 1;
    }
    assert forall|j: int| 0 <= j < names_of(list@).len() implies names_of(list@)[j] != name@ by {
        assert(list@[j]@ != name@);
    }
    false
}

fn collect_groups(audio: &Vec<AudioStreamInfo>) -> (list: Vec<&'static str>)
    ensures
        names_of(list@) == groups(audio_views(audio@)),
{
    let mut list: Vec<&'static str> = Vec::new();
    let ghost views = audio_views(audio@);
    assert(names_of(list@) =~= groups(views.take(0)));
    let mut i: usize = 0;
    while i < audio.len()
        invariant
            i <= audio@.len(),
            views == audio_views(audio@),
            names_of(list@) == groups(views.take(i as int)),
        decreases audio.len() - i,
    {
        let group: &'static str = group_of(&audio[i]);
        let ghost before = list@;
        proof {
            assert(views.take(i + 1).drop_last() =~= views.take(i as int));
            assert(views.take(i + 1).last() == audio@[i as int]@);
        }
        if !is_name_in(&list, group) {
            list.push(group);
            assert(names_of(list@) =~= names_of(before).push(group@));
        }
        i += 1;
    }
    assert(views.take(views.len() as int) =~= views);
    list
}

#[verifier::rlimit(30)]
fn push_variants(
    out: &mut String,
    video: &VideoStreamInfo,
    audio: &Vec<AudioStreamInfo>,
    interleaved: bool,
    subtitles: bool,
    video_url: &str,
    session_id: Option<&str>,
)
    requires
        interleaved ==> audio@.len() > 0,
    ensures
        final(out)@ == old(out)@ + variants(
            *video,
            audio_views(audio@),
            interleaved,
            subtitles,
            Place { video_url: video_url@, session_id: opt_str(session_id) },
        ),
{
    let ghost place = Place { video_url: video_url@, session_id: opt_str(session_id) };
    let ghost views = audio_views(audio@);
    assert(views.len() == audio@.len());
    if interleaved {
        assert(views[0] == audio@[0]@);
        push_interleaved_variant(out, video, &audio[0], subtitles, video_url, session_id);
    } else if audio.len() == 0 {
        push_silent_variant(out, video, subtitles, video_url, session_id);
    } else {
        let list: Vec<&'static str> = collect_groups(audio);
        let ghost open = out@;
        let ghost names = names_of(list@);
        assert(open + Seq::<char>::empty() =~= open);
        let mut i: usize = 0;
        while i < list.len()
            invariant
                i <= list@.len(),
                names == names_of(list@),
                views == audio_views(audio@),
                place == (Place { video_url: video_url@, session_id: opt_str(session_id) }),
                out@ == open + group_variants(
                    *video,
                    views,
                    names.take(i as int),
                    subtitles,
                    place,
                ),
            decreases list.len() - i,
        {
            proof {
                assert(names.take(i + 1).drop_last() =~= names.take(i as int));
                assert(names.take(i + 1).last() == list@[i as int]@);
            }
            push_group_variant(out, video, audio, list[i], subtitles, video_url, session_id);
            assert(out@ =~= open + group_variants(
                *video,
                views,
                names.take(i + 1),
                subtitles,
                place,
            ));
            i += 1;
        }
        assert(names.take(names.len() as int) =~= names);
    }
}

/// The audio goes with the video: that was asked for, and there is one stream of each.
pub open spec fn goes_interleaved(
    asked: bool,
    video: Seq<VideoStreamInfo>,
    audio: Seq<AudioView>,
) -> bool {
    asked && video.len() == 1 && audio.len() == 1
}

/// A main playlist of the given streams.
pub open spec fn main_playlist(
    video: Seq<VideoStreamInfo>,
    audio: Seq<AudioView>,
    subtitles: Seq<SubtitleStreamInfo>,
    interleaved: bool,
    place: Place,
) -> Seq<char> {
    "#EXTM3U\n#EXT-X-VERSION:7\n\n"@ + audio_section(
        audio,
        goes_interleaved(interleaved, video, audio),
        place,
    ) + subtitle_section(subtitles, place) + "# Video Variants\n"@ + (if video.len() > 0 {
        variants(
            video[0],
            audio,
            goes_interleaved(interleaved, video, audio),
            subtitles.len() > 0,
            place,
        )
    } else {
        Seq::empty()
    })
}

fn find_video<'a>(streams: &'a Vec<VideoStreamInfo>, tracks: &HashSet<usize>) -> (found: (
    Option<&'a VideoStreamInfo>,
    usize,
))
    ensures
        found.1 == enabled_video(streams@, tracks@).len(),
        match found.0 {
            Some(v) => found.1 > 0 && *v == enabled_video(streams@, tracks@)[0],
            None => found.1 == 0,
        },
{
    let mut first: Option<&'a VideoStreamInfo> = None;
    let mut count: usize = 0;
    let mut i: usize = 0;
    proof {
        reveal(Seq::filter);
    }
    while i < streams.len()
        invariant
            i <= streams@.len(),
            count <= i,
            count == enabled_video(streams@.take(i as int), tracks@).len(),
            match first {
                Some(v) => count > 0 && *v == enabled_video(streams@.take(i as int), tracks@)[0],
                None => count == 0,
            },
        decreases streams.len() - i,
    {
        proof {
            reveal(Seq::filter);
            assert(streams@.take(i + 1).drop_last() =~= streams@.take(i as int));
        }
        if tracks.contains(&streams[i].stream_index) {
            if count == 0 {
                first = Some(&streams[i]);
            }
            count += 1;
        }
        i += 1;
    }
    assert(streams@.take(streams@.len() as int) =~= streams@);
    (first, count)
}

/// The main playlist of a media file.
///
/// It lists the playlists of the enabled tracks: those of the audio by codec, and one
/// variant of the video for each codec of the audio. With `interleaved`, and one stream of
/// each kind, there is a single variant with the audio in it.
pub fn generate_master_playlist(
    index: &StreamIndex,
    video_url: &str,
    session_id: Option<&str>,
    codecs: &[String],
    tracks_enabled: &HashSet<usize>,
    transcode: &HashMap<usize, String>,
    interleaved: bool,
) -> (out: String)
    ensures
        out@ == main_playlist(
            enabled_video(index.video_streams@, tracks_enabled@),
            selected_audio(
                audio_views(index.audio_streams@),
                tracks_enabled@,
                transcode@,
                codecs@,
            ),
            enabled_subtitles(index.subtitle_streams@, tracks_enabled@),
            interleaved,
            Place { video_url: video_url@, session_id: opt_str(session_id) },
        ),
{
    let mut out: String = "#EXTM3U\n#EXT-X-VERSION:7\n\n".to_owned();
    let audio: Vec<AudioStreamInfo> = select_audio(
        &index.audio_streams,
        tracks_enabled,
        transcode,
        codecs,
    );
    assert(audio_views(audio@).len() == audio@.len());
    let (video, count): (Option<&VideoStreamInfo>, usize) = find_video(
        &index.video_streams,
        tracks_enabled,
    );
    let together: bool = interleaved && count == 1 && audio.len() == 1;
    push_audio_section(&mut out, &audio, together, video_url, session_id);
    let subtitles: bool = push_subtitle_section(
        &mut out,
        &index.subtitle_streams,
        tracks_enabled,
        video_url,
        session_id,
    );
    out.push_str("# Video Variants\n");
    if let Some(v) = video {
        push_variants(&mut out, v, &audio, together, subtitles, video_url, session_id);
    }
    assert(out@ =~= main_playlist(
        enabled_video(index.video_streams@, tracks_enabled@),
        audio_views(audio@),
        enabled_subtitles(index.subtitle_streams@, tracks_enabled@),
        interleaved,
        Place { video_url: video_url@, session_id: opt_str(session_id) },
    ));
    out
}

} // verus!
