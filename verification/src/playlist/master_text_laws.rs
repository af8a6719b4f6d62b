//! What a main playlist says, line by line.

use vstd::prelude::*;
use crate::media::{AudioView, Id, SubtitleStreamInfo, VideoStreamInfo};
use crate::params::opt_text;
use crate::search::{is_choice, lemma_filter_is_choice};
use crate::text::{decimal, joined_with, lemma_lined_concat, lemma_lined_one, lined, uppercase};
use crate::url_grammar::base_name;
use super::codec::{
    attribute_name, codec_of_name, label_of, rfc5646, short_name, total, video_attribute,
};
use super::master::{
    audio_line, audio_lines, audio_section, delivered, enabled_audio, enabled_subtitles,
    enabled_video, goes_interleaved, group_bitrates, group_name, group_variant, group_variants,
    groups, in_order, interleaved_variant, main_playlist, playlist_uri, silent_variant,
    subtitle_line, subtitle_lines, subtitle_section, transcode_name_of, variants, Place,
};

verus! {

/// The URL of the playlist of a track, with its audio and the codec of that, beside the video
/// file and below the session.
pub open spec fn uri_of(
    place: Place,
    track: usize,
    audio: Option<usize>,
    codec: Option<Seq<char>>,
) -> Seq<char> {
    base_name(place.video_url) + "/"@ + (match place.session_id {
        Some(id) => id + "/"@,
        None => ""@,
    }) + "t."@ + decimal(track as nat) + (match (audio, codec) {
        (Some(a), Some(c)) => "+"@ + decimal(a as nat) + "-"@ + c,
        (Some(a), None) => "+"@ + decimal(a as nat),
        (None, _) => ""@,
    }) + ".m3u8"@
}

proof fn lemma_uri(place: Place, track: usize, audio: Option<usize>, codec: Option<Seq<char>>)
    ensures
        playlist_uri(place, track, audio, codec) == uri_of(place, track, audio, codec),
{
    reveal_strlit("");
    assert(playlist_uri(place, track, audio, codec) =~= uri_of(place, track, audio, codec));
}

/// The codec that an audio track comes in: the one that it is transcoded to, or its own.
pub open spec fn track_codec(a: AudioView) -> Id {
    if a.transcode_to is Some {
        a.transcode_to->Some_0
    } else {
        a.codec_id
    }
}

/// The group of an audio track: the short name of its codec, or AAC for one without.
pub open spec fn track_group(a: AudioView) -> Seq<char> {
    if short_name(track_codec(a)) is Some {
        short_name(track_codec(a))->Some_0
    } else {
        "aac"@
    }
}

/// The codec that an audio track is transcoded to, by its short name.
pub open spec fn track_transcode(a: AudioView) -> Option<Seq<char>> {
    if a.transcode_to is Some {
        short_name(a.transcode_to->Some_0)
    } else {
        None
    }
}

/// What the audio tracks of a group take together.
pub open spec fn group_rate(audio: Seq<AudioView>, group: Seq<char>) -> nat
    decreases audio.len(),
{
    if audio.len() == 0 {
        0
    } else if track_group(audio.last()) == group {
        group_rate(audio.drop_last(), group) + (audio.last().bitrate as nat) % 0x1_0000_0000
    } else {
        group_rate(audio.drop_last(), group)
    }
}

proof fn lemma_group_rate(audio: Seq<AudioView>, group: Seq<char>)
    ensures
        total(group_bitrates(audio, group)) == group_rate(audio, group),
    decreases audio.len(),
{
    reveal(Seq::filter);
    let f = |a: AudioView| group_name(a) == group;
    let g = |a: AudioView| (a.bitrate % 0x1_0000_0000) as u32;
    if audio.len() > 0 {
        let rest = audio.drop_last();
        lemma_group_rate(rest, group);
        let rates = group_bitrates(audio, group);
        assert(group_name(audio.last()) == track_group(audio.last()));
        if f(audio.last()) {
            assert(audio.filter(f) == rest.filter(f).push(audio.last()));
            assert(rates.drop_last() =~= group_bitrates(rest, group));
            assert(rates.last() == g(audio.last()));
        } else {
            assert(audio.filter(f) == rest.filter(f));
        }
    } else {
        assert(group_bitrates(audio, group) =~= Seq::<u32>::empty());
    }
}

/// The line of the subtitle track at `k`: it names the language and the playlist of the track,
/// and the first one is the default.
pub open spec fn subtitle_entry(subtitles: Seq<SubtitleStreamInfo>, k: int, place: Place) -> Seq<
    char,
> {
    let language = match opt_text(subtitles[k].language) {
        Some(l) => l,
        None => "und"@,
    };
    let chosen = if k == 0 {
        "YES"@
    } else {
        "NO"@
    };
    "#EXT-X-MEDIA:TYPE=SUBTITLES,GROUP-ID=\"subs\",LANGUAGE=\""@ + rfc5646(language)
        + "\",NAME=\""@ + uppercase(language) + " Subtitles\",DEFAULT="@ + chosen + ",AUTOSELECT="@
        + chosen + ",FORCED=NO,URI=\""@ + uri_of(place, subtitles[k].stream_index, None, None)
        + "\""@
}

/// The line of the audio track at `k`: it names its group, language and playlist, and the first
/// one of its group is the default.
pub open spec fn audio_entry(audio: Seq<AudioView>, k: int, place: Place) -> Seq<char> {
    let a = audio[k];
    let language = match a.language {
        Some(l) => l,
        None => "und"@,
    };
    let label = label_of(track_codec(a));
    "#EXT-X-MEDIA:TYPE=AUDIO,GROUP-ID=\"audio-"@ + track_group(a) + "\",LANGUAGE=\""@ + rfc5646(
        language,
    ) + "\",NAME=\""@ + (if language == "und"@ {
        label
    } else {
        uppercase(language) + " "@ + label
    }) + "\",DEFAULT="@ + (if exists|j: int|
        0 <= j < k && track_group(#[trigger] audio[j]) == track_group(a) {
        "NO"@
    } else {
        "YES"@
    }) + ",AUTOSELECT=YES,URI=\""@ + uri_of(place, a.stream_index, None, track_transcode(a))
        + "\""@
}

/// The line that announces a variant: how much it takes, how large it is, its audio, its codecs
/// and whether it has subtitles.
pub open spec fn variant_entry(
    video: VideoStreamInfo,
    audio_rate: nat,
    group: Option<Seq<char>>,
    audio_codec: Option<Seq<char>>,
    subtitles: bool,
    subtitles_first: bool,
) -> Seq<char> {
    let rate = if video.bitrate < 100_000 {
        100_000
    } else {
        video.bitrate as nat
    };
    let sum = rate + audio_rate;
    let names = match (
        video_attribute(video.codec_id, video.profile, video.level),
        audio_codec,
        subtitles,
    ) {
        (Some(v), Some(a), true) => ",CODECS=\""@ + v + ","@ + a + ",wvtt\""@,
        (Some(v), Some(a), false) => ",CODECS=\""@ + v + ","@ + a + "\""@,
        (Some(v), None, true) => ",CODECS=\""@ + v + ",wvtt\""@,
        (Some(v), None, false) => ",CODECS=\""@ + v + "\""@,
        (None, Some(a), true) => ",CODECS=\""@ + a + ",wvtt\""@,
        (None, Some(a), false) => ",CODECS=\""@ + a + "\""@,
        (None, None, true) => ",CODECS=\"wvtt\""@,
        (None, None, false) => ""@,
    };
    let shown = if subtitles {
        ",SUBTITLES=\"subs\""@
    } else {
        ""@
    };
    "#EXT-X-STREAM-INF:BANDWIDTH="@ + decimal(
        if sum > u64::MAX {
            u64::MAX as nat
        } else {
            sum
        },
    ) + ",RESOLUTION="@ + decimal(video.width as nat) + "x"@ + decimal(video.height as nat) + (
    match group {
        Some(g) => ",AUDIO=\"audio-"@ + g + "\""@,
        None => ""@,
    }) + (if subtitles_first {
        shown + names
    } else {
        names + shown
    })
}

/// The lines of a main playlist: its head, the audio tracks, unless the audio goes with the
/// video, the subtitle tracks, and the variants of the first video stream, one for each group of
/// audio, each with the URL of its playlist.
pub open spec fn are_lines(
    lines: Seq<Seq<char>>,
    video: Seq<VideoStreamInfo>,
    audio: Seq<AudioView>,
    subtitles: Seq<SubtitleStreamInfo>,
    asked: bool,
    place: Place,
) -> bool {
    let together = asked && video.len() == 1 && audio.len() == 1;
    let listed = in_order(audio);
    let a = if audio.len() == 0 || together {
        0int
    } else {
        listed.len() as int + 2
    };
    let s = if subtitles.len() == 0 {
        0int
    } else {
        subtitles.len() as int + 2
    };
    let v = if video.len() == 0 {
        0int
    } else if together || audio.len() == 0 {
        2
    } else {
        2 * groups(audio).len() as int
    };
    let any = subtitles.len() > 0;
    &&& lines.len() == 4 + a + s + v
    &&& lines[0] == "#EXTM3U"@ && lines[1] == "#EXT-X-VERSION:7"@ && lines[2] == ""@
    &&& a > 0 ==> lines[3] == "# Audio Tracks"@ && lines[2 + a] == ""@
    &&& a > 0 ==> forall|k: int|
        0 <= k < listed.len() ==> lines[4 + k] == #[trigger] audio_entry(listed, k, place)
    &&& s > 0 ==> lines[3 + a] == "# Subtitle Tracks"@ && lines[2 + a + s] == ""@
    &&& forall|k: int|
        0 <= k < subtitles.len() ==> lines[4 + a + k] == #[trigger] subtitle_entry(
            subtitles,
            k,
            place,
        )
    &&& lines[3 + a + s] == "# Video Variants"@
    &&& video.len() > 0 && together ==> {
        &&& lines[4 + a + s] == variant_entry(
            video[0],
            (audio[0].bitrate as nat) % 0x1_0000_0000,
            None,
            Some(attribute_name(track_codec(audio[0]))),
            any,
            false,
        )
        &&& lines[5 + a + s] == uri_of(
            place,
            video[0].stream_index,
            Some(audio[0].stream_index),
            track_transcode(audio[0]),
        )
    }
    &&& video.len() > 0 && !together && audio.len() == 0 ==> {
        &&& lines[4 + a + s] == variant_entry(video[0], 0, None, None, any, true)
        &&& lines[5 + a + s] == uri_of(place, video[0].stream_index, None, None)
    }
    &&& video.len() > 0 && !together && audio.len() > 0 ==> forall|g: int|
        0 <= g < groups(audio).len() ==> {
            let name = #[trigger] groups(audio)[g];
            &&& lines[4 + a + s + 2 * g] == variant_entry(
                video[0],
                group_rate(audio, name),
                Some(name),
                Some(
                    match codec_of_name(name) {
                        Some(id) => attribute_name(id),
                        None => name,
                    },
                ),
                any,
                false,
            )
            &&& lines[5 + a + s + 2 * g] == uri_of(place, video[0].stream_index, None, None)
        }
}

proof fn lemma_subtitle_lines(subtitles: Seq<SubtitleStreamInfo>, n: int, place: Place)
    requires
        0 <= n <= subtitles.len(),
    ensures
        subtitle_lines(subtitles.take(n), place) == lined(
            Seq::new(n as nat, |k: int| subtitle_entry(subtitles, k, place)),
        ),
    decreases n,
{
    let lines = Seq::new(n as nat, |k: int| subtitle_entry(subtitles, k, place));
    let head = subtitles.take(n);
    if n > 0 {
        lemma_subtitle_lines(subtitles, n - 1, place);
        assert(head.drop_last() =~= subtitles.take(n - 1));
        assert(head.last() == subtitles[n - 1]);
        assert(lines.drop_last() =~= Seq::new(
            (n - 1) as nat,
            |k: int| subtitle_entry(subtitles, k, place),
        ));
        lemma_uri(place, subtitles[n - 1].stream_index, None, None);
        reveal_strlit("\"\n");
        reveal_strlit("\"");
        reveal_strlit("\n");
        assert("\"\n"@ =~= "\""@ + "\n"@);
        let language = super::master::language_or_und(opt_text(subtitles[n - 1].language));
        assert(subtitle_line(
            language,
            subtitles[n - 1].stream_index,
            uppercase(language),
            n == 1,
            place,
        ) =~= subtitle_entry(subtitles, n - 1, place) + "\n"@);
        assert(lines.last() == subtitle_entry(subtitles, n - 1, place));
        assert(subtitle_lines(head, place) =~= lined(lines));
    }
}

proof fn lemma_audio_lines(sorted: Seq<AudioView>, n: int, place: Place)
    requires
        0 <= n <= sorted.len(),
    ensures
        audio_lines(sorted, n, place) == lined(
            Seq::new(n as nat, |k: int| audio_entry(sorted, k, place)),
        ),
    decreases n,
{
    let lines = Seq::new(n as nat, |k: int| audio_entry(sorted, k, place));
    if n > 0 {
        let a = sorted[n - 1];
        lemma_audio_lines(sorted, n - 1, place);
        assert(lines.drop_last() =~= Seq::new(
            (n - 1) as nat,
            |k: int| audio_entry(sorted, k, place),
        ));
        lemma_uri(place, a.stream_index, None, transcode_name_of(a));
        reveal_strlit("\"\n");
        reveal_strlit("\"");
        reveal_strlit("\n");
        assert("\"\n"@ =~= "\""@ + "\n"@);
        let first = super::master::is_first_of_group(sorted, n - 1);
        assert(first == !(exists|j: int|
            0 <= j < n - 1 && track_group(#[trigger] sorted[j]) == track_group(a))) by {
            assert(forall|x: AudioView| group_name(x) == track_group(x));
        }
        assert(audio_line(
            a,
            uppercase(super::master::language_or_und(a.language)),
            first,
            place,
        ) =~= audio_entry(sorted, n - 1, place) + "\n"@);
        assert(lines.last() == audio_entry(sorted, n - 1, place));
        assert(audio_lines(sorted, n, place) =~= lined(lines));
    }
}

#[verifier::rlimit(40)]
proof fn lemma_codecs(video: VideoStreamInfo, audio: Option<Seq<char>>, subtitles: bool)
    ensures
        super::master::codecs_attribute(video, audio, subtitles) == match (
            video_attribute(video.codec_id, video.profile, video.level),
            audio,
            subtitles,
        ) {
            (Some(v), Some(a), true) => ",CODECS=\""@ + v + ","@ + a + ",wvtt\""@,
            (Some(v), Some(a), false) => ",CODECS=\""@ + v + ","@ + a + "\""@,
            (Some(v), None, true) => ",CODECS=\""@ + v + ",wvtt\""@,
            (Some(v), None, false) => ",CODECS=\""@ + v + "\""@,
            (None, Some(a), true) => ",CODECS=\""@ + a + ",wvtt\""@,
            (None, Some(a), false) => ",CODECS=\""@ + a + "\""@,
            (None, None, true) => ",CODECS=\"wvtt\""@,
            (None, None, false) => ""@,
        },
{
    reveal_strlit(",wvtt\"");
    reveal_strlit("wvtt");
    reveal_strlit("\"");
    reveal_strlit(",");
    reveal_strlit("");
    reveal_strlit(",CODECS=\"");
    reveal_strlit(",CODECS=\"wvtt\"");
    let w = "wvtt"@;
    let c = ","@;
    assert(",wvtt\""@ =~= c + w + "\""@);
    let names = super::master::codec_list(video, audio, subtitles);
    match (video_attribute(video.codec_id, video.profile, video.level), audio, subtitles) {
        (Some(v), Some(a), true) => {
            assert(names =~= seq![v, a, w]);
            assert(names.drop_last() =~= seq![v, a]);
            assert(seq![v, a].drop_last() =~= seq![v]);
            assert(joined_with(seq![v], c) == v);
            assert(joined_with(seq![v, a], c) =~= v + c + a);
            assert(joined_with(names, c) =~= v + c + a + c + w);
        },
        (Some(v), Some(a), false) => {
            assert(names =~= seq![v, a]);
            assert(names.drop_last() =~= seq![v]);
            assert(joined_with(seq![v], c) == v);
        },
        (Some(v), None, true) => {
            assert(names =~= seq![v, w]);
            assert(names.drop_last() =~= seq![v]);
            assert(joined_with(seq![v], c) == v);
        },
        (Some(v), None, false) => {
            assert(names =~= seq![v]);
        },
        (None, Some(a), true) => {
            assert(names =~= seq![a, w]);
            assert(names.drop_last() =~= seq![a]);
            assert(joined_with(seq![a], c) == a);
        },
        (None, Some(a), false) => {
            assert(names =~= seq![a]);
        },
        (None, None, true) => {
            assert(names =~= seq![w]);
        },
        (None, None, false) => {
            assert(names.len() == 0);
        },
    }
    assert(super::master::codecs_attribute(video, audio, subtitles) =~= match (
        video_attribute(video.codec_id, video.profile, video.level),
        audio,
        subtitles,
    ) {
        (Some(v), Some(a), true) => ",CODECS=\""@ + v + ","@ + a + ",wvtt\""@,
        (Some(v), Some(a), false) => ",CODECS=\""@ + v + ","@ + a + "\""@,
        (Some(v), None, true) => ",CODECS=\""@ + v + ",wvtt\""@,
        (Some(v), None, false) => ",CODECS=\""@ + v + "\""@,
        (None, Some(a), true) => ",CODECS=\""@ + a + ",wvtt\""@,
        (None, Some(a), false) => ",CODECS=\""@ + a + "\""@,
        (None, None, true) => ",CODECS=\"wvtt\""@,
        (None, None, false) => ""@,
    });
}

/// The two lines of a variant.
spec fn two_lines(entry: Seq<char>, uri: Seq<char>) -> Seq<Seq<char>> {
    seq![entry, uri]
}

proof fn lemma_two_lines(entry: Seq<char>, uri: Seq<char>)
    ensures
        lined(two_lines(entry, uri)) == entry + "\n"@ + uri + "\n"@,
{
    lemma_lined_one(entry);
    lemma_lined_one(uri);
    lemma_lined_concat(seq![entry], seq![uri]);
    assert(seq![entry] + seq![uri] =~= two_lines(entry, uri));
    assert(lined(two_lines(entry, uri)) =~= entry + "\n"@ + uri + "\n"@);
}

spec fn group_entry(
    video: VideoStreamInfo,
    audio: Seq<AudioView>,
    name: Seq<char>,
    any: bool,
) -> Seq<char> {
    variant_entry(
        video,
        group_rate(audio, name),
        Some(name),
        Some(
            match codec_of_name(name) {
                Some(id) => attribute_name(id),
                None => name,
            },
        ),
        any,
        false,
    )
}

/// The lines of the variants of some groups.
spec fn group_entries(
    video: VideoStreamInfo,
    audio: Seq<AudioView>,
    names: Seq<Seq<char>>,
    any: bool,
    place: Place,
) -> Seq<Seq<char>> {
    Seq::new(
        2 * names.len(),
        |n: int|
            if n % 2 == 0 {
                group_entry(video, audio, names[n / 2], any)
            } else {
                uri_of(place, video.stream_index, None, None)
            },
    )
}

proof fn lemma_group_variant(
    video: VideoStreamInfo,
    audio: Seq<AudioView>,
    name: Seq<char>,
    any: bool,
    place: Place,
)
    ensures
        group_variant(video, audio, name, any, place) == lined(
            two_lines(
                group_entry(video, audio, name, any),
                uri_of(place, video.stream_index, None, None),
            ),
        ),
{
    reveal_strlit("");
    let attribute = super::master::group_attribute(name);
    lemma_group_rate(audio, name);
    lemma_uri(place, video.stream_index, None, None);
    lemma_codecs(video, Some(attribute), any);
    lemma_two_lines(
        group_entry(video, audio, name, any),
        uri_of(place, video.stream_index, None, None),
    );
    assert(group_variant(video, audio, name, any, place) =~= group_entry(video, audio, name, any)
        + "\n"@ + uri_of(place, video.stream_index, None, None) + "\n"@);
}

proof fn lemma_group_variants(
    video: VideoStreamInfo,
    audio: Seq<AudioView>,
    names: Seq<Seq<char>>,
    any: bool,
    place: Place,
)
    ensures
        group_variants(video, audio, names, any, place) == lined(
            group_entries(video, audio, names, any, place),
        ),
    decreases names.len(),
{
    let lines = group_entries(video, audio, names, any, place);
    if names.len() == 0 {
        assert(lines =~= Seq::<Seq<char>>::empty());
    } else {
        let rest = names.drop_last();
        lemma_group_variants(video, audio, rest, any, place);
        lemma_group_variant(video, audio, names.last(), any, place);
        let before = group_entries(video, audio, rest, any, place);
        let two = two_lines(
            group_entry(video, audio, names.last(), any),
            uri_of(place, video.stream_index, None, None),
        );
        assert(lines =~= before + two) by {
            assert forall|n: int| 0 <= n < lines.len() implies lines[n] == (before + two)[n] by {
                if n < before.len() {
                    assert(rest[n / 2] == names[n / 2]);
                }
            }
        }
        lemma_lined_concat(before, two);
    }
}

proof fn lemma_variants(
    video: VideoStreamInfo,
    audio: Seq<AudioView>,
    together: bool,
    any: bool,
    place: Place,
) -> (lines: Seq<Seq<char>>)
    requires
        together ==> audio.len() == 1,
    ensures
        variants(video, audio, together, any, place) == lined(lines),
        together ==> lines == two_lines(
            variant_entry(
                video,
                (audio[0].bitrate as nat) % 0x1_0000_0000,
                None,
                Some(attribute_name(delivered(audio[0]))),
                any,
                false,
            ),
            uri_of(
                place,
                video.stream_index,
                Some(audio[0].stream_index),
                transcode_name_of(audio[0]),
            ),
        ),
        !together && audio.len() == 0 ==> lines == two_lines(
            variant_entry(video, 0, None, None, any, true),
            uri_of(place, video.stream_index, None, None),
        ),
        !together && audio.len() > 0 ==> lines == group_entries(
            video,
            audio,
            groups(audio),
            any,
            place,
        ),
{
    if together {
        let a = audio[0];
        lemma_interleaved(video, a, any, place);
        two_lines(
            together_entry(video, a, any),
            uri_of(place, video.stream_index, Some(a.stream_index), transcode_name_of(a)),
        )
    } else if audio.len() == 0 {
        lemma_silent(video, any, place);
        two_lines(
            variant_entry(video, 0, None, None, any, true),
            uri_of(place, video.stream_index, None, None),
        )
    } else {
        lemma_group_variants(video, audio, groups(audio), any, place);
        group_entries(video, audio, groups(audio), any, place)
    }
}

spec fn together_entry(video: VideoStreamInfo, a: AudioView, any: bool) -> Seq<char> {
    variant_entry(
        video,
        (a.bitrate as nat) % 0x1_0000_0000,
        None,
        Some(attribute_name(delivered(a))),
        any,
        false,
    )
}

#[verifier::rlimit(40)]
proof fn lemma_interleaved(video: VideoStreamInfo, a: AudioView, any: bool, place: Place)
    ensures
        interleaved_variant(video, a, any, place) == lined(
            two_lines(
                together_entry(video, a, any),
                uri_of(place, video.stream_index, Some(a.stream_index), transcode_name_of(a)),
            ),
        ),
{
    reveal_strlit("");
    let entry = together_entry(video, a, any);
    let rates = seq![(a.bitrate % 0x1_0000_0000) as u32];
    assert(rates.drop_last() =~= Seq::<u32>::empty());
    assert(total(rates.drop_last()) == 0);
    assert(total(rates) == (a.bitrate as nat) % 0x1_0000_0000);
    let uri = uri_of(place, video.stream_index, Some(a.stream_index), transcode_name_of(a));
    lemma_uri(place, video.stream_index, Some(a.stream_index), transcode_name_of(a));
    lemma_codecs(video, Some(attribute_name(delivered(a))), any);
    lemma_two_lines(entry, uri);
    assert(interleaved_variant(video, a, any, place) =~= entry + "\n"@ + uri + "\n"@);
}

#[verifier::rlimit(40)]
proof fn lemma_silent(video: VideoStreamInfo, any: bool, place: Place)
    ensures
        silent_variant(video, any, place) == lined(
            two_lines(
                variant_entry(video, 0, None, None, any, true),
                uri_of(place, video.stream_index, None, None),
            ),
        ),
{
    reveal_strlit("");
    let entry = variant_entry(video, 0, None, None, any, true);
    let uri = uri_of(place, video.stream_index, None, None);
    lemma_uri(place, video.stream_index, None, None);
    lemma_codecs(video, None, any);
    lemma_two_lines(entry, uri);
    assert(silent_variant(video, any, place) =~= entry + "\n"@ + uri + "\n"@);
}

proof fn lemma_section(title: Seq<char>, body: Seq<Seq<char>>)
    ensures
        lined(seq![title] + body + seq![""@]) == title + "\n"@ + lined(body) + "\n"@,
{
    reveal_strlit("");
    lemma_lined_one(title);
    lemma_lined_one(""@);
    lemma_lined_concat(seq![title], body);
    lemma_lined_concat(seq![title] + body, seq![""@]);
    assert(lined(seq![title] + body + seq![""@]) =~= title + "\n"@ + lined(body) + "\n"@);
}

/// A main playlist consists of these lines and no others.
#[verifier::rlimit(60)]
pub proof fn law_main_playlist_lines(
    video: Seq<VideoStreamInfo>,
    audio: Seq<AudioView>,
    subtitles: Seq<SubtitleStreamInfo>,
    asked: bool,
    place: Place,
)
    ensures
        exists|lines: Seq<Seq<char>>|
            main_playlist(video, audio, subtitles, asked, place) == lined(lines)
                && #[trigger] are_lines(lines, video, audio, subtitles, asked, place),
{
    reveal_strlit("");
    let together = goes_interleaved(asked, video, audio);
    let listed = in_order(audio);
    let any = subtitles.len() > 0;
    let head = seq!["#EXTM3U"@, "#EXT-X-VERSION:7"@, ""@];
    let none = Seq::<Seq<char>>::empty();
    let alines = if audio.len() == 0 || together {
        none
    } else {
        seq!["# Audio Tracks"@] + Seq::new(
            listed.len(),
            |k: int| audio_entry(listed, k, place),
        ) + seq![""@]
    };
    let slines = if subtitles.len() == 0 {
        none
    } else {
        seq!["# Subtitle Tracks"@] + Seq::new(
            subtitles.len(),
            |k: int| subtitle_entry(subtitles, k, place),
        ) + seq![""@]
    };
    let title = seq!["# Video Variants"@];
    let vlines = if video.len() > 0 {
        lemma_variants(video[0], audio, together, any, place)
    } else {
        none
    };
    assert(lined(head) == "#EXTM3U\n#EXT-X-VERSION:7\n\n"@) by {
        reveal_strlit("#EXTM3U");
        reveal_strlit("#EXT-X-VERSION:7");
        reveal_strlit("\n");
        reveal_strlit("#EXTM3U\n#EXT-X-VERSION:7\n\n");
        lemma_two_lines("#EXTM3U"@, "#EXT-X-VERSION:7"@);
        lemma_lined_one(""@);
        lemma_lined_concat(two_lines("#EXTM3U"@, "#EXT-X-VERSION:7"@), seq![""@]);
        assert(two_lines("#EXTM3U"@, "#EXT-X-VERSION:7"@) + seq![""@] =~= head);
        assert(lined(head) =~= "#EXTM3U\n#EXT-X-VERSION:7\n\n"@);
    }
    assert(lined(alines) == audio_section(audio, together, place)) by {
        if alines.len() > 0 {
            lemma_audio_lines(listed, listed.len() as int, place);
            lemma_section(
                "# Audio Tracks"@,
                Seq::new(listed.len(), |k: int| audio_entry(listed, k, place)),
            );
            lemma_title("# Audio Tracks"@, "# Audio Tracks\n"@, 0);
        }
    }
    assert(lined(slines) == subtitle_section(subtitles, place)) by {
        if slines.len() > 0 {
            assert(subtitles.take(subtitles.len() as int) =~= subtitles);
            lemma_subtitle_lines(subtitles, subtitles.len() as int, place);
            lemma_section(
                "# Subtitle Tracks"@,
                Seq::new(subtitles.len(), |k: int| subtitle_entry(subtitles, k, place)),
            );
            lemma_title("# Subtitle Tracks"@, "# Subtitle Tracks\n"@, 1);
        }
    }
    assert(lined(title) == "# Video Variants\n"@) by {
        lemma_lined_one("# Video Variants"@);
        lemma_title("# Video Variants"@, "# Video Variants\n"@, 2);
    }
    lemma_lined_concat(head, alines);
    lemma_lined_concat(head + alines, slines);
    lemma_lined_concat(head + alines + slines, title);
    lemma_lined_concat(head + alines + slines + title, vlines);
    let lines = head + alines + slines + title + vlines;
    assert(main_playlist(video, audio, subtitles, asked, place) =~= lined(lines));
    assert(are_lines(lines, video, audio, subtitles, asked, place)) by {
        let a = alines.len() as int;
        let s = slines.len() as int;
        assert forall|k: int| a > 0 && 0 <= k < listed.len() implies lines[4 + k]
            == #[trigger] audio_entry(listed, k, place) by {
            assert(lines[4 + k] == alines[1 + k]);
        }
        assert forall|k: int| 0 <= k < subtitles.len() implies lines[4 + a + k]
            == #[trigger] subtitle_entry(subtitles, k, place) by {
            assert(lines[4 + a + k] == slines[1 + k]);
        }
        if a > 0 {
            assert(lines[3] == alines[0]);
            assert(lines[2 + a] == alines[a - 1]);
        }
        if s > 0 {
            assert(lines[3 + a] == slines[0]);
            assert(lines[2 + a + s] == slines[s - 1]);
        }
        assert(lines[3 + a + s] == title[0]);
        if video.len() > 0 {
            assert forall|n: int| 0 <= n < vlines.len() implies lines[4 + a + s + n]
                == #[trigger] vlines[n] by {}
            if !together && audio.len() > 0 {
                assert forall|g: int| 0 <= g < groups(audio).len() implies {
                    let name = #[trigger] groups(audio)[g];
                    &&& lines[4 + a + s + 2 * g] == group_entry(video[0], audio, name, any)
                    &&& lines[5 + a + s + 2 * g] == uri_of(
                        place,
                        video[0].stream_index,
                        None,
                        None,
                    )
                } by {
                    assert(vlines[2 * g] == group_entry(video[0], audio, groups(audio)[g], any)) by {
                        assert((2 * g) / 2 == g && (2 * g) % 2 == 0);
                    }
                    assert(vlines[2 * g + 1] == uri_of(place, video[0].stream_index, None, None)) by {
                        assert((2 * g + 1) % 2 == 1);
                    }
                }
            } else {
                assert(lines[4 + a + s] == vlines[0]);
                assert(lines[5 + a + s] == vlines[1]);
            }
        }
    }
}

proof fn lemma_title(title: Seq<char>, line: Seq<char>, which: int)
    requires
        which == 0 ==> title == "# Audio Tracks"@ && line == "# Audio Tracks\n"@,
        which == 1 ==> title == "# Subtitle Tracks"@ && line == "# Subtitle Tracks\n"@,
        which == 2 ==> title == "# Video Variants"@ && line == "# Video Variants\n"@,
        0 <= which <= 2,
    ensures
        line == title + "\n"@,
{
    reveal_strlit("\n");
    reveal_strlit("# Audio Tracks");
    reveal_strlit("# Audio Tracks\n");
    reveal_strlit("# Subtitle Tracks");
    reveal_strlit("# Subtitle Tracks\n");
    reveal_strlit("# Video Variants");
    reveal_strlit("# Video Variants\n");
    assert(line =~= title + "\n"@);
}

/// The enabled subtitle streams are those whose index is enabled, in order.
pub proof fn law_enabled_subtitles(streams: Seq<SubtitleStreamInfo>, tracks: Set<usize>) -> (from: Seq<int>)
    ensures
        is_choice(
            streams,
            enabled_subtitles(streams, tracks),
            from,
            |i: int| tracks.contains(streams[i].stream_index),
        ),
{
    lemma_filter_is_choice(
        streams,
        |s: SubtitleStreamInfo| tracks.contains(s.stream_index),
        |i: int| tracks.contains(streams[i].stream_index),
    )
}

/// The enabled video streams are those whose index is enabled, in order.
pub proof fn law_enabled_video(streams: Seq<VideoStreamInfo>, tracks: Set<usize>) -> (from: Seq<int>)
    ensures
        is_choice(
            streams,
            enabled_video(streams, tracks),
            from,
            |i: int| tracks.contains(streams[i].stream_index),
        ),
{
    lemma_filter_is_choice(
        streams,
        |s: VideoStreamInfo| tracks.contains(s.stream_index),
        |i: int| tracks.contains(streams[i].stream_index),
    )
}

/// The enabled audio streams are those whose index is enabled, in order.
pub proof fn law_enabled_audio(streams: Seq<AudioView>, tracks: Set<usize>) -> (from: Seq<int>)
    ensures
        is_choice(
            streams,
            enabled_audio(streams, tracks),
            from,
            |i: int| tracks.contains(streams[i].stream_index),
        ),
{
    lemma_filter_is_choice(
        streams,
        |s: AudioView| tracks.contains(s.stream_index),
        |i: int| tracks.contains(streams[i].stream_index),
    )
}

} // verus!
