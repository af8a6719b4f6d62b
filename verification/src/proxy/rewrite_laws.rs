//! What a rewritten URL asks for, read out of it again.

use vstd::prelude::*;
use vstd::utf8::encode_utf8;
use crate::text::{is_free_of, joined_with, law_split_undoes_join, split_on};
use super::transcoding_url::{
    as_list, asked_in, first_text, is_unequivocal, known_keys, percent_encoded, proxied_url,
    proxy_query, times, value_of,
};

verus! {

/// `v` is the value that a query has under a key, if it has one.
pub open spec fn has_value(
    pairs: Seq<(Seq<char>, Seq<char>)>,
    key: Seq<char>,
    v: Option<Seq<char>>,
) -> bool {
    forall|x: Seq<char>| #[trigger] pairs.contains((key, x)) == (v == Some(x))
}

proof fn lemma_no_value(pairs: Seq<(Seq<char>, Seq<char>)>, key: Seq<char>)
    requires
        times(pairs, key) == 0,
    ensures
        value_of(pairs, key) is None,
        forall|x: Seq<char>| !#[trigger] pairs.contains((key, x)),
    decreases pairs.len(),
{
    if pairs.len() > 0 {
        let before = pairs.drop_last();
        lemma_no_value(before, key);
        assert forall|x: Seq<char>| !#[trigger] pairs.contains((key, x)) by {
            if pairs.contains((key, x)) {
                let i = pairs.index_of((key, x));
                if i < before.len() {
                    assert(before[i] == (key, x));
                    assert(before.contains((key, x)));
                }
            }
        }
    }
}

proof fn lemma_value(pairs: Seq<(Seq<char>, Seq<char>)>, key: Seq<char>)
    requires
        times(pairs, key) <= 1,
    ensures
        has_value(pairs, key, value_of(pairs, key)),
    decreases pairs.len(),
{
    if pairs.len() > 0 {
        let before = pairs.drop_last();
        let n = pairs.len() - 1;
        if pairs.last().0 == key {
            lemma_no_value(before, key);
        } else {
            lemma_value(before, key);
        }
        assert forall|x: Seq<char>| #[trigger] pairs.contains((key, x)) == (value_of(pairs, key)
            == Some(x)) by {
            if pairs.contains((key, x)) {
                let i = pairs.index_of((key, x));
                if i < n {
                    assert(before[i] == (key, x));
                    assert(before.contains((key, x)));
                }
            }
            if value_of(pairs, key) == Some(x) {
                if pairs.last().0 == key {
                    assert(pairs[n] == (key, x));
                } else {
                    assert(before.contains((key, x)));
                    let i = before.index_of((key, x));
                    assert(pairs[i] == (key, x));
                }
            }
        }
    }
}

proof fn lemma_value_is(pairs: Seq<(Seq<char>, Seq<char>)>, key: Seq<char>, v: Option<Seq<char>>)
    requires
        times(pairs, key) <= 1,
        has_value(pairs, key, v),
    ensures
        value_of(pairs, key) == v,
{
    lemma_value(pairs, key);
    let found = value_of(pairs, key);
    match (found, v) {
        (Some(x), _) => {
            assert(pairs.contains((key, x)));
        },
        (None, Some(x)) => {
            assert(pairs.contains((key, x)));
        },
        (None, None) => {},
    }
}

proof fn lemma_encoded_free(bytes: Seq<u8>)
    ensures
        is_free_of(percent_encoded(bytes), '&'),
    decreases bytes.len(),
{
    if bytes.len() > 0 {
        let b = bytes.last();
        lemma_encoded_free(bytes.drop_last());
        let head = percent_encoded(bytes.drop_last());
        let out = percent_encoded(bytes);
        assert forall|i: int| 0 <= i < out.len() implies #[trigger] out[i] != '&' by {
            if i < head.len() {
                assert(out[i] == head[i]);
            }
        }
    }
}

proof fn lemma_free_concat(a: Seq<char>, b: Seq<char>, c: char)
    requires
        is_free_of(a, c),
        is_free_of(b, c),
    ensures
        is_free_of(a + b, c),
{
    assert forall|i: int| 0 <= i < (a + b).len() implies #[trigger] (a + b)[i] != c by {
        if i < a.len() {
            assert((a + b)[i] == a[i]);
        } else {
            assert((a + b)[i] == b[i - a.len()]);
        }
    }
}

proof fn lemma_free_join(parts: Seq<Seq<char>>, sep: Seq<char>, c: char)
    requires
        is_free_of(sep, c),
        forall|i: int| 0 <= i < parts.len() ==> is_free_of(#[trigger] parts[i], c),
    ensures
        is_free_of(joined_with(parts, sep), c),
    decreases parts.len(),
{
    if parts.len() > 1 {
        let rest = parts.drop_last();
        assert forall|i: int| 0 <= i < rest.len() implies is_free_of(#[trigger] rest[i], c) by {
            assert(rest[i] == parts[i]);
        }
        lemma_free_join(rest, sep, c);
        lemma_free_concat(joined_with(rest, sep), sep, c);
        assert(is_free_of(parts[parts.len() - 1], c));
        lemma_free_concat(joined_with(rest, sep) + sep, parts.last(), c);
    } else if parts.len() == 1 {
        assert(is_free_of(parts[0], c));
    }
}

/// A value, if there is one, holds neither of the characters that part a query and a list.
pub open spec fn is_plain_value(v: Option<Seq<char>>) -> bool {
    v matches Some(x) ==> is_free_of(x, '&') && is_free_of(x, ',')
}

/// A value, if there is one, does not hold the character that parts a query.
pub open spec fn is_one_value(v: Option<Seq<char>>) -> bool {
    v matches Some(x) ==> is_free_of(x, '&')
}

/// The list of the tracks that a query asks for: the video, then the audio if it is chosen, then
/// the subtitles if they are.
pub open spec fn chosen_tracks(audio: Option<Seq<char>>, subtitles: Option<Seq<char>>) -> Seq<
    Seq<char>,
> {
    match (audio, subtitles) {
        (Some(a), Some(s)) => seq!["0"@, a, s],
        (Some(a), None) => seq!["0"@, a],
        (None, Some(s)) => seq!["0"@, s],
        (None, None) => seq!["0"@],
    }
}

/// What the parts of a rewritten query are: the codecs, if the stream is transcoded and they are
/// named, the id of the stream, if there is one, the tracks, and how the audio goes.
pub open spec fn are_parts(
    parts: Seq<Seq<char>>,
    video_codec: Option<Seq<char>>,
    audio_codec: Option<Seq<char>>,
    audio: Option<Seq<char>>,
    subtitles: Option<Seq<char>>,
    id: Option<Seq<char>>,
    transcode: bool,
) -> bool {
    let named = transcode && (video_codec is Some || audio_codec is Some);
    let skip = if named {
        1int
    } else {
        0
    };
    let n = if id is Some {
        skip + 1
    } else {
        skip
    };
    &&& parts.len() == n + 2
    &&& named ==> parts[0] == "codecs="@ + match (video_codec, audio_codec) {
        (Some(v), Some(a)) => v + ","@ + a,
        (Some(v), None) => v,
        (None, Some(a)) => a,
        (None, None) => ""@,
    }
    &&& id matches Some(x) ==> parts[skip] == "stream_id="@ + percent_encoded(encode_utf8(x))
    &&& parts[n].len() >= 7 && parts[n].take(7) == "tracks="@
    &&& split_on(parts[n].skip(7), ',') == chosen_tracks(audio, subtitles)
    &&& parts[n + 1] == "interleave=true"@
}

#[verifier::rlimit(40)]
proof fn lemma_parts(
    pairs: Seq<(Seq<char>, Seq<char>)>,
    video_codec: Option<Seq<char>>,
    audio_codec: Option<Seq<char>>,
    audio: Option<Seq<char>>,
    subtitles: Option<Seq<char>>,
    session: Option<Seq<char>>,
    stream_id: Option<Seq<char>>,
    transcode: bool,
)
    requires
        asked_in(pairs).video_codec == video_codec,
        asked_in(pairs).audio_codec == audio_codec,
        asked_in(pairs).audio_track == audio,
        asked_in(pairs).subtitle_track == subtitles,
        asked_in(pairs).session == session,
        is_one_value(video_codec),
        is_one_value(audio_codec),
        is_plain_value(audio),
        is_plain_value(subtitles),
    ensures
        are_parts(
            proxy_query(asked_in(pairs), stream_id, transcode),
            video_codec,
            audio_codec,
            audio,
            subtitles,
            if stream_id is Some {
                stream_id
            } else {
                session
            },
            transcode,
        ),
        forall|i: int|
            0 <= i < proxy_query(asked_in(pairs), stream_id, transcode).len() ==> is_free_of(
                #[trigger] proxy_query(asked_in(pairs), stream_id, transcode)[i],
                '&',
            ),
{
    reveal_strlit("tracks=");
    reveal_strlit("codecs=");
    reveal_strlit("stream_id=");
    reveal_strlit("interleave=true");
    reveal_strlit("0");
    reveal_strlit(",");
    reveal_strlit("");
    let id = if stream_id is Some {
        stream_id
    } else {
        session
    };
    let asked = asked_in(pairs);
    let parts = proxy_query(asked, stream_id, transcode);
    let codecs = as_list(video_codec) + as_list(audio_codec);
    let tracks = seq!["0"@] + as_list(audio) + as_list(subtitles);
    let chosen = chosen_tracks(audio, subtitles);
    assert(tracks =~= chosen);
    assert(","@ =~= seq![',']);
    assert forall|i: int| 0 <= i < chosen.len() implies is_free_of(#[trigger] chosen[i], ',')
        && is_free_of(chosen[i], '&') by {}
    law_split_undoes_join(chosen, ',');
    lemma_free_join(chosen, ","@, '&');
    let list = joined_with(chosen, ","@);
    let part = "tracks="@ + list;
    assert(part.take(7) =~= "tracks="@);
    assert(part.skip(7) =~= list);
    lemma_free_concat("tracks="@, list, '&');
    assert forall|i: int| 0 <= i < codecs.len() implies is_free_of(#[trigger] codecs[i], '&') by {}
    lemma_free_join(codecs, ","@, '&');
    lemma_free_concat("codecs="@, joined_with(codecs, ","@), '&');
    if let (Some(v), Some(a)) = (video_codec, audio_codec) {
        assert(codecs =~= seq![v, a]);
        assert(codecs.drop_last() =~= seq![v]);
        assert(joined_with(seq![v], ","@) == v);
        assert(joined_with(codecs, ","@) =~= v + ","@ + a);
    } else if let Some(v) = video_codec {
        assert(codecs =~= seq![v]);
    } else if let Some(a) = audio_codec {
        assert(codecs =~= seq![a]);
    }
    if let Some(x) = id {
        lemma_encoded_free(encode_utf8(x));
        lemma_free_concat("stream_id="@, percent_encoded(encode_utf8(x)), '&');
    }
    assert(first_text(stream_id, asked.session) == id);
}

/// A rewritten URL asks for what the query of the original one asked for: the tracks are the
/// video, the chosen audio and the chosen subtitles, whether or not the other is chosen.
pub proof fn law_rewritten_url_asks_for(
    pairs: Seq<(Seq<char>, Seq<char>)>,
    base: Seq<char>,
    stream_id: Option<Seq<char>>,
    transcode: bool,
    video_codec: Option<Seq<char>>,
    audio_codec: Option<Seq<char>>,
    audio: Option<Seq<char>>,
    subtitles: Option<Seq<char>>,
    session: Option<Seq<char>>,
)
    requires
        is_unequivocal(pairs),
        has_value(pairs, "VideoCodec"@, video_codec),
        has_value(pairs, "AudioCodec"@, audio_codec),
        has_value(pairs, "AudioStreamIndex"@, audio),
        has_value(pairs, "SubtitleStreamIndex"@, subtitles),
        has_value(pairs, "PlaySessionId"@, session),
        is_one_value(video_codec),
        is_one_value(audio_codec),
        is_plain_value(audio),
        is_plain_value(subtitles),
    ensures
        ({
            let url = proxied_url(asked_in(pairs), base, stream_id, transcode);
            let n = base.len() as int;
            &&& url.len() > n
            &&& url.take(n) == base
            &&& url[n] == '?'
            &&& are_parts(
                split_on(url.skip(n + 1), '&'),
                video_codec,
                audio_codec,
                audio,
                subtitles,
                if stream_id is Some {
                    stream_id
                } else {
                    session
                },
                transcode,
            )
        }),
{
    reveal_strlit("?");
    reveal_strlit("&");
    let keys = known_keys();
    assert(times(pairs, keys[9]) <= 1 && times(pairs, keys[10]) <= 1 && times(pairs, keys[6]) <= 1
        && times(pairs, keys[7]) <= 1 && times(pairs, keys[3]) <= 1);
    lemma_value_is(pairs, "VideoCodec"@, video_codec);
    lemma_value_is(pairs, "AudioCodec"@, audio_codec);
    lemma_value_is(pairs, "AudioStreamIndex"@, audio);
    lemma_value_is(pairs, "SubtitleStreamIndex"@, subtitles);
    lemma_value_is(pairs, "PlaySessionId"@, session);
    lemma_parts(
        pairs,
        video_codec,
        audio_codec,
        audio,
        subtitles,
        session,
        stream_id,
        transcode,
    );
    let parts = proxy_query(asked_in(pairs), stream_id, transcode);
    let url = proxied_url(asked_in(pairs), base, stream_id, transcode);
    let n = base.len() as int;
    assert("&"@ =~= seq!['&']);
    law_split_undoes_join(parts, '&');
    assert(url.take(n) =~= base);
    assert(url.skip(n + 1) =~= joined_with(parts, "&"@));
}

} // verus!
