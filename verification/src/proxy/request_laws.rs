//! What the proxy makes of requests and responses, said of the messages themselves.

use vstd::prelude::*;
use vstd::utf8::encode_utf8;
use crate::numbers::unsigned_value;
use crate::text::{
    decimal, is_free_of, is_white, joined_with, law_split_undoes_join, occurs_at, split_on,
    without_leading, without_leading_white, without_trailing_white,
};
use crate::url_grammar::{is_digit, ParamsView};
use crate::url_laws::{
    codec_is_plain, codec_of, ends_like_video, full_url, is_sound, law_decimal_reads_back,
    law_written_url_reads_back,
};
use super::media_request::{
    asked_for, codec_items, media_path_of, numbers_in, track_items, with_session,
};
use super::playbackinfo::{
    are_profiles_changed, has_direct_hls, is_device_changed, is_safari, is_source_changed, offers,
};
use super::stream_id::{device_id_from, names_device_at, quote_from, stream_id_of};
use super::transcoding_url::{base_url, encoded_path, percent_encoded};
use super::types::{DeviceProfile, MediaSource, TranscodingProfile};

verus! {

/// A profile for video over HLS in a container.
pub open spec fn is_video_in(p: TranscodingProfile, container: Seq<char>) -> bool {
    &&& p.profile_type@ == "Video"@
    &&& p.protocol matches Some(x) && x@ == "hls"@
    &&& p.container matches Some(x) && x@ == container
}

/// A profile for video over HLS in a transport stream is asked for in MP4 exactly if no profile
/// is there for that already; nothing else of a profile changes, and no profile comes or goes.
pub proof fn law_profiles_ask_for_mp4(
    before: Seq<TranscodingProfile>,
    after: Seq<TranscodingProfile>,
    i: int,
)
    requires
        are_profiles_changed(before, after),
        0 <= i < before.len(),
    ensures
        after.len() == before.len(),
        ({
            let has_mp4 = exists|j: int|
                0 <= j < before.len() && is_video_in(#[trigger] before[j], "mp4"@);
            let (b, a) = (before[i], after[i]);
            if is_video_in(b, "ts"@) && !has_mp4 {
                (a.container matches Some(x) && x@ == "mp4"@) && a == (TranscodingProfile {
                    container: a.container,
                    ..b
                })
            } else {
                a == b
            }
        }),
{
    let changed = super::playbackinfo::is_profile_changed(
        before[i],
        after[i],
        offers(before, "ts"@) && !offers(before, "mp4"@),
    );
    assert(changed);
    assert(offers(before, "mp4"@) == exists|j: int|
        0 <= j < before.len() && is_video_in(#[trigger] before[j], "mp4"@)) by {
        if offers(before, "mp4"@) {
            let j = choose|j: int|
                0 <= j < before.len() && super::playbackinfo::is_hls_profile(
                    #[trigger] before[j],
                    "mp4"@,
                );
            assert(is_video_in(before[j], "mp4"@));
        }
        if exists|j: int| 0 <= j < before.len() && is_video_in(#[trigger] before[j], "mp4"@) {
            let j = choose|j: int|
                0 <= j < before.len() && is_video_in(#[trigger] before[j], "mp4"@);
            assert(super::playbackinfo::is_hls_profile(before[j], "mp4"@));
        }
    }
    if is_video_in(before[i], "ts"@) {
        assert(super::playbackinfo::is_hls_profile(before[i], "ts"@));
        assert(offers(before, "ts"@));
    }
}

/// What a device plays as it is stays, unless that is taken from it; then nothing of it is left.
pub proof fn law_direct_play(before: DeviceProfile, after: DeviceProfile, forced: bool)
    requires
        is_device_changed(before, after, forced),
    ensures
        forced ==> after.direct_play_profiles@.len() == 0,
        !forced ==> after.direct_play_profiles == before.direct_play_profiles,
        are_profiles_changed(before.transcoding_profiles@, after.transcoding_profiles@),
        after == (DeviceProfile {
            transcoding_profiles: after.transcoding_profiles,
            direct_play_profiles: after.direct_play_profiles,
            ..before
        }),
{
}

/// Safari is the client whose name says so, and no other.
pub proof fn law_safari(ua: Seq<char>)
    ensures
        !is_safari(None),
        is_safari(Some(ua)) == ((exists|i: int| #[trigger] occurs_at(ua, "Safari"@, i)) && !(exists|
            i: int,
        | #[trigger]
            occurs_at(ua, "Chrome"@, i)) && !(exists|i: int| #[trigger]
            occurs_at(ua, "Chromium"@, i))),
{
}

/// A source that is transcoded comes as HLS in MP4; one without a transcoding URL keeps what it
/// says of that. A direct stream that is none of HLS stays. Nothing else changes.
pub proof fn law_source_comes_from_us(
    before: MediaSource,
    after: MediaSource,
    id: Option<Seq<char>>,
)
    requires
        is_source_changed(before, after, id),
    ensures
        before.transcoding_url is Some ==> (after.transcoding_container matches Some(c) && c@
            == "mp4"@) && (after.transcoding_sub_protocol matches Some(p) && p@ == "hls"@)
            && after.transcoding_url is Some && after.transcoding_url->Some_0@.len() >= base_url(
            before.path@,
        ).len() && after.transcoding_url->Some_0@.take(base_url(before.path@).len() as int)
            == base_url(before.path@),
        before.transcoding_url is None ==> after.transcoding_url is None
            && after.transcoding_container == before.transcoding_container
            && after.transcoding_sub_protocol == before.transcoding_sub_protocol,
        before.direct_stream_url is None ==> after.direct_stream_url is None,
        before.direct_stream_url is Some && (forall|i: int|
            !#[trigger] occurs_at(before.direct_stream_url->Some_0@, ".m3u8"@, i))
            ==> after.direct_stream_url == before.direct_stream_url,
        before.direct_stream_url is Some && (exists|i: int| #[trigger]
            occurs_at(before.direct_stream_url->Some_0@, ".m3u8"@, i)) ==> after.direct_stream_url
            is Some && after.direct_stream_url->Some_0@.len() >= base_url(before.path@).len()
            && after.direct_stream_url->Some_0@.take(base_url(before.path@).len() as int)
            == base_url(before.path@),
        after.path == before.path,
        after.id == before.id,
{
    let base = base_url(before.path@);
    if before.transcoding_url is Some {
        let url = after.transcoding_url->Some_0@;
        assert(url.take(base.len() as int) =~= base);
    }
    if has_direct_hls(before) {
        let url = after.direct_stream_url->Some_0@;
        assert(url.take(base.len() as int) =~= base);
    }
}

proof fn lemma_encoded_free(bytes: Seq<u8>)
    ensures
        is_free_of(percent_encoded(bytes), '/'),
    decreases bytes.len(),
{
    if bytes.len() > 0 {
        lemma_encoded_free(bytes.drop_last());
        let head = percent_encoded(bytes.drop_last());
        let out = percent_encoded(bytes);
        assert forall|i: int| 0 <= i < out.len() implies #[trigger] out[i] != '/' by {
            if i < head.len() {
                assert(out[i] == head[i]);
            }
        }
    }
}

/// The URL of the main playlist of a file names the file, part by part, each percent-encoded,
/// below our own root.
pub proof fn law_base_url_names_file(parts: Seq<Seq<char>>, path: Seq<char>)
    requires
        parts.len() > 0,
        forall|i: int| 0 <= i < parts.len() ==> is_free_of(#[trigger] parts[i], '/'),
        parts[0].len() > 0,
        path == joined_with(parts, seq!['/']) || path == seq!['/'] + joined_with(parts, seq!['/']),
    ensures
        exists|inner: Seq<char>|
            {
                &&& base_url(path) == "/proxymedia/"@ + inner + ".as.m3u8"@
                &&& (#[trigger] split_on(inner, '/')).len() == parts.len()
                &&& forall|i: int|
                    0 <= i < parts.len() ==> #[trigger] split_on(inner, '/')[i] == percent_encoded(
                        encode_utf8(parts[i]),
                    )
            },
{
    reveal_strlit("/");
    let joined = joined_with(parts, seq!['/']);
    lemma_join_starts(parts);
    assert(without_leading(path, '/') == joined) by {
        reveal_with_fuel(without_leading, 3);
        if path != joined {
            assert(path[0] == '/');
            assert(path.drop_first() =~= joined);
        }
    }
    law_split_undoes_join(parts, '/');
    let codes = Seq::new(parts.len(), |i: int| percent_encoded(encode_utf8(parts[i])));
    assert forall|i: int| 0 <= i < codes.len() implies is_free_of(#[trigger] codes[i], '/') by {
        lemma_encoded_free(encode_utf8(parts[i]));
    }
    law_split_undoes_join(codes, '/');
    assert("/"@ =~= seq!['/']);
    let inner = encoded_path(path);
    assert(inner == joined_with(codes, seq!['/']));
    assert(split_on(inner, '/') == codes);
}

proof fn lemma_join_starts(parts: Seq<Seq<char>>)
    requires
        parts.len() > 0,
        parts[0].len() > 0,
        is_free_of(parts[0], '/'),
    ensures
        joined_with(parts, seq!['/']).len() > 0,
        joined_with(parts, seq!['/'])[0] == parts[0][0],
        joined_with(parts, seq!['/'])[0] != '/',
    decreases parts.len(),
{
    if parts.len() > 1 {
        assert(parts.drop_last()[0] == parts[0]);
        lemma_join_starts(parts.drop_last());
    }
}

/// The device that a header names is the text between the quotes behind the first `DeviceId=`.
pub proof fn law_device_is_quoted(pre: Seq<char>, device: Seq<char>, tail: Seq<char>)
    requires
        device.len() > 0,
        is_free_of(device, '"'),
        tail.len() == 0 || tail[0] == '"',
        forall|j: int|
            0 <= j < pre.len() ==> !#[trigger] occurs_at(
                pre + "DeviceId=\""@ + device + tail,
                "DeviceId=\""@,
                j,
            ),
    ensures
        device_id_from(pre + "DeviceId=\""@ + device + tail, 0) == Some(device),
{
    reveal_strlit("DeviceId=\"");
    let s = pre + "DeviceId=\""@ + device + tail;
    let n = pre.len() as int;
    assert(s.subrange(n, n + 10) =~= "DeviceId=\""@);
    assert(s[n + 10] == device[0]);
    assert(names_device_at(s, n));
    let end = n + 10 + device.len();
    assert forall|i: int| n + 10 <= i < end implies #[trigger] s[i] != '"' by {
        assert(s[i] == device[i - n - 10]);
    }
    if tail.len() > 0 {
        assert(s[end] == tail[0]);
    }
    lemma_quote_from(s, n + 10, end);
    assert(s.subrange(n + 10, end) =~= device);
    lemma_device_from(s, 0, n);
}

proof fn lemma_quote_from(s: Seq<char>, pos: int, end: int)
    requires
        0 <= pos <= end <= s.len(),
        forall|i: int| pos <= i < end ==> #[trigger] s[i] != '"',
        end < s.len() ==> s[end] == '"',
    ensures
        quote_from(s, pos) == end,
    decreases end - pos,
{
    if pos < end {
        lemma_quote_from(s, pos + 1, end);
    }
}

proof fn lemma_device_from(s: Seq<char>, from: int, n: int)
    requires
        0 <= from <= n < s.len(),
        names_device_at(s, n),
        forall|j: int| 0 <= j < n ==> !#[trigger] occurs_at(s, "DeviceId=\""@, j),
    ensures
        device_id_from(s, from) == Some(s.subrange(n + 10, quote_from(s, n + 10))),
    decreases n - from,
{
    if from < n {
        assert(!occurs_at(s, "DeviceId=\""@, from));
        lemma_device_from(s, from + 1, n);
    }
}

/// Without a header, or a device in it, there is no stream id; one device and one item always
/// have the same id.
pub proof fn law_stream_id(a: Seq<char>, b: Seq<char>, item: Seq<char>)
    ensures
        stream_id_of(None, item) is None,
        device_id_from(a, 0) is None ==> stream_id_of(Some(a), item) is None,
        device_id_from(a, 0) is Some ==> stream_id_of(Some(a), item) is Some,
        device_id_from(a, 0) == device_id_from(b, 0) ==> stream_id_of(Some(a), item)
            == stream_id_of(Some(b), item),
        device_id_from(a, 0) matches Some(device) ==> stream_id_of(Some(a), item) == Some(
            super::stream_id::hex_text(
                super::stream_id::sha256(encode_utf8(device) + encode_utf8(item)).take(16),
            ),
        ),
{
}

/// A request for a written URL is understood, with or without its first slash.
pub proof fn law_request_reads_back(p: ParamsView)
    requires
        is_sound(p),
        p.session_id matches Some(id) ==> !ends_like_video(id),
        codec_is_plain(codec_of(p.url_type)),
        p.video_url[0] == '/',
    ensures
        asked_for(full_url(p)) == Some(p),
        asked_for(full_url(p).skip(1)) == Some(p) || full_url(p)[1] == '/',
{
    law_written_url_reads_back(p);
    let url = full_url(p);
    assert(url.len() > 0 && url[0] == '/') by {
        assert(p.video_url.len() > 0);
        assert(url[0] == p.video_url[0]);
    }
    let rest = url.skip(1);
    if rest.len() == 0 || rest[0] != '/' {
        assert(seq!['/'] + rest =~= url);
    } else {
        assert(rest[0] == url[1]);
    }
}

/// A stream id of the query takes the place of the session, and nothing else changes.
pub proof fn law_session_is_given(p: ParamsView, id: Seq<char>)
    ensures
        with_session(p, None) == p,
        with_session(p, Some(id)).session_id == Some(id),
        with_session(p, Some(id)).url_type == p.url_type,
        with_session(p, Some(id)).video_url == p.video_url,
{
}

/// The path of a media file lies below the root, with one slash between them.
pub proof fn law_media_path(root: Seq<char>, name: Seq<char>, slashes: Seq<char>)
    requires
        name.len() == 0 || name[0] != '/',
        forall|i: int| 0 <= i < slashes.len() ==> #[trigger] slashes[i] == '/',
    ensures
        media_path_of(slashes + name, Seq::empty()) == slashes + name,
        root.len() > 0 && root.last() != '/' ==> media_path_of(slashes + name, root) == root + "/"@
            + name,
        root.len() > 0 && root.last() == '/' ==> media_path_of(slashes + name, root) == root + name,
{
    reveal_strlit("/");
    lemma_leading(slashes, name);
    assert("/"@ =~= seq!['/']);
}

proof fn lemma_leading(slashes: Seq<char>, name: Seq<char>)
    requires
        name.len() == 0 || name[0] != '/',
        forall|i: int| 0 <= i < slashes.len() ==> #[trigger] slashes[i] == '/',
    ensures
        without_leading(slashes + name, '/') == name,
    decreases slashes.len(),
{
    if slashes.len() == 0 {
        assert(slashes + name =~= name);
    } else {
        assert((slashes + name)[0] == slashes[0]);
        assert((slashes + name).drop_first() =~= slashes.drop_first() + name);
        lemma_leading(slashes.drop_first(), name);
    }
}

proof fn lemma_decimal_value(n: nat)
    ensures
        unsigned_value(decimal(n)) == Some(n),
        is_free_of(decimal(n), ','),
{
    law_decimal_reads_back(n);
    assert(is_digit(decimal(n)[0]));
    assert forall|i: int| 0 <= i < decimal(n).len() implies #[trigger] decimal(n)[i] != ',' by {
        assert(is_digit(decimal(n)[i]));
    }
}

proof fn lemma_numbers(list: Seq<usize>)
    ensures
        numbers_in(Seq::new(list.len(), |i: int| decimal(list[i] as nat))) == list,
    decreases list.len(),
{
    let texts = Seq::new(list.len(), |i: int| decimal(list[i] as nat));
    if list.len() > 0 {
        let rest = list.drop_last();
        lemma_numbers(rest);
        assert(texts.drop_last() =~= Seq::new(rest.len(), |i: int| decimal(rest[i] as nat)));
        lemma_decimal_value(list.last() as nat);
        assert(rest.push(list.last()) =~= list);
    } else {
        assert(numbers_in(texts) =~= list);
    }
}

/// A list of tracks in a query is read as the tracks that it was written for.
pub proof fn law_tracks_read_back(list: Seq<usize>)
    requires
        list.len() > 0,
    ensures
        track_items(
            Some(
                joined_with(Seq::new(list.len(), |i: int| decimal(list[i] as nat)), seq![',']),
            ),
        ) == list,
        track_items(None) == Seq::<usize>::empty(),
{
    let texts = Seq::new(list.len(), |i: int| decimal(list[i] as nat));
    assert forall|i: int| 0 <= i < texts.len() implies is_free_of(#[trigger] texts[i], ',') by {
        lemma_decimal_value(list[i] as nat);
    }
    law_split_undoes_join(texts, ',');
    lemma_numbers(list);
}

/// A text that neither starts nor ends with white space.
pub open spec fn is_trimmed(s: Seq<char>) -> bool {
    s.len() == 0 || (!is_white(s[0]) && !is_white(s.last()))
}

/// A list of codecs in a query is read as the codecs that it was written for.
pub proof fn law_codecs_read_back(list: Seq<Seq<char>>)
    requires
        list.len() > 0,
        forall|i: int|
            0 <= i < list.len() ==> is_trimmed(#[trigger] list[i]) && is_free_of(list[i], ','),
    ensures
        codec_items(Some(joined_with(list, seq![',']))) == list,
        codec_items(None) == Seq::<Seq<char>>::empty(),
{
    law_split_undoes_join(list, ',');
    let items = codec_items(Some(joined_with(list, seq![','])));
    assert forall|i: int| 0 <= i < list.len() implies items[i] == list[i] by {
        assert(is_trimmed(list[i]));
        assert(without_leading_white(list[i]) == list[i]);
        assert(without_trailing_white(list[i]) == list[i]);
    }
    assert(items =~= list);
}

} // verus!
