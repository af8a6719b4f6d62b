//! The rewriting of transcoding URLs.

use vstd::prelude::*;
use vstd::utf8::encode_utf8;
use crate::params::opt_text;
use crate::text::{
    chars_of, join_texts, joined_with, same_text, split_on, split_text, texts_of, trim_leading,
    without_leading,
};
use super::types::HlsTranscodingParameters;

verus! {

/// A query, as pairs of keys and values.
pub open spec fn pair_views(pairs: Seq<(String, String)>) -> Seq<(Seq<char>, Seq<char>)> {
    Seq::new(pairs.len(), |i: int| (pairs[i].0@, pairs[i].1@))
}

/// How often a key occurs.
pub open spec fn times(pairs: Seq<(Seq<char>, Seq<char>)>, key: Seq<char>) -> nat
    decreases pairs.len(),
{
    if pairs.len() == 0 {
        0
    } else {
        times(pairs.drop_last(), key) + if pairs.last().0 == key {
            1nat
        } else {
            0nat
        }
    }
}

/// The last value under a key.
pub open spec fn value_of(pairs: Seq<(Seq<char>, Seq<char>)>, key: Seq<char>) -> Option<Seq<char>>
    decreases pairs.len(),
{
    if pairs.len() == 0 {
        None
    } else if pairs.last().0 == key {
        Some(pairs.last().1)
    } else {
        value_of(pairs.drop_last(), key)
    }
}

/// The keys of a transcoding URL.
pub open spec fn known_keys() -> Seq<Seq<char>> {
    seq![
        "Id"@,
        "MediaSourceId"@,
        "DeviceId"@,
        "PlaySessionId"@,
        "ApiKey"@,
        "Tag"@,
        "AudioStreamIndex"@,
        "SubtitleStreamIndex"@,
        "TranscodeReasons"@,
        "VideoCodec"@,
        "AudioCodec"@,
        "VideoBitrate"@,
        "AudioBitrate"@,
        "MaxFramerate"@,
        "MaxWidth"@,
        "MaxHeight"@,
        "TranscodingMaxAudioChannels"@,
        "EnableAudioVbrEncoding"@,
        "SegmentContainer"@,
        "MinSegments"@,
        "BreakOnNonKeyFrames"@,
        "StartTimeTicks"@,
        "h264-profile"@,
        "h264-level"@,
        "h264-videobitdepth"@,
        "h264-rangetype"@,
        "h264-deinterlace"@,
        "RequireAvc"@,
        "hevc-profile"@,
        "hevc-level"@,
        "hevc-rangetype"@,
        "hevc-deinterlace"@,
        "av1-profile"@,
        "av1-level"@,
        "av1-rangetype"@,
        "vp9-rangetype"@,
        "AllowVideoStreamCopy"@,
        "AllowAudioStreamCopy"@,
    ]
}

/// No known key occurs twice.
pub open spec fn is_unequivocal(pairs: Seq<(Seq<char>, Seq<char>)>) -> bool {
    forall|i: int| 0 <= i < known_keys().len() ==> times(pairs, #[trigger] known_keys()[i]) <= 1
}

/// The parameters are those of a query.
pub open spec fn is_read_from(
    p: HlsTranscodingParameters,
    pairs: Seq<(Seq<char>, Seq<char>)>,
) -> bool {
    &&& opt_text(p.id) == value_of(pairs, "Id"@)
    &&& opt_text(p.media_source_id) == value_of(pairs, "MediaSourceId"@)
    &&& opt_text(p.device_id) == value_of(pairs, "DeviceId"@)
    &&& opt_text(p.play_session_id) == value_of(pairs, "PlaySessionId"@)
    &&& opt_text(p.api_key) == value_of(pairs, "ApiKey"@)
    &&& opt_text(p.tag) == value_of(pairs, "Tag"@)
    &&& opt_text(p.audio_stream_index) == value_of(pairs, "AudioStreamIndex"@)
    &&& opt_text(p.subtitle_stream_index) == value_of(pairs, "SubtitleStreamIndex"@)
    &&& opt_text(p.transcode_reasons) == value_of(pairs, "TranscodeReasons"@)
    &&& opt_text(p.video_codec) == value_of(pairs, "VideoCodec"@)
    &&& opt_text(p.audio_codec) == value_of(pairs, "AudioCodec"@)
    &&& opt_text(p.video_bitrate) == value_of(pairs, "VideoBitrate"@)
    &&& opt_text(p.audio_bitrate) == value_of(pairs, "AudioBitrate"@)
    &&& opt_text(p.max_framerate) == value_of(pairs, "MaxFramerate"@)
    &&& opt_text(p.max_width) == value_of(pairs, "MaxWidth"@)
    &&& opt_text(p.max_height) == value_of(pairs, "MaxHeight"@)
    &&& opt_text(p.transcoding_max_audio_channels) == value_of(pairs, "TranscodingMaxAudioChannels"@)
    &&& opt_text(p.enable_audio_vbr_encoding) == value_of(pairs, "EnableAudioVbrEncoding"@)
    &&& opt_text(p.segment_container) == value_of(pairs, "SegmentContainer"@)
    &&& opt_text(p.min_segments) == value_of(pairs, "MinSegments"@)
    &&& opt_text(p.break_on_non_key_frames) == value_of(pairs, "BreakOnNonKeyFrames"@)
    &&& opt_text(p.start_time_ticks) == value_of(pairs, "StartTimeTicks"@)
    &&& opt_text(p.h264_profile) == value_of(pairs, "h264-profile"@)
    &&& opt_text(p.h264_level) == value_of(pairs, "h264-level"@)
    &&& opt_text(p.h264_bit_depth) == value_of(pairs, "h264-videobitdepth"@)
    &&& opt_text(p.h264_range_type) == value_of(pairs, "h264-rangetype"@)
    &&& opt_text(p.h264_deinterlace) == value_of(pairs, "h264-deinterlace"@)
    &&& opt_text(p.require_avc) == value_of(pairs, "RequireAvc"@)
    &&& opt_text(p.hevc_profile) == value_of(pairs, "hevc-profile"@)
    &&& opt_text(p.hevc_level) == value_of(pairs, "hevc-level"@)
    &&& opt_text(p.hevc_range_type) == value_of(pairs, "hevc-rangetype"@)
    &&& opt_text(p.hevc_deinterlace) == value_of(pairs, "hevc-deinterlace"@)
    &&& opt_text(p.av1_profile) == value_of(pairs, "av1-profile"@)
    &&& opt_text(p.av1_level) == value_of(pairs, "av1-level"@)
    &&& opt_text(p.av1_range_type) == value_of(pairs, "av1-rangetype"@)
    &&& opt_text(p.vp9_range_type) == value_of(pairs, "vp9-rangetype"@)
    &&& opt_text(p.allow_video_stream_copy) == value_of(pairs, "AllowVideoStreamCopy"@)
    &&& opt_text(p.allow_audio_stream_copy) == value_of(pairs, "AllowAudioStreamCopy"@)
}

fn list_known_keys() -> (keys: Vec<&'static str>)
    ensures
        keys@.len() == known_keys().len(),
        forall|i: int| 0 <= i < keys@.len() ==> (#[trigger] keys@[i])@ == known_keys()[i],
{
    let keys: Vec<&'static str> = vec![
        "Id",
        "MediaSourceId",
        "DeviceId",
        "PlaySessionId",
        "ApiKey",
        "Tag",
        "AudioStreamIndex",
        "SubtitleStreamIndex",
        "TranscodeReasons",
        "VideoCodec",
        "AudioCodec",
        "VideoBitrate",
        "AudioBitrate",
        "MaxFramerate",
        "MaxWidth",
        "MaxHeight",
        "TranscodingMaxAudioChannels",
        "EnableAudioVbrEncoding",
        "SegmentContainer",
        "MinSegments",
        "BreakOnNonKeyFrames",
        "StartTimeTicks",
        "h264-profile",
        "h264-level",
        "h264-videobitdepth",
        "h264-rangetype",
        "h264-deinterlace",
        "RequireAvc",
        "hevc-profile",
        "hevc-level",
        "hevc-rangetype",
        "hevc-deinterlace",
        "av1-profile",
        "av1-level",
        "av1-rangetype",
        "vp9-rangetype",
        "AllowVideoStreamCopy",
        "AllowAudioStreamCopy",
    ];
    keys
}

fn count_key(pairs: &Vec<(String, String)>, key: &str) -> (n: usize)
    ensures
        n == times(pair_views(pairs@), key@),
{
    let mut n: usize = 0;
    let mut i: usize = 0;
    let ghost views = pair_views(pairs@);
    while i < pairs.len()
        invariant
            i <= pairs@.len(),
            n <= i,
            views == pair_views(pairs@),
            n == times(views.take(i as int), key@),
        decreases pairs.len() - i,
    {
        assert(views.take(i + 1).drop_last() =~= views.take(i as int));
        if same_text(pairs[i].0.as_str(), key) {
            n += 1;
        }
        i += 1;
    }
    assert(views.take(views.len() as int) =~= views);
    n
}

fn find_value(pairs: &Vec<(String, String)>, key: &str) -> (value: Option<String>)
    ensures
        opt_text(value) == value_of(pair_views(pairs@), key@),
{
    let ghost views = pair_views(pairs@);
    let mut i: usize = pairs.len();
    assert(views.take(views.len() as int) =~= views);
    while i > 0
        invariant
            i <= pairs@.len(),
            views == pair_views(pairs@),
            value_of(views.take(i as int), key@) == value_of(views, key@),
        decreases i,
    {
        assert(views.take(i as int).drop_last() =~= views.take(i - 1));
        i -= 1;
        if same_text(pairs[i].0.as_str(), key) {
            return Some(pairs[i].1.clone());
        }
    }
    None
}

fn is_repeated(pairs: &Vec<(String, String)>) -> (b: bool)
    ensures
        b == !is_unequivocal(pair_views(pairs@)),
{
    let keys: Vec<&'static str> = list_known_keys();
    let mut i: usize = 0;
    while i < keys.len()
        invariant
            i <= keys@.len(),
            keys@.len() == known_keys().len(),
            forall|i: int| 0 <= i < keys@.len() ==> (#[trigger] keys@[i])@ == known_keys()[i],
            forall|j: int|
                0 <= j < i ==> times(pair_views(pairs@), #[trigger] known_keys()[j]) <= 1,
        decreases keys.len() - i,
    {
        if count_key(pairs, keys[i]) > 1 {
            assert(times(pair_views(pairs@), known_keys()[i as int]) > 1);
            return true;
        }
        i += 1;
    }
    false
}

impl HlsTranscodingParameters {
    /// Reads the parameters out of a query; other keys are passed over. A known key may
    /// occur only once.
    pub fn from_pairs(pairs: &Vec<(String, String)>) -> (params: Option<Self>)
        ensures
            match params {
                Some(p) => is_unequivocal(pair_views(pairs@)) && is_read_from(
                    p,
                    pair_views(pairs@),
                ),
                None => !is_unequivocal(pair_views(pairs@)),
            },
    {
        if is_repeated(pairs) {
            return None;
        }
        Some(
            HlsTranscodingParameters {
                id: find_value(pairs, "Id"),
                media_source_id: find_value(pairs, "MediaSourceId"),
                device_id: find_value(pairs, "DeviceId"),
                play_session_id: find_value(pairs, "PlaySessionId"),
                api_key: find_value(pairs, "ApiKey"),
                tag: find_value(pairs, "Tag"),
                audio_stream_index: find_value(pairs, "AudioStreamIndex"),
                subtitle_stream_index: find_value(pairs, "SubtitleStreamIndex"),
                transcode_reasons: find_value(pairs, "TranscodeReasons"),
                video_codec: find_value(pairs, "VideoCodec"),
                audio_codec: find_value(pairs, "AudioCodec"),
                video_bitrate: find_value(pairs, "VideoBitrate"),
                audio_bitrate: find_value(pairs, "AudioBitrate"),
                max_framerate: find_value(pairs, "MaxFramerate"),
                max_width: find_value(pairs, "MaxWidth"),
                max_height: find_value(pairs, "MaxHeight"),
                transcoding_max_audio_channels: find_value(pairs, "TranscodingMaxAudioChannels"),
                enable_audio_vbr_encoding: find_value(pairs, "EnableAudioVbrEncoding"),
                segment_container: find_value(pairs, "SegmentContainer"),
                min_segments: find_value(pairs, "MinSegments"),
                break_on_non_key_frames: find_value(pairs, "BreakOnNonKeyFrames"),
                start_time_ticks: find_value(pairs, "StartTimeTicks"),
                h264_profile: find_value(pairs, "h264-profile"),
                h264_level: find_value(pairs, "h264-level"),
                h264_bit_depth: find_value(pairs, "h264-videobitdepth"),
                h264_range_type: find_value(pairs, "h264-rangetype"),
                h264_deinterlace: find_value(pairs, "h264-deinterlace"),
                require_avc: find_value(pairs, "RequireAvc"),
                hevc_profile: find_value(pairs, "hevc-profile"),
                hevc_level: find_value(pairs, "hevc-level"),
                hevc_range_type: find_value(pairs, "hevc-rangetype"),
                hevc_deinterlace: find_value(pairs, "hevc-deinterlace"),
                av1_profile: find_value(pairs, "av1-profile"),
                av1_level: find_value(pairs, "av1-level"),
                av1_range_type: find_value(pairs, "av1-rangetype"),
                vp9_range_type: find_value(pairs, "vp9-rangetype"),
                allow_video_stream_copy: find_value(pairs, "AllowVideoStreamCopy"),
                allow_audio_stream_copy: find_value(pairs, "AllowAudioStreamCopy"),
            },
        )
    }
}

/// `url::ParseError`: why a text is no URL.
#[verifier::external_type_specification]
#[verifier::external_body]
pub struct ExParseError(url::ParseError);

/// The query of a URL; nothing for a text that is no absolute URL.
pub uninterp spec fn url_query(s: Seq<char>) -> Option<Option<Seq<char>>>;

/// `Url::parse`, and `Url::query` of the URL: the query, if there is one, as the parser leaves
/// it.
#[verifier::external_body]
fn query_of_url(s: &str) -> (query: Result<Option<String>, url::ParseError>)
    ensures
        match query {
            Ok(q) => url_query(s@) == Some(opt_text(q)),
            Err(_) => url_query(s@) is None,
        },
{
    url::Url::parse(s).map(|u| u.query().map(String::from))
}

/// `serde::de::value::Error`: why a query cannot be read.
#[verifier::external_type_specification]
#[verifier::external_body]
pub struct ExValueError(serde_urlencoded::de::Error);

/// The keys and values of a query, decoded; nothing for a query that cannot be read.
pub uninterp spec fn query_pairs(s: Seq<char>) -> Option<Seq<(Seq<char>, Seq<char>)>>;

/// `serde_urlencoded::from_str` into pairs of texts: the keys and values of a query, in order.
#[verifier::external_body]
fn decode_query(s: &str) -> (pairs: Result<Vec<(String, String)>, serde_urlencoded::de::Error>)
    ensures
        match pairs {
            Ok(p) => query_pairs(s@) == Some(pair_views(p@)),
            Err(_) => query_pairs(s@) is None,
        },
{
    serde_urlencoded::from_str::<Vec<(String, String)>>(s)
}

/// A byte that stands for itself in a URL: a letter, a digit, or one of `-._~`.
pub open spec fn is_unreserved(b: u8) -> bool {
    48 <= b <= 57 || 65 <= b <= 90 || 97 <= b <= 122 || b == 45 || b == 46 || b == 95 || b == 126
}

/// A hexadecimal digit, in upper case.
pub open spec fn upper_hex(d: int) -> char {
    if d < 10 {
        (48 + d) as char
    } else {
        (55 + d) as char
    }
}

/// Bytes, percent-encoded.
pub open spec fn percent_encoded(bytes: Seq<u8>) -> Seq<char>
    decreases bytes.len(),
{
    if bytes.len() == 0 {
        Seq::empty()
    } else {
        let b = bytes.last();
        percent_encoded(bytes.drop_last()) + if is_unreserved(b) {
            seq![b as char]
        } else {
            seq!['%', upper_hex(b as int / 16), upper_hex(b as int % 16)]
        }
    }
}

/// `urlencoding::encode`: the UTF-8 bytes of a text, percent-encoded.
#[verifier::external_body]
fn percent_encode(s: &str) -> (out: String)
    ensures
        out@ == percent_encoded(encode_utf8(s@)),
{
    urlencoding::encode(s).into_owned()
}

/// A request that cannot be understood.
#[derive(Debug, Clone, Copy, PartialEq, Eq, Structural)]
pub struct BadRequest;

/// A URL with a host: one that is only a path gets some.
pub open spec fn absolute_url(url: Seq<char>) -> Seq<char> {
    if url.len() > 0 && url[0] == '/' {
        "http://localhost"@ + url
    } else {
        url
    }
}

/// One or no text, as a list.
pub open spec fn as_list(s: Option<Seq<char>>) -> Seq<Seq<char>> {
    match s {
        Some(t) => seq![t],
        None => Seq::empty(),
    }
}

/// The first of two, if there is one.
pub open spec fn first_text(a: Option<Seq<char>>, b: Option<Seq<char>>) -> Option<Seq<char>> {
    if a is Some {
        a
    } else {
        b
    }
}

/// What a transcoding URL asks for.
pub struct Asked {
    pub video_codec: Option<Seq<char>>,
    pub audio_codec: Option<Seq<char>>,
    pub audio_track: Option<Seq<char>>,
    pub subtitle_track: Option<Seq<char>>,
    pub session: Option<Seq<char>>,
}

/// What some parameters ask for.
pub open spec fn asked_by(p: HlsTranscodingParameters) -> Asked {
    Asked {
        video_codec: opt_text(p.video_codec),
        audio_codec: opt_text(p.audio_codec),
        audio_track: opt_text(p.audio_stream_index),
        subtitle_track: opt_text(p.subtitle_stream_index),
        session: opt_text(p.play_session_id),
    }
}

/// What a query asks for.
pub open spec fn asked_in(pairs: Seq<(Seq<char>, Seq<char>)>) -> Asked {
    Asked {
        video_codec: value_of(pairs, "VideoCodec"@),
        audio_codec: value_of(pairs, "AudioCodec"@),
        audio_track: value_of(pairs, "AudioStreamIndex"@),
        subtitle_track: value_of(pairs, "SubtitleStreamIndex"@),
        session: value_of(pairs, "PlaySessionId"@),
    }
}

/// The parts of the query that asks for a stream: the codecs, if it is transcoded, the stream
/// id, the tracks, of which the first is the video, and that the audio goes with the video.
pub open spec fn proxy_query(
    asked: Asked,
    stream_id: Option<Seq<char>>,
    transcode: bool,
) -> Seq<Seq<char>> {
    let codecs = as_list(asked.video_codec) + as_list(asked.audio_codec);
    let tracks = seq!["0"@] + as_list(asked.audio_track) + as_list(asked.subtitle_track);
    (if transcode && codecs.len() > 0 {
        seq!["codecs="@ + joined_with(codecs, ","@)]
    } else {
        Seq::empty()
    }) + (match first_text(stream_id, asked.session) {
        Some(id) => seq!["stream_id="@ + percent_encoded(encode_utf8(id))],
        None => Seq::empty(),
    }) + seq!["tracks="@ + joined_with(tracks, ","@), "interleave=true"@]
}

/// The URL that asks for a stream.
pub open spec fn proxied_url(
    asked: Asked,
    base: Seq<char>,
    stream_id: Option<Seq<char>>,
    transcode: bool,
) -> Seq<char> {
    base + "?"@ + joined_with(proxy_query(asked, stream_id, transcode), "&"@)
}

fn push_text(list: &mut Vec<String>, text: &Option<String>)
    ensures
        texts_of(final(list)@) == texts_of(old(list)@) + as_list(opt_text(*text)),
{
    if let Some(t) = text {
        list.push(t.clone());
    }
    assert(texts_of(list@) =~= texts_of(old(list)@) + as_list(opt_text(*text)));
}

fn labelled(label: &str, text: &str) -> (s: String)
    ensures
        s@ == label@ + text@,
{
    let mut s: String = label.to_owned();
    s.push_str(text);
    s
}

/// The URL that asks for a stream. The stream id is that of the session that the parameters
/// name, if there is no other.
pub fn make_proxied_url(
    params: &HlsTranscodingParameters,
    base: &str,
    stream_id: &Option<String>,
    transcode: bool,
) -> (url: String)
    ensures
        url@ == proxied_url(asked_by(*params), base@, opt_text(*stream_id), transcode),
{
    let mut parts: Vec<String> = Vec::new();
    let mut codecs: Vec<String> = Vec::new();
    assert(texts_of(codecs@) =~= Seq::<Seq<char>>::empty());
    push_text(&mut codecs, &params.video_codec);
    push_text(&mut codecs, &params.audio_codec);
    let ghost named = as_list(opt_text(params.video_codec)) + as_list(
        opt_text(params.audio_codec),
    );
    assert(texts_of(codecs@) =~= named);
    if transcode && codecs.len() > 0 {
        let list: String = join_texts(&codecs, ",");
        parts.push(labelled("codecs=", list.as_str()));
    }
    let ghost first: Seq<Seq<char>> = if transcode && named.len() > 0 {
        seq!["codecs="@ + joined_with(named, ","@)]
    } else {
        Seq::empty()
    };
    assert(texts_of(parts@) =~= first);
    let session: &Option<String> = if stream_id.is_some() {
        stream_id
    } else {
        &params.play_session_id
    };
    let ghost second: Seq<Seq<char>> = match opt_text(*session) {
        Some(id) => seq!["stream_id="@ + percent_encoded(encode_utf8(id))],
        None => Seq::empty(),
    };
    if let Some(id) = session {
        let encoded: String = percent_encode(id.as_str());
        parts.push(labelled("stream_id=", encoded.as_str()));
    }
    assert(texts_of(parts@) =~= first + second);
    let mut tracks: Vec<String> = Vec::new();
    tracks.push("0".to_owned());
    assert(texts_of(tracks@) =~= seq!["0"@]);
    push_text(&mut tracks, &params.audio_stream_index);
    push_text(&mut tracks, &params.subtitle_stream_index);
    let list: String = join_texts(&tracks, ",");
    parts.push(labelled("tracks=", list.as_str()));
    parts.push("interleave=true".to_owned());
    assert(texts_of(parts@) =~= proxy_query(
        asked_by(*params),
        opt_text(*stream_id),
        transcode,
    ));
    let query: String = join_texts(&parts, "&");
    let mut url: String = base.to_owned();
    url.push_str("?");
    url.push_str(query.as_str());
    url
}

/// The keys and values in the query of a URL, if it is a URL whose query can be read and no
/// known key occurs twice.
pub open spec fn transcoding_query(url: Seq<char>) -> Option<Seq<(Seq<char>, Seq<char>)>> {
    match url_query(absolute_url(url)) {
        None => None,
        Some(query) => match query_pairs(
            match query {
                Some(q) => q,
                None => ""@,
            },
        ) {
            None => None,
            Some(pairs) => if is_unequivocal(pairs) {
                Some(pairs)
            } else {
                None
            },
        },
    }
}

/// Reads the parameters out of a transcoding URL.
pub fn read_parameters(url: &str) -> (r: Result<HlsTranscodingParameters, BadRequest>)
    ensures
        match transcoding_query(url@) {
            Some(pairs) => r matches Ok(p) && is_read_from(p, pairs),
            None => r is Err,
        },
{
    let chars: Vec<char> = chars_of(url);
    let full: String = if chars.len() > 0 && chars[0] == '/' {
        labelled("http://localhost", url)
    } else {
        url.to_owned()
    };
    let query: String = match query_of_url(full.as_str()) {
        Ok(Some(q)) => q,
        Ok(None) => "".to_owned(),
        Err(_) => {
            return Err(BadRequest);
        },
    };
    match decode_query(query.as_str()) {
        Ok(pairs) => match HlsTranscodingParameters::from_pairs(&pairs) {
            Some(p) => Ok(p),
            None => Err(BadRequest),
        },
        Err(_) => Err(BadRequest),
    }
}

/// A rewritten URL asks for what the original one asked for.
pub open spec fn is_rewritten(
    r: Result<String, BadRequest>,
    url: Seq<char>,
    base: Seq<char>,
    stream_id: Option<Seq<char>>,
    transcode: bool,
) -> bool {
    match transcoding_query(url) {
        None => r is Err,
        Some(pairs) => r matches Ok(out) && out@ == proxied_url(
            asked_in(pairs),
            base,
            stream_id,
            transcode,
        ),
    }
}

/// Rewrites the URL of a stream of the media server to one of our own.
pub fn rewrite_hls_url(
    orig_url: &str,
    transcode_url: &str,
    stream_id: &Option<String>,
    transcode: bool,
) -> (r: Result<String, BadRequest>)
    ensures
        is_rewritten(r, orig_url@, transcode_url@, opt_text(*stream_id), transcode),
{
    match read_parameters(orig_url) {
        Ok(p) => Ok(make_proxied_url(&p, transcode_url, stream_id, transcode)),
        Err(e) => Err(e),
    }
}

/// A path, each part of it percent-encoded.
pub open spec fn encoded_path(path: Seq<char>) -> Seq<char> {
    let parts = split_on(without_leading(path, '/'), '/');
    joined_with(
        Seq::new(parts.len(), |i: int| percent_encoded(encode_utf8(parts[i]))),
        "/"@,
    )
}

/// The URL of the main playlist of a file.
pub open spec fn base_url(path: Seq<char>) -> Seq<char> {
    "/proxymedia/"@ + encoded_path(path) + ".as.m3u8"@
}

/// The URL of the main playlist of a file.
pub fn make_base_url(path: &str) -> (url: String)
    ensures
        url@ == base_url(path@),
{
    let clean: String = trim_leading(path, '/');
    let parts: Vec<String> = split_text(clean.as_str(), '/');
    let ghost views = split_on(without_leading(path@, '/'), '/');
    let mut done: Vec<String> = Vec::new();
    let mut i: usize = 0;
    while i < parts.len()
        invariant
            i <= parts@.len(),
            done@.len() == i,
            views == texts_of(parts@),
            forall|k: int|
                0 <= k < i ==> (#[trigger] done@[k])@ == percent_encoded(encode_utf8(views[k])),
        decreases parts.len() - i,
    {
        let part: String = percent_encode(parts[i].as_str());
        done.push(part);
        i += 1;
    }
    assert(texts_of(done@) =~= Seq::new(
        views.len(),
        |i: int| percent_encoded(encode_utf8(views[i])),
    ));
    let joined: String = join_texts(&done, "/");
    let mut url: String = "/proxymedia/".to_owned();
    url.push_str(joined.as_str());
    url.push_str(".as.m3u8");
    url
}

} // verus!
