//! Codecs as playlists name them.

use vstd::prelude::*;
use crate::media::Id;
use crate::text::{hex_char, hex_digit, join_texts, joined_with, same_text, texts_of};

verus! {

/// The codec that a short name stands for.
pub open spec fn codec_of_name(name: Seq<char>) -> Option<Id> {
    if name == "aac"@ {
        Some(Id::AAC)
    } else if name == "ac3"@ {
        Some(Id::AC3)
    } else if name == "eac3"@ {
        Some(Id::EAC3)
    } else if name == "mp3"@ {
        Some(Id::MP3)
    } else if name == "opus"@ {
        Some(Id::OPUS)
    } else if name == "flac"@ {
        Some(Id::FLAC)
    } else if name == "h264"@ {
        Some(Id::H264)
    } else if name == "h265"@ || name == "hevc"@ {
        Some(Id::HEVC)
    } else if name == "vp9"@ {
        Some(Id::VP9)
    } else if name == "av1"@ {
        Some(Id::AV1)
    } else {
        None
    }
}

/// The codec that a short name stands for.
pub fn codec_id(name: &str) -> (id: Option<Id>)
    ensures
        id == codec_of_name(name@),
{
    if same_text(name, "aac") {
        Some(Id::AAC)
    } else if same_text(name, "ac3") {
        Some(Id::AC3)
    } else if same_text(name, "eac3") {
        Some(Id::EAC3)
    } else if same_text(name, "mp3") {
        Some(Id::MP3)
    } else if same_text(name, "opus") {
        Some(Id::OPUS)
    } else if same_text(name, "flac") {
        Some(Id::FLAC)
    } else if same_text(name, "h264") {
        Some(Id::H264)
    } else if same_text(name, "h265") || same_text(name, "hevc") {
        Some(Id::HEVC)
    } else if same_text(name, "vp9") {
        Some(Id::VP9)
    } else if same_text(name, "av1") {
        Some(Id::AV1)
    } else {
        None
    }
}

/// The short name of a codec.
pub open spec fn short_name(id: Id) -> Option<Seq<char>> {
    match id {
        Id::AAC => Some("aac"@),
        Id::AC3 => Some("ac3"@),
        Id::EAC3 => Some("eac3"@),
        Id::MP3 => Some("mp3"@),
        Id::OPUS => Some("opus"@),
        Id::FLAC => Some("flac"@),
        Id::H264 => Some("h264"@),
        Id::HEVC => Some("h265"@),
        Id::VP9 => Some("vp9"@),
        Id::AV1 => Some("av1"@),
        _ => None,
    }
}

/// The short name of a codec.
pub fn codec_name_short(id: Id) -> (name: Option<&'static str>)
    ensures
        match name {
            Some(n) => short_name(id) == Some(n@),
            None => short_name(id) is None,
        },
{
    match id {
        Id::AAC => Some("aac"),
        Id::AC3 => Some("ac3"),
        Id::EAC3 => Some("eac3"),
        Id::MP3 => Some("mp3"),
        Id::OPUS => Some("opus"),
        Id::FLAC => Some("flac"),
        Id::H264 => Some("h264"),
        Id::HEVC => Some("h265"),
        Id::VP9 => Some("vp9"),
        Id::AV1 => Some("av1"),
        _ => None,
    }
}

/// The name of an audio codec in a `CODECS` attribute. A codec without one is announced
/// as AAC.
pub open spec fn attribute_name(id: Id) -> Seq<char> {
    match id {
        Id::AC3 => "ac-3"@,
        Id::EAC3 => "ec-3"@,
        Id::MP3 => "mp4a.40.34"@,
        Id::OPUS => "opus"@,
        Id::FLAC => "fLaC"@,
        _ => "mp4a.40.2"@,
    }
}

/// The name of an audio codec in a `CODECS` attribute.
pub fn codec_name(id: Id) -> (name: &'static str)
    ensures
        name@ == attribute_name(id),
{
    match id {
        Id::AC3 => "ac-3",
        Id::EAC3 => "ec-3",
        Id::MP3 => "mp4a.40.34",
        Id::OPUS => "opus",
        Id::FLAC => "fLaC",
        _ => "mp4a.40.2",
    }
}

/// The `CODECS` attribute name of the codec with a short name.
pub fn codec_name_normalized(name: &str) -> (normalized: Option<String>)
    ensures
        match codec_of_name(name@) {
            Some(id) => normalized matches Some(n) && n@ == attribute_name(id),
            None => normalized is None,
        },
{
    match codec_id(name) {
        Some(id) => Some(codec_name(id).to_owned()),
        None => None,
    }
}

/// The name of a codec for people to read.
pub open spec fn label_of(id: Id) -> Seq<char> {
    match id {
        Id::AAC => "AAC"@,
        Id::AC3 => "AC-3"@,
        Id::EAC3 => "E-AC-3"@,
        Id::MP3 => "MP3"@,
        Id::OPUS => "Opus"@,
        Id::FLAC => "FLAC"@,
        _ => "Audio"@,
    }
}

/// The name of a codec for people to read.
pub fn codec_label(id: Id) -> (label: &'static str)
    ensures
        label@ == label_of(id),
{
    match id {
        Id::AAC => "AAC",
        Id::AC3 => "AC-3",
        Id::EAC3 => "E-AC-3",
        Id::MP3 => "MP3",
        Id::OPUS => "Opus",
        Id::FLAC => "FLAC",
        _ => "Audio",
    }
}

/// The two-letter form of a three-letter language code, where it is known.
pub open spec fn rfc5646(language: Seq<char>) -> Seq<char> {
    if language == "eng"@ {
        "en"@
    } else if language == "deu"@ || language == "ger"@ {
        "de"@
    } else if language == "fra"@ || language == "fre"@ {
        "fr"@
    } else if language == "nld"@ || language == "dut"@ {
        "nl"@
    } else if language == "spa"@ {
        "es"@
    } else if language == "ita"@ {
        "it"@
    } else if language == "por"@ {
        "pt"@
    } else if language == "jpn"@ {
        "ja"@
    } else if language == "zho"@ || language == "chi"@ {
        "zh"@
    } else if language == "kor"@ {
        "ko"@
    } else if language == "rus"@ {
        "ru"@
    } else {
        language
    }
}

/// A language as playlists name it.
pub fn to_rfc5646(language: &str) -> (tag: String)
    ensures
        tag@ == rfc5646(language@),
{
    if same_text(language, "eng") {
        "en".to_owned()
    } else if same_text(language, "deu") || same_text(language, "ger") {
        "de".to_owned()
    } else if same_text(language, "fra") || same_text(language, "fre") {
        "fr".to_owned()
    } else if same_text(language, "nld") || same_text(language, "dut") {
        "nl".to_owned()
    } else if same_text(language, "spa") {
        "es".to_owned()
    } else if same_text(language, "ita") {
        "it".to_owned()
    } else if same_text(language, "por") {
        "pt".to_owned()
    } else if same_text(language, "jpn") {
        "ja".to_owned()
    } else if same_text(language, "zho") || same_text(language, "chi") {
        "zh".to_owned()
    } else if same_text(language, "kor") {
        "ko".to_owned()
    } else if same_text(language, "rus") {
        "ru".to_owned()
    } else {
        language.to_owned()
    }
}

/// The two hexadecimal digits of the low byte of an integer.
pub open spec fn hex_byte(v: int) -> Seq<char> {
    seq![hex_char((v % 256 / 16) as nat), hex_char((v % 16) as nat)]
}

/// The profile and level that an H.264 stream is announced with.
pub open spec fn avc_name(profile: Option<i32>, level: Option<i32>) -> Seq<char> {
    "avc1."@ + hex_byte(match profile {
        Some(p) => p as int,
        None => 100,
    }) + "00"@ + hex_byte(match level {
        Some(l) => l as int,
        None => 40,
    })
}

/// The name of a video codec in a `CODECS` attribute.
pub open spec fn video_attribute(
    id: Id,
    profile: Option<i32>,
    level: Option<i32>,
) -> Option<Seq<char>> {
    match id {
        Id::H264 => Some(avc_name(profile, level)),
        Id::HEVC => Some("hvc1.1.6.L120.90"@),
        Id::VP9 => Some("vp09.00.40.08"@),
        Id::AV1 => Some("av01.0.08M.08"@),
        _ => None,
    }
}

fn push_hex_byte(s: &mut String, v: i32)
    ensures
        final(s)@ == old(s)@ + hex_byte(v as int),
{
    let low: u8 = if v >= 0 {
        (v % 256) as u8
    } else {
        (255 - (-1 - v) % 256) as u8
    };
    assert(low == v as int % 256);
    s.push(hex_digit(low / 16));
    s.push(hex_digit(low % 16));
    assert(s@ =~= old(s)@ + hex_byte(v as int));
}

/// The name of a video codec in a `CODECS` attribute.
pub fn video_codec_name(id: Id, profile: Option<i32>, level: Option<i32>) -> (name: Option<String>)
    ensures
        match name {
            Some(n) => video_attribute(id, profile, level) == Some(n@),
            None => video_attribute(id, profile, level) is None,
        },
{
    match id {
        Id::H264 => {
            let mut s: String = "avc1.".to_owned();
            push_hex_byte(
                &mut s,
                match profile {
                    Some(p) => p,
                    None => 100,
                },
            );
            s.push_str("00");
            push_hex_byte(
                &mut s,
                match level {
                    Some(l) => l,
                    None => 40,
                },
            );
            assert(s@ =~= avc_name(profile, level));
            Some(s)
        },
        Id::HEVC => Some("hvc1.1.6.L120.90".to_owned()),
        Id::VP9 => Some("vp09.00.40.08".to_owned()),
        Id::AV1 => Some("av01.0.08M.08".to_owned()),
        _ => None,
    }
}

/// The sum of bit rates.
pub open spec fn total(bitrates: Seq<u32>) -> nat
    decreases bitrates.len(),
{
    if bitrates.len() == 0 {
        0
    } else {
        total(bitrates.drop_last()) + bitrates.last() as nat
    }
}

/// The bit rate of a variant: that of the video and of all the audio, at most what fits.
pub open spec fn bandwidth(video: nat, audio: Seq<u32>) -> nat {
    if video + total(audio) > u64::MAX {
        u64::MAX as nat
    } else {
        video + total(audio)
    }
}

/// The bit rate of a variant.
pub fn calculate_bandwidth(video_bitrate: u64, audio_bitrates: &[u32]) -> (rate: u64)
    ensures
        rate == bandwidth(video_bitrate as nat, audio_bitrates@),
{
    let mut rate: u64 = video_bitrate;
    let mut i: usize = 0;
    while i < audio_bitrates.len()
        invariant
            i <= audio_bitrates@.len(),
            rate == bandwidth(video_bitrate as nat, audio_bitrates@.take(i as int)),
        decreases audio_bitrates.len() - i,
    {
        assert(audio_bitrates@.take(i + 1).drop_last() =~= audio_bitrates@.take(i as int));
        rate = rate.saturating_add(audio_bitrates[i] as u64);
        i += 1;
    }
    assert(audio_bitrates@.take(audio_bitrates@.len() as int) =~= audio_bitrates@);
    rate
}

/// The names in a `CODECS` attribute: those of the video, of the audio and of the
/// subtitles.
pub open spec fn codec_names(
    video: Option<Seq<char>>,
    audio: Option<Seq<char>>,
    subtitles: bool,
) -> Seq<Seq<char>> {
    (match video {
        Some(v) => seq![v],
        None => Seq::empty(),
    }) + (match audio {
        Some(a) => seq![a],
        None => Seq::empty(),
    }) + (if subtitles {
        seq!["wvtt"@]
    } else {
        Seq::empty()
    })
}

/// A `CODECS` attribute; `None` where there is nothing to name.
pub fn build_codec_attribute(
    video: Option<Id>,
    profile: Option<i32>,
    level: Option<i32>,
    audio: Option<&str>,
    subtitles: bool,
) -> (attribute: Option<String>)
    ensures
        ({
            let names = codec_names(
                match video {
                    Some(id) => video_attribute(id, profile, level),
                    None => None,
                },
                match audio {
                    Some(a) => Some(a@),
                    None => None,
                },
                subtitles,
            );
            match attribute {
                Some(a) => names.len() > 0 && a@ == joined_with(names, ","@),
                None => names.len() == 0,
            }
        }),
{
    let mut parts: Vec<String> = Vec::new();
    let ghost named_video: Option<Seq<char>> = match video {
        Some(id) => video_attribute(id, profile, level),
        None => None,
    };
    let ghost named_audio: Option<Seq<char>> = match audio {
        Some(a) => Some(a@),
        None => None,
    };
    if let Some(id) = video {
        if let Some(name) = video_codec_name(id, profile, level) {
            parts.push(name);
        }
    }
    assert(texts_of(parts@) =~= codec_names(named_video, None, false));
    if let Some(name) = audio {
        parts.push(name.to_owned());
    }
    assert(texts_of(parts@) =~= codec_names(named_video, named_audio, false));
    if subtitles {
        parts.push("wvtt".to_owned());
    }
    assert(texts_of(parts@) =~= codec_names(named_video, named_audio, subtitles));
    if parts.len() == 0 {
        None
    } else {
        Some(join_texts(&parts, ","))
    }
}

/// Every short name stands for its codec.
pub proof fn law_short_name_reads_back(id: Id)
    ensures
        short_name(id) matches Some(name) ==> codec_of_name(name) == Some(id),
{
    reveal_strlit("aac");
    reveal_strlit("ac3");
    reveal_strlit("eac3");
    reveal_strlit("mp3");
    reveal_strlit("opus");
    reveal_strlit("flac");
    reveal_strlit("h264");
    reveal_strlit("h265");
    reveal_strlit("hevc");
    reveal_strlit("vp9");
    reveal_strlit("av1");
    let aac = "aac"@;
    let ac3 = "ac3"@;
    assert(aac[1] == 'a' && ac3[1] == 'c');
    assert("mp3"@[0] == 'm' && aac[0] == 'a' && ac3[0] == 'a');
    assert("vp9"@[0] == 'v' && "av1"@[0] == 'a' && "av1"@[1] == 'v');
    assert("eac3"@[0] == 'e' && "opus"@[0] == 'o' && "flac"@[0] == 'f' && "h264"@[0] == 'h');
    assert("h265"@[0] == 'h' && "h265"@[3] == '5' && "h264"@[3] == '4');
}

} // verus!
