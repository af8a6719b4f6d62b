//! The names that playlists give to codecs and languages.

use vstd::prelude::*;
use crate::media::{AudioView, Id};
use crate::text::hex_char;
use super::codec::{attribute_name, avc_name, hex_byte, label_of, rfc5646, video_attribute};
use super::master::groups;

verus! {

/// The languages whose three-letter codes have a two-letter form, each code with that form.
pub open spec fn known_languages() -> Seq<(Seq<char>, Seq<char>)> {
    seq![
        ("eng"@, "en"@),
        ("deu"@, "de"@),
        ("ger"@, "de"@),
        ("fra"@, "fr"@),
        ("fre"@, "fr"@),
        ("nld"@, "nl"@),
        ("dut"@, "nl"@),
        ("spa"@, "es"@),
        ("ita"@, "it"@),
        ("por"@, "pt"@),
        ("jpn"@, "ja"@),
        ("zho"@, "zh"@),
        ("chi"@, "zh"@),
        ("kor"@, "ko"@),
        ("rus"@, "ru"@),
    ]
}

/// A language that has a two-letter form is named by it, any other by its code.
pub proof fn law_language_tags(language: Seq<char>)
    ensures
        forall|i: int|
            0 <= i < known_languages().len() && (#[trigger] known_languages()[i]).0 == language
                ==> rfc5646(language) == known_languages()[i].1,
        (forall|i: int|
            0 <= i < known_languages().len() ==> (#[trigger] known_languages()[i]).0 != language)
            ==> rfc5646(language) == language,
{
    reveal_strlit("eng");
    reveal_strlit("deu");
    reveal_strlit("ger");
    reveal_strlit("fra");
    reveal_strlit("fre");
    reveal_strlit("nld");
    reveal_strlit("dut");
    reveal_strlit("spa");
    reveal_strlit("ita");
    reveal_strlit("por");
    reveal_strlit("jpn");
    reveal_strlit("zho");
    reveal_strlit("chi");
    reveal_strlit("kor");
    reveal_strlit("rus");
    let k = known_languages();
    assert(k.len() == 15);
    assert(k[0].0 == "eng"@ && k[1].0 == "deu"@ && k[2].0 == "ger"@ && k[3].0 == "fra"@);
    assert(k[4].0 == "fre"@ && k[5].0 == "nld"@ && k[6].0 == "dut"@ && k[7].0 == "spa"@);
    assert(k[8].0 == "ita"@ && k[9].0 == "por"@ && k[10].0 == "jpn"@ && k[11].0 == "zho"@);
    assert(k[12].0 == "chi"@ && k[13].0 == "kor"@ && k[14].0 == "rus"@);
    if language.len() == 3 {
        assert(language =~= seq![language[0], language[1], language[2]]);
    }
    assert forall|i: int| 0 <= i < k.len() && (#[trigger] k[i]).0 == language implies rfc5646(
        language,
    ) == k[i].1 by {
        assert(language[0] == k[i].0[0] && language[1] == k[i].0[1] && language[2] == k[i].0[2]);
    }
}

/// No two audio codecs that playlists can name are named alike, neither for players nor for people,
/// and a codec that has no name of its own is announced as AAC.
pub proof fn law_audio_codec_names(id: Id)
    ensures
        attribute_name(id) == "ac-3"@ <==> id is AC3,
        attribute_name(id) == "ec-3"@ <==> id is EAC3,
        attribute_name(id) == "mp4a.40.34"@ <==> id is MP3,
        attribute_name(id) == "opus"@ <==> id is OPUS,
        attribute_name(id) == "fLaC"@ <==> id is FLAC,
        attribute_name(id) == "mp4a.40.2"@ <==> !(id is AC3 || id is EAC3 || id is MP3 || id is OPUS
            || id is FLAC),
        label_of(id) == "AAC"@ <==> id is AAC,
        label_of(id) == "AC-3"@ <==> id is AC3,
        label_of(id) == "E-AC-3"@ <==> id is EAC3,
        label_of(id) == "MP3"@ <==> id is MP3,
        label_of(id) == "Opus"@ <==> id is OPUS,
        label_of(id) == "FLAC"@ <==> id is FLAC,
{
    reveal_strlit("ac-3");
    reveal_strlit("ec-3");
    reveal_strlit("mp4a.40.34");
    reveal_strlit("opus");
    reveal_strlit("fLaC");
    reveal_strlit("mp4a.40.2");
    reveal_strlit("AAC");
    reveal_strlit("AC-3");
    reveal_strlit("E-AC-3");
    reveal_strlit("MP3");
    reveal_strlit("Opus");
    reveal_strlit("FLAC");
    reveal_strlit("Audio");
    assert("ac-3"@[0] == 'a' && "ec-3"@[0] == 'e' && "mp4a.40.34"@[0] == 'm' && "opus"@[0] == 'o'
        && "fLaC"@[0] == 'f');
    assert("mp4a.40.34"@.len() == 10 && "mp4a.40.2"@.len() == 9);
    assert("mp4a.40.2"@[0] == 'm');
    assert("AAC"@[1] == 'A' && "AC-3"@[1] == 'C' && "E-AC-3"@[1] == '-' && "MP3"@[1] == 'P'
        && "Opus"@[1] == 'p' && "FLAC"@[1] == 'L' && "Audio"@[1] == 'u');
}

/// The value of a hexadecimal digit in lower case.
pub open spec fn hex_value(c: char) -> int {
    if '0' <= c <= '9' {
        c as int - '0' as int
    } else {
        c as int - 'a' as int + 10
    }
}

proof fn lemma_hex_value(d: nat)
    requires
        d < 16,
    ensures
        hex_value(hex_char(d)) == d,
{
    reveal_strlit("0123456789abcdef");
    let s = "0123456789abcdef"@;
    assert(s[0] == '0' && s[1] == '1' && s[2] == '2' && s[3] == '3' && s[4] == '4' && s[5] == '5'
        && s[6] == '6' && s[7] == '7');
    assert(s[8] == '8' && s[9] == '9' && s[10] == 'a' && s[11] == 'b' && s[12] == 'c' && s[13]
        == 'd' && s[14] == 'e' && s[15] == 'f');
}

proof fn lemma_hex_byte(v: int)
    requires
        0 <= v < 256,
    ensures
        hex_byte(v).len() == 2,
        hex_value(hex_byte(v)[0]) * 16 + hex_value(hex_byte(v)[1]) == v,
{
    lemma_hex_value((v % 256 / 16) as nat);
    lemma_hex_value((v % 16) as nat);
}

/// An H.264 stream is announced with its profile and its level in hexadecimal, around two zeros;
/// profile 100 and level 4.0 stand in for those that are not known.
pub proof fn law_avc_name(profile: Option<i32>, level: Option<i32>)
    requires
        profile matches Some(p) ==> 0 <= p < 256,
        level matches Some(l) ==> 0 <= l < 256,
    ensures
        ({
            let s = avc_name(profile, level);
            &&& video_attribute(Id::H264, profile, level) == Some(s)
            &&& s.len() == 11
            &&& s.take(5) == "avc1."@
            &&& s[7] == '0' && s[8] == '0'
            &&& hex_value(s[5]) * 16 + hex_value(s[6]) == (match profile {
                Some(p) => p as int,
                None => 100,
            })
            &&& hex_value(s[9]) * 16 + hex_value(s[10]) == (match level {
                Some(l) => l as int,
                None => 40,
            })
        }),
{
    reveal_strlit("avc1.");
    reveal_strlit("00");
    let p = match profile {
        Some(p) => p as int,
        None => 100,
    };
    let l = match level {
        Some(l) => l as int,
        None => 40,
    };
    lemma_hex_byte(p);
    lemma_hex_byte(l);
    let s = avc_name(profile, level);
    assert(s == "avc1."@ + hex_byte(p) + "00"@ + hex_byte(l));
    assert(s.take(5) =~= "avc1."@);
    assert(s[5] == hex_byte(p)[0] && s[6] == hex_byte(p)[1]);
    assert(s[9] == hex_byte(l)[0] && s[10] == hex_byte(l)[1]);
}

/// The groups of audio tracks come in the order in which they first appear: those of the first
/// `n` tracks come first.
pub proof fn law_groups_come_as_they_appear(audio: Seq<AudioView>, n: int)
    requires
        0 <= n <= audio.len(),
    ensures
        groups(audio.take(n)).len() <= groups(audio).len(),
        groups(audio).take(groups(audio.take(n)).len() as int) == groups(audio.take(n)),
    decreases audio.len() - n,
{
    if n < audio.len() {
        law_groups_come_as_they_appear(audio, n + 1);
        let next = groups(audio.take(n + 1));
        let here = groups(audio.take(n));
        assert(audio.take(n + 1).drop_last() =~= audio.take(n));
        assert(next.take(here.len() as int) =~= here);
        assert(groups(audio).take(here.len() as int) =~= groups(audio).take(
            next.len() as int,
        ).take(here.len() as int));
    } else {
        assert(audio.take(n) =~= audio);
        assert(groups(audio).take(groups(audio).len() as int) =~= groups(audio));
    }
}

} // verus!
