use hls_vod::media::{
    AudioStreamInfo, Id, Rational, SegmentInfo, StreamIndex, SubtitleFormat, SubtitleStreamInfo,
    VideoStreamInfo,
};
use hls_vod::playlist::codec::{
    build_codec_attribute, calculate_bandwidth, codec_id, codec_label, codec_name,
    codec_name_normalized, codec_name_short, to_rfc5646, video_codec_name,
};
use hls_vod::playlist::master::{
    audio_media_line, generate_master_playlist, select_audio, subtitle_media_line,
};
use hls_vod::playlist::variant::{
    calculate_target_duration, generate_audio_playlist, generate_interleaved_playlist,
    generate_subtitle_playlist, generate_video_playlist,
};
use std::collections::{HashMap, HashSet};

fn audio(stream_index: usize, codec_id: Id, language: Option<&str>) -> AudioStreamInfo {
    AudioStreamInfo {
        stream_index,
        codec_id,
        sample_rate: 48000,
        channels: 2,
        bitrate: 128000,
        language: language.map(|l| l.to_string()),
        transcode_to: None,
        encoder_delay: 0,
    }
}

fn subtitles(stream_index: usize, non_empty_sequences: Vec<usize>) -> SubtitleStreamInfo {
    SubtitleStreamInfo {
        stream_index,
        codec_id: Id::SUBRIP,
        language: Some("en".to_string()),
        format: SubtitleFormat::SubRip,
        non_empty_sequences,
        sample_index: Vec::new(),
        timebase: Rational::new(1, 1000),
        start_time: 0,
    }
}

fn segment(sequence: usize, duration_us: u64) -> SegmentInfo {
    SegmentInfo {
        sequence,
        start_pts: 90000 * sequence as i64,
        end_pts: 90000 * (sequence as i64 + 1),
        duration_us,
        is_keyframe: true,
        video_byte_offset: 1000 * sequence as u64,
    }
}

fn create_test_index() -> StreamIndex {
    let mut index = StreamIndex::new("/test/video.mp4".to_string());

    index.video_streams.push(VideoStreamInfo {
        stream_index: 0,
        codec_id: Id::H264,
        width: 1920,
        height: 1080,
        bitrate: 5000000,
        framerate: Rational::new(30, 1),
        language: None,
        profile: None,
        level: None,
    });

    index.audio_streams.push(audio(1, Id::AAC, Some("en")));

    index
}

fn create_segmented_index() -> StreamIndex {
    let mut index = create_test_index();
    index.segments.push(segment(0, 4_000_000));
    index.segments.push(segment(1, 4_000_000));
    index
}

fn all_tracks(index: &StreamIndex) -> HashSet<usize> {
    index
        .video_streams
        .iter()
        .map(|v| v.stream_index)
        .chain(index.audio_streams.iter().map(|a| a.stream_index))
        .chain(index.subtitle_streams.iter().map(|s| s.stream_index))
        .collect()
}

fn master(index: &StreamIndex, transcode: &HashMap<usize, String>, interleaved: bool) -> String {
    generate_master_playlist(
        index,
        "video.mp4",
        None,
        &[],
        &all_tracks(index),
        transcode,
        interleaved,
    )
}

#[test]
fn test_generate_master_playlist() {
    let index = create_test_index();
    let playlist = master(&index, &HashMap::new(), false);

    assert!(playlist.contains("#EXTM3U"));
    assert!(playlist.contains("#EXT-X-VERSION:7"));
    assert!(playlist.contains("#EXT-X-STREAM-INF"));
    assert!(playlist.contains("BANDWIDTH="));
    assert!(playlist.contains("RESOLUTION=1920x1080"));
    assert!(playlist.contains("video.mp4/t.0.m3u8"));
}

#[test]
fn test_generate_master_playlist_with_audio() {
    let index = create_test_index();
    let playlist = master(&index, &HashMap::new(), false);

    assert!(playlist.contains("TYPE=AUDIO"));
    assert!(playlist.contains("LANGUAGE=\"en\""));
    assert!(playlist.contains("video.mp4/t.1.m3u8"));
}

#[test]
fn test_generate_master_playlist_with_subtitles() {
    let mut index = create_test_index();
    index.subtitle_streams.push(subtitles(2, Vec::new()));
    let playlist = master(&index, &HashMap::new(), false);

    assert!(playlist.contains("TYPE=SUBTITLES"));
    assert!(playlist.contains("video.mp4/t.2.m3u8"));
    assert!(playlist.contains("CODECS=\"avc1.640028,mp4a.40.2,wvtt\""));
}

#[test]
fn test_generate_master_playlist_interleaved() {
    let index = create_test_index();
    let playlist = master(&index, &HashMap::new(), true);

    assert!(playlist.contains("#EXTM3U"));
    assert!(playlist.contains("#EXT-X-VERSION:7"));
    assert!(playlist.contains("#EXT-X-STREAM-INF"));
    assert!(playlist.contains("BANDWIDTH="));
    assert!(playlist.contains("RESOLUTION=1920x1080"));
    assert!(playlist.contains("video.mp4/t.0+1.m3u8"));
    assert!(!playlist.contains("TYPE=AUDIO"));
}

#[test]
fn test_generate_master_playlist_interleaved_with_subtitles() {
    let mut index = create_test_index();
    index.subtitle_streams.push(subtitles(2, Vec::new()));
    let playlist = master(&index, &HashMap::new(), true);

    assert!(playlist.contains("#EXTM3U"));
    assert!(playlist.contains("video.mp4/t.0+1.m3u8"));
    assert!(!playlist.contains("TYPE=AUDIO"));
    assert!(playlist.contains("TYPE=SUBTITLES"));
    assert!(playlist.contains("SUBTITLES=\"subs\""));
    assert!(playlist.contains("CODECS=\""));
}

#[test]
fn test_generate_master_playlist_interleaved_force_aac() {
    let index = create_test_index();
    let transcode: HashMap<usize, String> = [(1, "aac".to_string())].into();
    let playlist = master(&index, &transcode, true);

    assert!(playlist.contains("#EXTM3U"));
    assert!(playlist.contains("#EXT-X-VERSION:7"));
    assert!(playlist.contains("#EXT-X-STREAM-INF"));
    assert!(playlist.contains("video.mp4/t.0+1-aac.m3u8"));
    assert!(playlist.contains("CODECS=\"avc1.640028,mp4a.40.2\""));
    assert!(!playlist.contains("TYPE=AUDIO"));
}

#[test]
fn a_main_playlist_reads_like_this() {
    let mut index = create_test_index();
    index.audio_streams.push(audio(3, Id::AC3, None));
    index.audio_streams.push(audio(2, Id::AAC, Some("fra")));
    index.subtitle_streams.push(subtitles(4, Vec::new()));
    let playlist = generate_master_playlist(
        &index,
        "movies/film.mkv",
        Some("s1"),
        &[],
        &all_tracks(&index),
        &HashMap::new(),
        true,
    );
    let expected = "#EXTM3U\n#EXT-X-VERSION:7\n\n# Audio Tracks\n\
#EXT-X-MEDIA:TYPE=AUDIO,GROUP-ID=\"audio-aac\",LANGUAGE=\"en\",NAME=\"EN AAC\",DEFAULT=YES,AUTOSELECT=YES,URI=\"film.mkv/s1/t.1.m3u8\"\n\
#EXT-X-MEDIA:TYPE=AUDIO,GROUP-ID=\"audio-aac\",LANGUAGE=\"fr\",NAME=\"FRA AAC\",DEFAULT=NO,AUTOSELECT=YES,URI=\"film.mkv/s1/t.2.m3u8\"\n\
#EXT-X-MEDIA:TYPE=AUDIO,GROUP-ID=\"audio-ac3\",LANGUAGE=\"und\",NAME=\"AC-3\",DEFAULT=YES,AUTOSELECT=YES,URI=\"film.mkv/s1/t.3.m3u8\"\n\
\n# Subtitle Tracks\n\
#EXT-X-MEDIA:TYPE=SUBTITLES,GROUP-ID=\"subs\",LANGUAGE=\"en\",NAME=\"EN Subtitles\",DEFAULT=YES,AUTOSELECT=YES,FORCED=NO,URI=\"film.mkv/s1/t.4.m3u8\"\n\
\n# Video Variants\n\
#EXT-X-STREAM-INF:BANDWIDTH=5256000,RESOLUTION=1920x1080,AUDIO=\"audio-aac\",CODECS=\"avc1.640028,mp4a.40.2,wvtt\",SUBTITLES=\"subs\"\n\
film.mkv/s1/t.0.m3u8\n\
#EXT-X-STREAM-INF:BANDWIDTH=5128000,RESOLUTION=1920x1080,AUDIO=\"audio-ac3\",CODECS=\"avc1.640028,ac-3,wvtt\",SUBTITLES=\"subs\"\n\
film.mkv/s1/t.0.m3u8\n";
    assert_eq!(playlist, expected);
}

#[test]
fn a_main_playlist_without_audio_reads_like_this() {
    let mut index = create_test_index();
    index.audio_streams.clear();
    index.video_streams[0].bitrate = 1;
    let playlist = master(&index, &HashMap::new(), true);
    assert_eq!(
        playlist,
        "#EXTM3U\n#EXT-X-VERSION:7\n\n# Video Variants\n\
#EXT-X-STREAM-INF:BANDWIDTH=100000,RESOLUTION=1920x1080,CODECS=\"avc1.640028\"\nvideo.mp4/t.0.m3u8\n"
    );
    index.video_streams.clear();
    assert_eq!(
        master(&index, &HashMap::new(), true),
        "#EXTM3U\n#EXT-X-VERSION:7\n\n# Video Variants\n"
    );
}

#[test]
fn an_interleaved_main_playlist_reads_like_this() {
    let mut index = create_test_index();
    index.audio_streams[0].codec_id = Id::FLAC;
    let transcode: HashMap<usize, String> = [(1, "aac".to_string()), (9, "ac3".to_string())].into();
    assert_eq!(
        master(&index, &transcode, true),
        "#EXTM3U\n#EXT-X-VERSION:7\n\n# Video Variants\n\
#EXT-X-STREAM-INF:BANDWIDTH=5128000,RESOLUTION=1920x1080,CODECS=\"avc1.640028,mp4a.40.2\"\n\
video.mp4/t.0+1-aac.m3u8\n"
    );
}

#[test]
fn audio_is_selected_by_track_and_codec() {
    let streams = vec![
        audio(1, Id::AAC, None),
        audio(2, Id::AC3, None),
        audio(3, Id::VORBIS, None),
        audio(4, Id::DTS, None),
    ];
    let tracks: HashSet<usize> = [1, 2, 3].into();
    let none: HashMap<usize, String> = HashMap::new();
    let select = |codecs: &[&str], transcode: &HashMap<usize, String>| -> Vec<(usize, Option<Id>)> {
        let codecs: Vec<String> = codecs.iter().map(|c| c.to_string()).collect();
        select_audio(&streams, &tracks, transcode, &codecs)
            .iter()
            .map(|a| (a.stream_index, a.transcode_to))
            .collect()
    };
    assert_eq!(select(&[], &none), vec![(1, None), (2, None), (3, None)]);
    assert_eq!(select(&["ac3"], &none), vec![(2, None)]);
    assert_eq!(select(&["opus", "nonsense"], &none), vec![]);
    let marked: HashMap<usize, String> = [(3, "opus".to_string())].into();
    assert_eq!(select(&["opus"], &marked), vec![(3, Some(Id::OPUS))]);

    // AAC is always to be had: from the streams in the codec of the first one.
    let streams = vec![
        audio(1, Id::DTS, None),
        audio(2, Id::TRUEHD, None),
        audio(3, Id::DTS, None),
    ];
    let codecs = vec!["aac".to_string()];
    let out = select_audio(&streams, &tracks, &none, &codecs);
    let out: Vec<(usize, Option<Id>)> =
        out.iter().map(|a| (a.stream_index, a.transcode_to)).collect();
    assert_eq!(out, vec![(1, Some(Id::AAC)), (3, Some(Id::AAC))]);
}

#[test]
fn entries_take_the_language_in_upper_case() {
    let a = audio(5, Id::OPUS, Some("nld"));
    assert_eq!(
        audio_media_line(&a, "NLD", false, "v.mp4", Some("x")),
        "#EXT-X-MEDIA:TYPE=AUDIO,GROUP-ID=\"audio-opus\",LANGUAGE=\"nl\",NAME=\"NLD Opus\",DEFAULT=NO,AUTOSELECT=YES,URI=\"v.mp4/x/t.5.m3u8\"\n"
    );
    assert_eq!(
        subtitle_media_line("und", 6, "UND", false, "v.mp4", None),
        "#EXT-X-MEDIA:TYPE=SUBTITLES,GROUP-ID=\"subs\",LANGUAGE=\"und\",NAME=\"UND Subtitles\",DEFAULT=NO,AUTOSELECT=NO,FORCED=NO,URI=\"v.mp4/t.6.m3u8\"\n"
    );
}

#[test]
fn test_generate_video_playlist() {
    let index = create_segmented_index();
    let playlist = generate_video_playlist(&index);

    assert!(playlist.contains("#EXTM3U"));
    assert!(playlist.contains("#EXT-X-VERSION:7"));
    assert!(playlist.contains("#EXT-X-TARGETDURATION:6"));
    assert!(playlist.contains("#EXT-X-PLAYLIST-TYPE:VOD"));
    assert!(playlist.contains("#EXT-X-ENDLIST"));
    assert!(playlist.contains("0.0.m4s"));
    assert!(playlist.contains("0.1.m4s"));
}

#[test]
fn test_generate_audio_playlist() {
    let index = create_segmented_index();
    let playlist = generate_audio_playlist(&index, 1, None);

    assert!(playlist.contains("#EXTM3U"));
    assert!(playlist.contains("#EXT-X-VERSION:7"));
    assert!(playlist.contains("1.0.m4s"));
    assert!(playlist.contains("1.1.m4s"));
    assert!(playlist.contains("#EXT-X-ENDLIST"));
}

#[test]
fn test_generate_subtitle_playlist() {
    let index = create_segmented_index();
    let playlist = generate_subtitle_playlist(&index, 2);

    assert!(playlist.contains("#EXTM3U"));
    assert!(playlist.contains("#EXT-X-VERSION:7"));
    assert!(playlist.contains("2.0-0.vtt"));
    assert!(playlist.contains("2.1-1.vtt"));
    assert!(playlist.contains("#EXT-X-ENDLIST"));
}

#[test]
fn test_calculate_target_duration() {
    let segments = vec![segment(0, 4_000_000), segment(1, 5_500_000)];
    assert_eq!(calculate_target_duration(&segments), 6);

    let segments = vec![segment(0, 10_000_000)];
    assert_eq!(calculate_target_duration(&segments), 10);
}

#[test]
fn target_durations_round_up() {
    assert_eq!(calculate_target_duration(&[]), 6);
    assert_eq!(calculate_target_duration(&[segment(0, 6_000_001)]), 7);
    assert_eq!(calculate_target_duration(&[segment(0, u64::MAX)]), u32::MAX);
}

#[test]
fn a_video_playlist_reads_like_this() {
    let mut index = create_segmented_index();
    index.segments[1].duration_us = 3_999_500;
    index.segments.push(segment(2, 62_500));
    assert_eq!(
        generate_video_playlist(&index),
        "#EXTM3U\n#EXT-X-VERSION:7\n#EXT-X-TARGETDURATION:6\n#EXT-X-MEDIA-SEQUENCE:0\n\
#EXT-X-PLAYLIST-TYPE:VOD\n#EXT-X-INDEPENDENT-SEGMENTS\n#EXT-X-MAP:URI=\"v/0.init.mp4\"\n\n\
#EXTINF:4.000,\nv/0.0.m4s\n#EXTINF:3.999,\nv/0.1.m4s\n#EXTINF:0.062,\nv/0.2.m4s\n#EXT-X-ENDLIST\n"
    );
}

#[test]
fn transcoded_playlists_name_the_codec() {
    let mut index = create_segmented_index();
    index.segments.pop();
    let asked = generate_audio_playlist(&index, 1, Some("aac"));
    assert!(asked.contains("#EXT-X-MAP:URI=\"a/1-aac.init.mp4\"\n"));
    assert!(asked.contains("\na/1-aac.0.m4s\n"));
    index.audio_streams[0].transcode_to = Some(Id::AC3);
    let marked = generate_audio_playlist(&index, 1, None);
    assert!(marked.contains("\na/1-ac3.0.m4s\n"));
    let both = generate_interleaved_playlist(&index, 0, 1, Some("aac"));
    assert!(both.contains("#EXT-X-MAP:URI=\"v/0+1-aac.init.mp4\"\n"));
    assert!(both.contains("\nv/0+1-aac.0.m4s\n"));
    let unknown = generate_interleaved_playlist(&index, 0, 7, None);
    assert!(unknown.contains("\nv/0+7.0.m4s\n"));
}

#[test]
fn silent_segments_share_an_entry_up_to_the_cap() {
    let mut index = create_test_index();
    for i in 0..12 {
        index.segments.push(segment(i, 4_000_000));
    }
    index.subtitle_streams.push(subtitles(2, vec![2, 11]));
    assert_eq!(
        generate_subtitle_playlist(&index, 2),
        "#EXTM3U\n#EXT-X-VERSION:7\n#EXT-X-TARGETDURATION:28\n#EXT-X-MEDIA-SEQUENCE:0\n\
#EXT-X-PLAYLIST-TYPE:VOD\n\n\
#EXTINF:12.000000,\ns/2.0-2.vtt\n#EXTINF:28.000000,\ns/2.3-9.vtt\n\
#EXTINF:8.000000,\ns/2.10-11.vtt\n#EXT-X-ENDLIST\n"
    );
    index.subtitle_streams[0].non_empty_sequences = Vec::new();
    let playlist = generate_subtitle_playlist(&index, 2);
    assert!(playlist.contains("#EXTINF:28.000000,\ns/2.0-6.vtt\n#EXTINF:20.000000,\ns/2.7-11.vtt\n"));
}

#[test]
fn codecs_have_names() {
    for name in ["aac", "ac3", "eac3", "mp3", "opus", "flac", "h264", "h265", "vp9", "av1"] {
        assert_eq!(codec_name_short(codec_id(name).unwrap()), Some(name));
    }
    assert_eq!(codec_id("hevc"), Some(Id::HEVC));
    assert_eq!(codec_id("AAC"), None);
    assert_eq!(codec_name_short(Id::DTS), None);
    assert_eq!(codec_name(Id::EAC3), "ec-3");
    assert_eq!(codec_name(Id::Other), "mp4a.40.2");
    assert_eq!(codec_name_normalized("ac3").as_deref(), Some("ac-3"));
    assert_eq!(codec_name_normalized("x"), None);
    assert_eq!(codec_label(Id::EAC3), "E-AC-3");
    assert_eq!(to_rfc5646("ger"), "de");
    assert_eq!(to_rfc5646("tlh"), "tlh");
    assert_eq!(video_codec_name(Id::H264, Some(77), Some(31)).as_deref(), Some("avc1.4d001f"));
    assert_eq!(video_codec_name(Id::SUBRIP, None, None), None);
    assert_eq!(build_codec_attribute(None, None, None, None, false), None);
    assert_eq!(
        build_codec_attribute(Some(Id::VP9), None, None, Some("opus"), true).as_deref(),
        Some("vp09.00.40.08,opus,wvtt")
    );
    assert_eq!(calculate_bandwidth(10, &[1, 2, 3]), 16);
    assert_eq!(calculate_bandwidth(u64::MAX, &[1]), u64::MAX);
}
