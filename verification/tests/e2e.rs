use hls_vod::error::HlsError;
use hls_vod::hlsvideo::{HlsVideo, MainPlaylist, PlaylistOrSegment, SegmentJob, Step};
use hls_vod::cache::{SegmentCache, SegmentCacheConfig};
use hls_vod::media::{
    AudioStreamInfo, Id, Rational, SegmentInfo, StreamIndex, SubtitleFormat, SubtitleStreamInfo,
    VideoStreamInfo,
};
use hls_vod::params::HlsParams;
use hls_vod::segment::packets::MediaKind;
use std::collections::HashMap;
use std::sync::Arc;
use std::time::Instant;

fn media(audio: &[(Id, &str)], subtitles: &[&str]) -> StreamIndex {
    let mut index = StreamIndex::new("/media/test.mp4".to_string());
    index.video_timebase = Rational::new(1, 90000);
    index.video_streams.push(VideoStreamInfo {
        stream_index: 0,
        codec_id: Id::H264,
        width: 1280,
        height: 720,
        bitrate: 2_000_000,
        framerate: Rational::new(25, 1),
        language: None,
        profile: None,
        level: None,
    });
    for (i, (codec_id, language)) in audio.iter().enumerate() {
        index.audio_streams.push(AudioStreamInfo {
            stream_index: 1 + i,
            codec_id: *codec_id,
            sample_rate: 48000,
            channels: 2,
            bitrate: 128_000,
            language: Some(language.to_string()),
            encoder_delay: 0,
            transcode_to: None,
        });
    }
    for (i, language) in subtitles.iter().enumerate() {
        index.subtitle_streams.push(SubtitleStreamInfo {
            stream_index: 1 + audio.len() + i,
            codec_id: Id::SUBRIP,
            language: Some(language.to_string()),
            format: SubtitleFormat::SubRip,
            non_empty_sequences: vec![0, 1, 2],
            sample_index: Vec::new(),
            timebase: Rational::new(1, 1000),
            start_time: 0,
        });
    }
    for i in 0..3 {
        index.segments.push(SegmentInfo {
            sequence: i,
            start_pts: 360_000 * i as i64,
            end_pts: 360_000 * (i as i64 + 1),
            duration_us: 4_000_000,
            is_keyframe: true,
            video_byte_offset: 0,
        });
    }
    index
}

fn get_master(media: &StreamIndex) -> String {
    let url = format!("{}.as.m3u8", media.source_path);
    let hls_params = HlsParams::parse(&url).expect("Should parse master URL");
    let p = MainPlaylist {
        hls_params,
        index: Arc::new(media.clone()),
        tracks: media
            .video_streams
            .iter()
            .map(|v| v.stream_index)
            .chain(media.audio_streams.iter().map(|a| a.stream_index))
            .chain(media.subtitle_streams.iter().map(|s| s.stream_index))
            .collect(),
        codecs: Vec::new(),
        transcode: HashMap::new(),
        interleave: false,
    };
    String::from_utf8(p.generate().unwrap()).unwrap()
}

fn request(media: &StreamIndex, path: &str) -> PlaylistOrSegment {
    let url = format!("{}/{}/{}", media.source_path, media.stream_id, path);
    let hls_params = HlsParams::parse(&url).unwrap();
    PlaylistOrSegment::from_index(hls_params, Arc::new(media.clone()))
}

fn start(media: &StreamIndex, path: &str) -> Result<Step, HlsError> {
    request(media, path).generate(&mut None, 0)
}

fn get_variant(media: &StreamIndex, path: &str) -> String {
    match start(media, path) {
        Ok(Step::Done(bytes)) => String::from_utf8(bytes).unwrap(),
        other => panic!("no playlist: {:?}", other),
    }
}

fn check_master(playlist: &str) {
    assert!(playlist.starts_with("#EXTM3U\n"));
    assert!(playlist.contains("#EXT-X-VERSION:"));
    let lines: Vec<&str> = playlist.lines().collect();
    let variants: Vec<usize> = (0..lines.len())
        .filter(|i| lines[*i].starts_with("#EXT-X-STREAM-INF:"))
        .collect();
    assert!(!variants.is_empty());
    for i in variants {
        assert!(lines[i].contains("BANDWIDTH="));
        assert!(lines[i].contains("CODECS=\""));
        assert!(lines[i + 1].ends_with(".m3u8"));
    }
}

fn check_variant(playlist: &str, suffix: &str) {
    assert!(playlist.starts_with("#EXTM3U\n"));
    assert!(playlist.contains("#EXT-X-TARGETDURATION:"));
    assert!(playlist.ends_with("#EXT-X-ENDLIST\n"));
    let lines: Vec<&str> = playlist.lines().collect();
    let entries: Vec<usize> = (0..lines.len())
        .filter(|i| lines[*i].starts_with("#EXTINF:"))
        .collect();
    assert_eq!(entries.len(), 3);
    for i in entries {
        assert!(lines[i + 1].ends_with(suffix));
    }
}

#[test]
fn test_playlist_generation_all_configs() {
    check_master(&get_master(&media(&[(Id::AAC, "en")], &[])));
    check_master(&get_master(&media(&[(Id::AC3, "en")], &[])));
    check_master(&get_master(&media(&[(Id::AAC, "en"), (Id::AAC, "es")], &[])));
    check_master(&get_master(&media(&[(Id::AAC, "en")], &["en"])));
    check_master(&get_master(&media(
        &[(Id::AAC, "en"), (Id::AC3, "es"), (Id::OPUS, "fr")],
        &["en", "es", "fr"],
    )));
}

#[test]
fn test_audio_track_switching_e2e() {
    let media = media(&[(Id::AAC, "en"), (Id::AAC, "es")], &[]);
    let master = get_master(&media);

    let audio_count = master.matches("TYPE=AUDIO").count();
    assert!(audio_count >= 2, "Expected at least 2 audio tracks, found {}", audio_count);
    assert!(master.contains("LANGUAGE=\"en\""), "Missing English audio track");
    assert!(master.contains("LANGUAGE=\"es\""), "Missing Spanish audio track");

    for track_idx in [1, 2] {
        let audio_playlist = get_variant(&media, &format!("t.{}.m3u8", track_idx));
        check_variant(&audio_playlist, ".m4s");
    }
}

#[test]
fn test_subtitle_sync_e2e() {
    let media = media(&[(Id::AAC, "en")], &["en"]);
    let sub_idx = media.subtitle_streams.first().map(|s| s.stream_index).unwrap_or(2);
    let sub_playlist = get_variant(&media, &format!("t.{}.m3u8", sub_idx));
    check_variant(&sub_playlist, ".vtt");
    assert!(
        sub_playlist.contains(&format!("{}.0-0.vtt", sub_idx)),
        "Missing subtitle segment reference, got: \n{}",
        sub_playlist
    );
}

#[test]
fn test_benchmark_playlist_generation() {
    let media = media(
        &[(Id::AAC, "en"), (Id::AC3, "es"), (Id::OPUS, "fr")],
        &["en", "es", "fr"],
    );
    let iterations = 100;
    let start = Instant::now();
    for _ in 0..iterations {
        let _ = get_master(&media);
        let _ = get_variant(&media, "t.0.m3u8");
        let _ = get_variant(&media, "t.1.m3u8");
        let _ = get_variant(&media, "t.2.m3u8");
    }
    let avg_ms = start.elapsed().as_millis() as u64 / iterations;
    assert!(avg_ms < 100, "Playlist generation too slow: {}ms avg", avg_ms);
}

#[test]
fn test_benchmark_segment_generation() {
    let media = media(&[(Id::AAC, "en")], &[]);
    let iterations = 100;
    let begin = Instant::now();
    for _ in 0..iterations {
        let _ = start(&media, "v/0.init.mp4");
    }
    let avg_ms = begin.elapsed().as_millis() as u64 / iterations;
    assert!(avg_ms < 50, "Segment generation too slow: {}ms avg", avg_ms);
}

#[test]
fn a_url_says_what_is_to_be_made() {
    let media = media(&[(Id::AC3, "en")], &["en"]);
    match start(&media, "v/0+1-aac.1.m4s").unwrap() {
        Step::Make(SegmentJob::Media { segment, job }) => {
            assert_eq!(segment.sequence, 1);
            assert_eq!(job.kind, MediaKind::Av);
            assert_eq!(job.video_track, Some(0));
            assert_eq!(job.audio_track, Some(1));
            assert!(job.transcode);
        }
        other => panic!("unexpected: {:?}", other),
    }
    match start(&media, "v/0.2.m4s").unwrap() {
        Step::Make(SegmentJob::Media { segment, job }) => {
            assert_eq!(segment.sequence, 2);
            assert_eq!(job.kind, MediaKind::Video);
        }
        other => panic!("unexpected: {:?}", other),
    }
    match start(&media, "a/1.init.mp4").unwrap() {
        Step::Make(SegmentJob::Init { video_idx, audio_idx, transcode }) => {
            assert_eq!((video_idx, audio_idx, transcode), (None, Some(1), false));
        }
        other => panic!("unexpected: {:?}", other),
    }
    match start(&media, "s/2.0-1.vtt").unwrap() {
        Step::Make(SegmentJob::Subtitles(w)) => {
            assert_eq!((w.start_ms, w.end_ms), (0, 8000));
            assert!(w.expected.is_empty());
        }
        other => panic!("unexpected: {:?}", other),
    }
}

#[test]
fn what_is_missing_is_an_error() {
    let mut media = media(&[(Id::AC3, "en")], &["en"]);
    assert_eq!(
        start(&media, "v/0.9.m4s").unwrap_err(),
        HlsError::SegmentNotFound {
            stream_id: media.stream_id.clone(),
            segment_type: "video".to_string(),
            sequence: 9,
        }
    );
    assert_eq!(
        start(&media, "a/5.0.m4s").unwrap_err(),
        HlsError::StreamNotFound("audio stream 5 not found".to_string())
    );
    assert_eq!(
        start(&media, "s/7.0-0.vtt").unwrap_err(),
        HlsError::StreamNotFound("subtitle stream 7 not found".to_string())
    );
    media.subtitle_streams[0].codec_id = Id::HDMV_PGS_SUBTITLE;
    assert_eq!(
        start(&media, "s/2.0-0.vtt").unwrap_err(),
        HlsError::Muxing(
            "Subtitle stream 2 uses a bitmap codec (HDMV_PGS_SUBTITLE) which cannot be converted to WebVTT"
                .to_string()
        )
    );
    media.video_streams.clear();
    assert_eq!(start(&media, "v/0.init.mp4").unwrap_err(), HlsError::NoVideoStream);
    assert_eq!(
        start(&media, "v/0+1.0.m4s").unwrap_err(),
        HlsError::StreamNotFound(
            "Interleaved segment requires both video and audio streams".to_string()
        )
    );
}

#[test]
fn a_made_segment_is_kept() {
    let media = media(&[(Id::AAC, "en")], &[]);
    let mut cache = Some(SegmentCache::new(SegmentCacheConfig::default()));
    let segment = request(&media, "v/0.1.m4s");
    assert!(matches!(segment.generate(&mut cache, 5), Ok(Step::Make(_))));
    assert_eq!(segment.finish(&mut cache, vec![1, 2, 3], 6), vec![1, 2, 3]);
    match segment.generate(&mut cache, 7) {
        Ok(Step::Done(bytes)) => assert_eq!(bytes, vec![1, 2, 3]),
        other => panic!("unexpected: {:?}", other),
    }
    let init = request(&media, "v/0.init.mp4");
    assert_eq!(init.finish(&mut cache, vec![4], 8), vec![4]);
    assert!(matches!(init.generate(&mut cache, 9), Ok(Step::Make(_))));
    assert_eq!(cache.unwrap().len(), 1);
}

#[test]
fn a_main_playlist_can_be_set_up() {
    let media = Arc::new(media(&[(Id::AAC, "en"), (Id::AC3, "es")], &["en"]));
    let params = HlsParams::parse("/media/test.mp4.as.m3u8").unwrap();
    let mut video = HlsVideo::open(media.clone(), params);
    assert_eq!(video.mime_type(), "application/vnd.apple.mpegurl");
    assert_eq!(video.cache_control(), "no-cache");
    match &mut video {
        HlsVideo::MainPlaylist(p) => {
            assert_eq!(p.tracks.len(), 4);
            p.enable_tracks(&[0, 2]);
            p.filter_codecs(&["ac3"]);
            p.interleave();
            let text = String::from_utf8(p.generate().unwrap()).unwrap();
            assert!(text.ends_with(&format!("test.mp4/{}/t.0+2.m3u8\n", media.stream_id)));
        }
        HlsVideo::PlaylistOrSegment(_) => panic!("unexpected"),
    }
    let params = HlsParams::parse("/media/test.mp4/x/v/0.1.m4s").unwrap();
    let video = HlsVideo::open(media, params);
    assert_eq!(video.mime_type(), "video/iso.segment");
    assert_eq!(video.cache_control(), "max-age=3600");
}
