use hls_vod::hlsvideo::MainPlaylist;
use hls_vod::media::StreamIndex;
use hls_vod::params::{HlsParams, UrlType};
use hls_vod::proxy::forwarding::{
    changes_response, ends_playback, forwards_request_header, forwards_response_header,
    upstream_socket_url, upstream_url,
};
use hls_vod::proxy::media_request::{apply_query, make_media_path, read_media_request};
use hls_vod::proxy::playbackinfo::{
    mutate_playback_info_request, mutate_playback_info_response, profile_is,
};
use hls_vod::proxy::stream_id::{calculate_stream_id, find_device_id, short_digest};
use hls_vod::proxy::transcoding_url::{
    make_base_url, make_proxied_url, read_parameters, rewrite_hls_url, BadRequest,
};
use hls_vod::proxy::types::{
    DeviceProfile, DirectPlayProfile, HlsTranscodingParameters, MediaSource, PlaybackInfoRequest,
    PlaybackInfoResponse, TranscodingProfile,
};
use std::sync::Arc;

#[test]
fn test_mutate_playback_info_request_ts_filtered() {
    let mut req = PlaybackInfoRequest {
        device_profile: Some(DeviceProfile {
            transcoding_profiles: vec![
                TranscodingProfile {
                    container: Some("mp3".to_string()),
                    profile_type: "Audio".to_string(),
                    video_codec: None,
                    audio_codec: Some("mp3".to_string()),
                    protocol: Some("http".to_string()),
                    context: Some("Streaming".to_string()),
                    ..Default::default()
                },
                TranscodingProfile {
                    container: Some("ts".to_string()),
                    profile_type: "Video".to_string(),
                    video_codec: None,
                    audio_codec: None,
                    protocol: Some("hls".to_string()),
                    context: Some("Streaming".to_string()),
                    ..Default::default()
                },
            ],
            direct_play_profiles: vec![],
            ..Default::default()
        }),
        ..Default::default()
    };
    mutate_playback_info_request(&mut req, None, true);
    let device_profile = req.device_profile.as_ref().unwrap();
    assert_eq!(device_profile.transcoding_profiles.len(), 2);
    assert_eq!(
        device_profile.transcoding_profiles[0].container.as_deref(),
        Some("mp3")
    );
    assert_eq!(
        device_profile.transcoding_profiles[1].container.as_deref(),
        Some("mp4")
    );
    assert_eq!(device_profile.direct_play_profiles.len(), 0);
}

fn safari_request() -> PlaybackInfoRequest {
    PlaybackInfoRequest {
        device_profile: Some(DeviceProfile {
            transcoding_profiles: vec![],
            direct_play_profiles: vec![DirectPlayProfile {
                container: Some("mp4".to_string()),
                video_codec: Some("h264".to_string()),
                audio_codec: Some("aac".to_string()),
                profile_type: "Video".to_string(),
            }],
            ..Default::default()
        }),
        ..Default::default()
    }
}

#[test]
fn test_mutate_playback_info_request_safari() {
    let mut req = safari_request();
    mutate_playback_info_request(&mut req, Some("Mozilla/5.0 (Macintosh; Intel Mac OS X 10_15_7) AppleWebKit/605.1.15 (KHTML, like Gecko) Version/17.4 Safari/605.1.15"), true);
    let device_profile = req.device_profile.as_ref().unwrap();
    assert_eq!(device_profile.direct_play_profiles.len(), 0);
}

#[test]
fn other_browsers_keep_their_profiles() {
    let agents = ["Chrome/120 Safari/537", "Chromium Safari", "Firefox"];
    for agent in agents {
        let mut req = safari_request();
        mutate_playback_info_request(&mut req, Some(agent), true);
        assert_eq!(req.device_profile.unwrap().direct_play_profiles.len(), 1);
    }
    let mut req = safari_request();
    mutate_playback_info_request(&mut req, Some("Safari"), false);
    assert_eq!(req.device_profile.unwrap().direct_play_profiles.len(), 1);
    let mut req = PlaybackInfoRequest::default();
    mutate_playback_info_request(&mut req, Some("Safari"), true);
    assert!(req.device_profile.is_none());
}

#[test]
fn ts_stays_where_mp4_is_offered() {
    let hls = |container: &str| TranscodingProfile {
        container: Some(container.to_string()),
        profile_type: "Video".to_string(),
        protocol: Some("hls".to_string()),
        ..Default::default()
    };
    assert!(profile_is(&hls("ts"), "ts"));
    assert!(!profile_is(&hls("ts"), "mp4"));
    let mut req = PlaybackInfoRequest {
        device_profile: Some(DeviceProfile {
            transcoding_profiles: vec![hls("ts"), hls("mp4")],
            ..Default::default()
        }),
        ..Default::default()
    };
    mutate_playback_info_request(&mut req, None, false);
    let profiles = req.device_profile.unwrap().transcoding_profiles;
    assert_eq!(profiles[0].container.as_deref(), Some("ts"));
}

#[test]
fn test_mutate_playback_info_response() {
    let mut resp = PlaybackInfoResponse {
        media_sources: vec![MediaSource {
            path: "/some/media/file.mp4".to_string(),
            transcoding_url: Some("/some/hls.m3u8".to_string()),
            ..Default::default()
        }],
        ..Default::default()
    };
    mutate_playback_info_response(None, &mut resp).unwrap();
    let media_source = &resp.media_sources[0];
    // source.supports_direct_play is false by Default
    assert_eq!(media_source.supports_direct_play, false);
    assert_eq!(
        media_source.transcoding_url.as_deref(),
        Some("/proxymedia/some/media/file.mp4.as.m3u8?tracks=0&interleave=true")
    );
}

#[test]
fn test_mutate_playback_info_response_with_params() {
    let mut resp = PlaybackInfoResponse {
        media_sources: vec![MediaSource {
            path: "/movie.mkv".to_string(),
            transcoding_url: Some("/videos/123/master.m3u8?Id=test&MediaSourceId=test&VideoCodec=h264&AudioCodec=aac&AudioStreamIndex=1&PlaySessionId=abcdef123".to_string()),
            ..Default::default()
        }],
        ..Default::default()
    };
    mutate_playback_info_response(None, &mut resp).unwrap();
    let media_source = &resp.media_sources[0];
    assert_eq!(
        media_source.transcoding_url.as_deref(),
        Some("/proxymedia/movie.mkv.as.m3u8?codecs=h264,aac&stream_id=abcdef123&tracks=0,1&interleave=true")
    );
}

const AUTHORIZATION: &str = "MediaBrowser Client=\"x\", DeviceId=\"dev\", Version=\"1\"";

#[test]
fn a_response_gets_the_id_of_item_and_device() {
    let source = |id: &str| MediaSource {
        id: id.to_string(),
        path: "a b/ü.mkv".to_string(),
        transcoding_url: Some("http://h/x?AudioCodec=aac".to_string()),
        direct_stream_url: Some("/v/x.m3u8?SubtitleStreamIndex=4".to_string()),
        ..Default::default()
    };
    let mut resp = PlaybackInfoResponse {
        media_sources: vec![source("item"), source("other")],
        play_session_id: Some("old".to_string()),
    };
    mutate_playback_info_response(Some(AUTHORIZATION), &mut resp).unwrap();
    // The first half of the SHA-256 digest of "devitem".
    let id = "84664fb5f8e00fc7561fcd43c2f8769f";
    assert_eq!(resp.play_session_id.as_deref(), Some(id));
    assert_eq!(calculate_stream_id(Some(AUTHORIZATION), "item").as_deref(), Some(id));
    for source in &resp.media_sources {
        assert_eq!(
            source.transcoding_url.clone().unwrap(),
            format!("/proxymedia/a%20b/%C3%BC.mkv.as.m3u8?codecs=aac&stream_id={}&tracks=0&interleave=true", id)
        );
        assert_eq!(
            source.direct_stream_url.clone().unwrap(),
            format!("/proxymedia/a%20b/%C3%BC.mkv.as.m3u8?stream_id={}&tracks=0,4&interleave=true", id)
        );
        assert_eq!(source.transcoding_sub_protocol.as_deref(), Some("hls"));
        assert_eq!(source.transcoding_container.as_deref(), Some("mp4"));
    }
}

#[test]
fn a_response_without_hls_keeps_its_urls() {
    let mut resp = PlaybackInfoResponse {
        media_sources: vec![MediaSource {
            direct_stream_url: Some("/v/x.mp4".to_string()),
            ..Default::default()
        }],
        play_session_id: Some("old".to_string()),
    };
    mutate_playback_info_response(None, &mut resp).unwrap();
    assert_eq!(resp.media_sources[0].direct_stream_url.as_deref(), Some("/v/x.mp4"));
    assert_eq!(resp.play_session_id.as_deref(), Some("old"));
    let mut resp = PlaybackInfoResponse::default();
    mutate_playback_info_response(Some(AUTHORIZATION), &mut resp).unwrap();
    assert_eq!(resp.play_session_id, None);
}

#[test]
fn what_cannot_be_read_is_a_bad_request() {
    let mut resp = PlaybackInfoResponse {
        media_sources: vec![MediaSource {
            transcoding_url: Some("not a url".to_string()),
            ..Default::default()
        }],
        ..Default::default()
    };
    assert_eq!(mutate_playback_info_response(None, &mut resp), Err(BadRequest));
    assert!(read_parameters("/x?Id=1&Id=2").is_err());
    assert!(read_parameters("/x?Unknown=1&Unknown=2").is_ok());
}

#[test]
fn sources_in_front_of_a_failure_are_rewritten() {
    let source = |transcoding: &str, direct: Option<&str>| MediaSource {
        path: "/m/a.mp4".to_string(),
        transcoding_url: Some(transcoding.to_string()),
        direct_stream_url: direct.map(|s| s.to_string()),
        ..Default::default()
    };
    let mut resp = PlaybackInfoResponse {
        media_sources: vec![
            source("/x?AudioCodec=aac", None),
            source("/x?AudioCodec=aac", Some("/x.m3u8?Id=1&Id=2")),
            source("/x?AudioCodec=aac", None),
        ],
        play_session_id: Some("old".to_string()),
    };
    assert_eq!(mutate_playback_info_response(None, &mut resp), Err(BadRequest));
    let [first, second, third] = &resp.media_sources[..] else { panic!() };
    assert_eq!(first.transcoding_container.as_deref(), Some("mp4"));
    assert_ne!(first.transcoding_url.as_deref(), Some("/x?AudioCodec=aac"));
    assert_eq!(second.transcoding_url, first.transcoding_url);
    assert_eq!(second.transcoding_container.as_deref(), Some("mp4"));
    assert_eq!(second.direct_stream_url.as_deref(), Some("/x.m3u8?Id=1&Id=2"));
    assert_eq!(third.transcoding_url.as_deref(), Some("/x?AudioCodec=aac"));
    assert_eq!(third.transcoding_container, None);
    assert_eq!(resp.play_session_id.as_deref(), Some("old"));
}

#[test]
fn parameters_are_read_by_their_keys() {
    let p = read_parameters(
        "/x?VideoCodec=h264%2Ch265&h264-videobitdepth=8&RequireAvc=true&av1-level=&EnableAudioVbrEncoding=1&Tag=a+b",
    )
    .unwrap();
    assert_eq!(p.video_codec.as_deref(), Some("h264,h265"));
    assert_eq!(p.h264_bit_depth.as_deref(), Some("8"));
    assert_eq!(p.require_avc.as_deref(), Some("true"));
    assert_eq!(p.av1_level.as_deref(), Some(""));
    assert_eq!(p.enable_audio_vbr_encoding.as_deref(), Some("1"));
    assert_eq!(p.tag.as_deref(), Some("a b"));
    assert_eq!(p.id, None);
    assert!(HlsTranscodingParameters::from_pairs(&vec![
        ("Tag".to_string(), "x".to_string()),
        ("Tag".to_string(), "y".to_string())
    ])
    .is_none());
}

#[test]
fn urls_are_rewritten() {
    let p = HlsTranscodingParameters {
        play_session_id: Some("a/b".to_string()),
        subtitle_stream_index: Some("-1".to_string()),
        video_codec: Some("h264".to_string()),
        ..Default::default()
    };
    assert_eq!(
        make_proxied_url(&p, "/base", &None, false),
        "/base?stream_id=a%2Fb&tracks=0,-1&interleave=true"
    );
    assert_eq!(
        make_proxied_url(&p, "/base", &Some("id".to_string()), true),
        "/base?codecs=h264&stream_id=id&tracks=0,-1&interleave=true"
    );
    assert_eq!(
        rewrite_hls_url("/x.m3u8?AudioStreamIndex=2#frag", "/b", &None, true),
        Ok("/b?tracks=0,2&interleave=true".to_string())
    );
    assert_eq!(make_base_url("//m/a+b~c.mkv"), "/proxymedia/m/a%2Bb~c.mkv.as.m3u8");
    assert_eq!(make_base_url(""), "/proxymedia/.as.m3u8");
}

#[test]
fn devices_are_found_in_the_header() {
    assert_eq!(find_device_id(AUTHORIZATION).as_deref(), Some("dev"));
    assert_eq!(find_device_id("DeviceId=\"\" DeviceId=\"b").as_deref(), Some("b"));
    assert_eq!(find_device_id("DeviceId=\""), None);
    assert_eq!(find_device_id("deviceid=\"x\""), None);
    assert_eq!(calculate_stream_id(None, "item"), None);
    assert_eq!(calculate_stream_id(Some("x"), "item"), None);
    // SHA-256 of "abc", split over device and item.
    assert_eq!(
        calculate_stream_id(Some("DeviceId=\"a\""), "bc").as_deref(),
        Some("ba7816bf8f01cfea414140de5dae2223")
    );
    let digest: Vec<u8> = (0..32).map(|i| i * 8).collect();
    assert_eq!(short_digest(&digest), "00081018202830384048505860687078");
}

#[test]
fn headers_are_passed_on() {
    assert!(!forwards_request_header("content-length"));
    assert!(!forwards_request_header("accept-encoding"));
    assert!(forwards_request_header("authorization"));
    for name in ["content-length", "content-encoding", "transfer-encoding", "connection"] {
        assert!(!forwards_response_header(name));
    }
    assert!(forwards_response_header("content-type"));
    assert!(changes_response(Some("application/json; charset=utf-8"), true));
    assert!(!changes_response(Some("application/json"), false));
    assert!(!changes_response(Some("text/html"), true));
    assert!(!changes_response(None, true));
    assert_eq!(upstream_url("http://h:1", "/a?b"), "http://h:1/a?b");
    assert_eq!(upstream_socket_url("http://h:1", "/socket?k=v"), "ws://h:1/socket?k=v");
    assert_eq!(upstream_socket_url("https://h", "/socket"), "wss://h/socket");
    assert_eq!(upstream_socket_url("h", "/socket"), "h/socket");
}

#[test]
fn media_requests_are_read() {
    let r = read_media_request("Users/x/film.mp4/s1/t.0.m3u8", None, "").unwrap().unwrap();
    assert_eq!(r.media_path, "/Users/x/film.mp4");
    assert_eq!(r.params.session_id.as_deref(), Some("s1"));
    let r = read_media_request("/film.mp4.as.m3u8", Some("id"), "/media").unwrap().unwrap();
    assert_eq!(r.media_path, "/media/film.mp4");
    assert_eq!(r.params.session_id.as_deref(), Some("id"));
    assert!(matches!(r.params.url_type, UrlType::MainPlaylist));
    assert!(read_media_request("film.txt", None, "").unwrap().is_none());
    let big = format!("film.mp4/s/t.{}0.m3u8", usize::MAX);
    assert!(read_media_request(&big, None, "").is_err());
    assert_eq!(make_media_path("//a/b.mp4", "/root/"), "/root/a/b.mp4");
}

#[test]
fn queries_set_a_playlist_up() {
    let index = Arc::new(StreamIndex::new("/f.mp4".to_string()));
    let make = || MainPlaylist::new(HlsParams::parse("/f.mp4.as.m3u8").unwrap(), index.clone());
    let mut p = make();
    apply_query(&mut p, Some(" aac, ac3\t"), Some("0,x,+2,,99999999999999999999"), Some("true"));
    assert_eq!(p.codecs, vec!["aac".to_string(), "ac3".to_string()]);
    let mut tracks: Vec<usize> = p.tracks.iter().copied().collect();
    tracks.sort();
    assert_eq!(tracks, vec![0, 2]);
    assert!(p.interleave);
    let mut p = make();
    p.enable_tracks(&[7]);
    apply_query(&mut p, None, Some(""), Some("True"));
    assert!(p.codecs.is_empty());
    assert!(p.tracks.contains(&7));
    assert!(!p.interleave);
    apply_query(&mut p, Some(""), None, None);
    assert_eq!(p.codecs, vec![String::new()]);
}

#[test]
fn test_ends_playback() {
    assert!(ends_playback("DELETE", "/Videos/ActiveEncodings"));
    assert!(!ends_playback("GET", "/Videos/ActiveEncodings"));
    assert!(!ends_playback("DELETE", "/Videos/ActiveEncodings/1"));
}
