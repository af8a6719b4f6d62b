use hls_vod::cache::{SegmentCache, SegmentCacheConfig};
use hls_vod::config_file::{ConfigFile, LoggingSettings};
use hls_vod::ffmpeg_utils::{is_suppressed, version_info};
use hls_vod::media::StreamIndex;
use hls_vod::numbers::{
    number_to_string, parse_i32, parse_u16, parse_usize, string_or_number, NotANumber,
    StringOrNumber,
};
use hls_vod::proxy::config::{
    listen_on_port, parse_rawaddr, Config, ConfigError, Listen, ListenAddr, RawAddr,
};
use hls_vod::registry::StreamRegistry;
use bytes::Bytes;

#[test]
fn test_default_config() {
    let config = ConfigFile::default_config();
    assert_eq!(config.server.port, 3000);
    assert_eq!(config.cache.max_memory_mb, 512);
    assert_eq!(config.segment.target_duration_us, 4_000_000);
}

#[test]
fn test_into_server_config() {
    let config_file = ConfigFile::default_config();
    let server_config = config_file.into_server_config();

    assert_eq!(server_config.port, 3000);
    assert_eq!(server_config.cache.max_memory_mb, 512);
    assert_eq!(server_config.segment.target_duration_us, 4_000_000);
}

#[test]
fn what_is_not_set_has_a_default() {
    let mut file = ConfigFile::default_config();
    file.server.cors_enabled = None;
    file.segment.min_duration_us = None;
    file.segment.max_duration_us = None;
    file.audio.enable_transcoding = None;
    file.logging = None;
    file.limits = None;
    let config = file.clone().into_server_config();
    assert!(config.cors_enabled);
    assert_eq!(config.segment.min_duration_us, 3_000_000);
    assert_eq!(config.segment.max_duration_us, 6_000_000);
    assert!(config.audio.enable_transcoding);
    assert_eq!(config.log_level, "info");
    assert_eq!(config.max_concurrent_streams, None);
    assert_eq!(config.cache.lookahead, 0);
    file.logging = Some(LoggingSettings { level: "debug".to_string(), format: None });
    assert_eq!(file.into_server_config().log_level, "debug");
}

#[test]
fn a_configuration_is_checked() {
    let mut config = Config::empty_config();
    assert_eq!(config.check(), Ok(()));
    assert_eq!(config.jellyfin.jellyfin, "http://localhost:8096");
    config.server.enable_http = false;
    assert_eq!(config.check(), Err(ConfigError::NothingEnabled));
    config.server.enable_https = true;
    config.server.tls_cert = "cert".to_string();
    assert_eq!(config.check(), Err(ConfigError::NoCertificate));
    config.server.tls_key = "key".to_string();
    assert_eq!(config.check(), Ok(()));
    assert_eq!(
        ConfigError::NothingEnabled.message(),
        "at least one of enable_http or enable_https must be set to true"
    );
    assert_eq!(ConfigError::NoCertificate.message(), "tls_cert and tls_key must be set");
}

#[test]
fn the_command_line_overrides() {
    let mut config = Config::empty_config();
    config.server.enable_https = true;
    config.apply_args(Some("http://j".to_string()), None, Some(81));
    assert_eq!(config.jellyfin.jellyfin, "http://j");
    assert_eq!(config.jellyfin.mediaroot, None);
    assert_eq!(config.server.http_listen, listen_on_port(81));
    assert!(!config.server.enable_https);
    config.apply_args(None, Some("/m".to_string()), None);
    assert_eq!(config.jellyfin.mediaroot.as_deref(), Some("/m"));
    let (http, https) = config.listeners();
    assert_eq!((http.len(), https.len()), (2, 0));
}

#[test]
fn ports_are_listened_on() {
    let mut config = Config::empty_config();
    config.server.enable_http = false;
    config.server.tls_cert = "c".to_string();
    config.server.tls_key = "k".to_string();
    config.apply_listen_ports(Some(8064), Some(443));
    assert_eq!(config.listeners(), (listen_on_port(8064), listen_on_port(443)));
    assert!(config.check().is_ok());
    config.apply_listen_ports(None, None);
    assert_eq!(config.listeners(), (listen_on_port(8064), listen_on_port(443)));
}

#[test]
fn addresses_are_read() {
    let known = |l: Listen| match l {
        Listen::Known(addrs) => addrs,
        Listen::Text(t) => panic!("{}", t),
    };
    let text = |s: &str| match parse_rawaddr(RawAddr::Full(s.to_string())) {
        Listen::Known(addrs) => panic!("{:?}", addrs),
        Listen::Text(t) => t,
    };
    assert_eq!(
        known(parse_rawaddr(RawAddr::Port(80))),
        vec![
            ListenAddr::V4 { a: 0, b: 0, c: 0, d: 0, port: 80 },
            ListenAddr::V6 { bits: 0, port: 80 }
        ]
    );
    assert_eq!(known(parse_rawaddr(RawAddr::Full("8080".to_string()))), listen_on_port(8080));
    assert_eq!(text("*:99"), "0.0.0.0:99");
    assert_eq!(text("[::1]:99"), "[::1]:99");
    assert_eq!(text("65536"), "65536");
}

#[test]
fn numbers_are_read_and_written() {
    assert_eq!(parse_usize("+007"), Some(7));
    for s in ["", "+", "-1", "1 ", "1e3", "٣"] {
        assert_eq!(parse_usize(s), s.parse::<usize>().ok());
    }
    assert_eq!(parse_u16("65535"), Some(65535));
    assert_eq!(parse_u16("65536"), None);
    for s in ["-2147483648", "-2147483649", "2147483647", "2147483648", "-", "+5", "--1", "-0"] {
        assert_eq!(parse_i32(s), s.parse::<i32>().ok());
    }
    assert_eq!(string_or_number(None), Ok(None));
    assert_eq!(string_or_number(Some(StringOrNumber::Number(3))), Ok(Some(3)));
    let field = |s: &str| string_or_number(Some(StringOrNumber::Text(s.to_string())));
    assert_eq!(field(""), Ok(None));
    assert_eq!(field("-12"), Ok(Some(-12)));
    assert_eq!(field("x"), Err(NotANumber));
    assert_eq!(number_to_string(Some(i32::MIN)), "-2147483648");
    assert_eq!(number_to_string(Some(0)), "0");
    assert_eq!(number_to_string(None), "0");
}

#[test]
fn expected_messages_are_suppressed() {
    assert_eq!(version_info(), "FFmpeg 8.0+");
    assert!(is_suppressed("[mp4] Track 1 starts with a nonzero dts 512\n"));
    assert!(is_suppressed("Error parsing Opus packet header."));
    assert!(!is_suppressed("Error parsing packet header."));
}

fn open(registry: &mut StreamRegistry, id: &str, last_accessed: u64) {
    let mut index = StreamIndex::new(format!("/{}.mp4", id));
    index.last_accessed = last_accessed;
    index.duration_us = 5;
    let media = registry.register(index, Some(id.to_string()));
    assert_eq!(media.stream_id, id);
}

#[test]
fn open_files_are_found_again() {
    let mut registry = StreamRegistry::new();
    let own = registry.register(StreamIndex::new("/own.mp4".to_string()), None);
    open(&mut registry, "a", 0);
    assert!(registry.get_stream_by_id("b").is_none());
    assert_eq!(registry.get_stream_by_id("a").unwrap().source_path, "/a.mp4");
    assert_eq!(registry.get_stream_by_id(&own.stream_id).unwrap().source_path, "/own.mp4");
    let mut paths: Vec<(String, u64)> =
        registry.active_streams().into_iter().map(|s| (s.path, s.duration_us)).collect();
    paths.sort();
    assert_eq!(paths, vec![("/a.mp4".to_string(), 5), ("/own.mp4".to_string(), 0)]);
    assert!(registry.touch("b", 1).is_none());
}

#[test]
fn idle_files_are_closed() {
    let mut registry = StreamRegistry::new();
    let mut cache = Some(SegmentCache::new(SegmentCacheConfig::default()));
    for id in ["a", "b", "c"] {
        open(&mut registry, id, 100);
        cache.as_mut().unwrap().insert(id, "v", Bytes::from("x"));
    }
    assert!(registry.touch("b", 101).is_some());
    assert_eq!(registry.cleanup_expired_streams(&mut cache, 700), 0);
    assert_eq!(registry.cleanup_expired_streams(&mut cache, 701), 2);
    assert!(registry.get_stream_by_id("a").is_none());
    assert!(registry.get_stream_by_id("b").is_some());
    let c = cache.as_ref().unwrap();
    assert!(!c.contains("a", "v") && c.contains("b", "v") && !c.contains("c", "v"));
    assert!(registry.remove_stream_by_id(&mut cache, "b"));
    assert!(!registry.remove_stream_by_id(&mut cache, "b"));
    assert!(cache.unwrap().is_empty());
    assert_eq!(registry.cleanup_expired_streams(&mut None, 9_999), 0);
}
