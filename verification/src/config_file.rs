//! The configuration file of the server.

use vstd::prelude::*;
use crate::cache::SegmentCacheConfig;

verus! {

/// What a configuration file holds.
#[derive(Debug, Clone)]
pub struct ConfigFile {
    pub server: ServerSettings,
    pub cache: CacheSettings,
    pub segment: SegmentSettings,
    pub audio: AudioSettings,
    pub logging: Option<LoggingSettings>,
    pub limits: Option<LimitsSettings>,
}

#[derive(Debug, Clone)]
pub struct ServerSettings {
    /// The address to listen on.
    pub host: String,
    pub port: u16,
    pub cors_enabled: Option<bool>,
}

#[derive(Debug, Clone, Copy)]
pub struct CacheSettings {
    pub max_memory_mb: usize,
    pub max_segments: usize,
    pub ttl_secs: u64,
}

/// Lengths of segments, in microseconds.
#[derive(Debug, Clone, Copy)]
pub struct SegmentSettings {
    pub target_duration_us: u64,
    pub min_duration_us: Option<u64>,
    pub max_duration_us: Option<u64>,
}

#[derive(Debug, Clone, Copy)]
pub struct AudioSettings {
    /// The sample rate of transcoded audio.
    pub target_sample_rate: u32,
    /// The bit rate of transcoded audio.
    pub aac_bitrate: u64,
    pub enable_transcoding: Option<bool>,
}

#[derive(Debug, Clone)]
pub struct LoggingSettings {
    /// One of `trace`, `debug`, `info`, `warn` and `error`.
    pub level: String,
    /// One of `json` and `pretty`.
    pub format: Option<String>,
}

#[derive(Debug, Clone, Copy)]
pub struct LimitsSettings {
    pub max_concurrent_streams: Option<usize>,
    /// Requests per second.
    pub rate_limit_rps: Option<u32>,
    pub max_request_size_mb: Option<usize>,
}

/// How the server runs.
#[derive(Debug, Clone)]
pub struct ServerConfig {
    pub host: String,
    pub port: u16,
    pub cache: SegmentCacheConfig,
    pub segment: SegmentConfig,
    pub audio: AudioConfig,
    pub cors_enabled: bool,
    pub log_level: String,
    pub max_concurrent_streams: Option<usize>,
    pub rate_limit_rps: Option<u32>,
}

/// Lengths of segments, in microseconds.
#[derive(Debug, Clone, Copy)]
pub struct SegmentConfig {
    pub target_duration_us: u64,
    pub min_duration_us: u64,
    pub max_duration_us: u64,
}

#[derive(Debug, Clone, Copy)]
pub struct AudioConfig {
    pub target_sample_rate: u32,
    pub aac_bitrate: u64,
    pub enable_transcoding: bool,
}

/// The value that is set, or else the default.
pub open spec fn set_or<T>(value: Option<T>, default: T) -> T {
    match value {
        Some(v) => v,
        None => default,
    }
}

/// How the server runs under a configuration file.
pub open spec fn is_config_of(c: ServerConfig, f: ConfigFile) -> bool {
    &&& c.host@ == f.server.host@
    &&& c.port == f.server.port
    &&& c.cache == (SegmentCacheConfig {
        max_memory_mb: f.cache.max_memory_mb,
        max_segments: f.cache.max_segments,
        ttl_secs: f.cache.ttl_secs,
        lookahead: 0,
    })
    &&& c.segment == (SegmentConfig {
        target_duration_us: f.segment.target_duration_us,
        min_duration_us: set_or(f.segment.min_duration_us, 3_000_000),
        max_duration_us: set_or(f.segment.max_duration_us, 6_000_000),
    })
    &&& c.audio == (AudioConfig {
        target_sample_rate: f.audio.target_sample_rate,
        aac_bitrate: f.audio.aac_bitrate,
        enable_transcoding: set_or(f.audio.enable_transcoding, true),
    })
    &&& c.cors_enabled == set_or(f.server.cors_enabled, true)
    &&& c.log_level@ == match f.logging {
        Some(l) => l.level@,
        None => "info"@,
    }
    &&& c.max_concurrent_streams == match f.limits {
        Some(l) => l.max_concurrent_streams,
        None => None,
    }
    &&& c.rate_limit_rps == match f.limits {
        Some(l) => l.rate_limit_rps,
        None => None,
    }
}

/// A configuration file with the default settings.
pub open spec fn is_default_config(f: ConfigFile) -> bool {
    &&& f.server.host@ == "0.0.0.0"@
    &&& f.server.port == 3000
    &&& f.server.cors_enabled == Some(true)
    &&& f.cache == (CacheSettings { max_memory_mb: 512, max_segments: 100, ttl_secs: 300 })
    &&& f.segment == (SegmentSettings {
        target_duration_us: 4_000_000,
        min_duration_us: Some(3_000_000),
        max_duration_us: Some(6_000_000),
    })
    &&& f.audio == (AudioSettings {
        target_sample_rate: 48000,
        aac_bitrate: 128000,
        enable_transcoding: Some(true),
    })
    &&& f.logging matches Some(l) && l.level@ == "info"@ && (l.format matches Some(p) && p@
        == "pretty"@)
    &&& f.limits == Some(
        LimitsSettings {
            max_concurrent_streams: Some(100),
            rate_limit_rps: Some(100),
            max_request_size_mb: Some(10),
        },
    )
}

impl ConfigFile {
    /// The default settings.
    pub fn default_config() -> (f: Self)
        ensures
            is_default_config(f),
    {
        ConfigFile {
            server: ServerSettings {
                host: "0.0.0.0".to_owned(),
                port: 3000,
                cors_enabled: Some(true),
            },
            cache: CacheSettings { max_memory_mb: 512, max_segments: 100, ttl_secs: 300 },
            segment: SegmentSettings {
                target_duration_us: 4_000_000,
                min_duration_us: Some(3_000_000),
                max_duration_us: Some(6_000_000),
            },
            audio: AudioSettings {
                target_sample_rate: 48000,
                aac_bitrate: 128000,
                enable_transcoding: Some(true),
            },
            logging: Some(
                LoggingSettings { level: "info".to_owned(), format: Some("pretty".to_owned()) },
            ),
            limits: Some(
                LimitsSettings {
                    max_concurrent_streams: Some(100),
                    rate_limit_rps: Some(100),
                    max_request_size_mb: Some(10),
                },
            ),
        }
    }

    /// How the server runs under the file.
    pub fn into_server_config(self) -> (c: ServerConfig)
        ensures
            is_config_of(c, self),
    {
        let (max_concurrent_streams, rate_limit_rps): (Option<usize>, Option<u32>) =
            match &self.limits {
            Some(l) => (l.max_concurrent_streams, l.rate_limit_rps),
            None => (None, None),
        };
        ServerConfig {
            host: self.server.host,
            port: self.server.port,
            cache: SegmentCacheConfig {
                max_memory_mb: self.cache.max_memory_mb,
                max_segments: self.cache.max_segments,
                ttl_secs: self.cache.ttl_secs,
                lookahead: 0,
            },
            segment: SegmentConfig {
                target_duration_us: self.segment.target_duration_us,
                min_duration_us: self.segment.min_duration_us.unwrap_or(3_000_000),
                max_duration_us: self.segment.max_duration_us.unwrap_or(6_000_000),
            },
            audio: AudioConfig {
                target_sample_rate: self.audio.target_sample_rate,
                aac_bitrate: self.audio.aac_bitrate,
                enable_transcoding: self.audio.enable_transcoding.unwrap_or(true),
            },
            cors_enabled: self.server.cors_enabled.unwrap_or(true),
            log_level: match self.logging {
                Some(l) => l.level,
                None => "info".to_owned(),
            },
            max_concurrent_streams,
            rate_limit_rps,
        }
    }
}

/// What is set in the file is what the server is run with; what is left out there, and only that,
/// is filled in: segments of three to six seconds, transcoding and cross-origin requests allowed,
/// and messages from `info` on.
pub proof fn law_settings_are_taken(c: ServerConfig, f: ConfigFile)
    requires
        is_config_of(c, f),
    ensures
        c.host@ == f.server.host@ && c.port == f.server.port,
        c.cache.max_memory_mb == f.cache.max_memory_mb,
        c.cache.max_segments == f.cache.max_segments,
        c.cache.ttl_secs == f.cache.ttl_secs,
        c.segment.target_duration_us == f.segment.target_duration_us,
        f.segment.min_duration_us is Some ==> f.segment.min_duration_us == Some(
            c.segment.min_duration_us,
        ),
        f.segment.min_duration_us is None ==> c.segment.min_duration_us == 3_000_000,
        f.segment.max_duration_us is Some ==> f.segment.max_duration_us == Some(
            c.segment.max_duration_us,
        ),
        f.segment.max_duration_us is None ==> c.segment.max_duration_us == 6_000_000,
        c.audio.target_sample_rate == f.audio.target_sample_rate,
        c.audio.aac_bitrate == f.audio.aac_bitrate,
        c.audio.enable_transcoding == (f.audio.enable_transcoding != Some(false)),
        c.cors_enabled == (f.server.cors_enabled != Some(false)),
        f.logging is Some ==> c.log_level@ == f.logging->Some_0.level@,
        f.logging is None ==> c.log_level@ == "info"@,
        f.limits is Some ==> c.max_concurrent_streams == f.limits->Some_0.max_concurrent_streams
            && c.rate_limit_rps == f.limits->Some_0.rate_limit_rps,
        f.limits is None ==> c.max_concurrent_streams is None && c.rate_limit_rps is None,
{
}

} // verus!
