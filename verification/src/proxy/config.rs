//! The configuration of the proxy.

use vstd::prelude::*;
use crate::cache::SegmentCacheConfig;
use crate::numbers::{parse_u16, unsigned_value};
use crate::text::{chars_of, is_at, occurs_at, text_of};

verus! {

/// An address to listen on.
#[derive(Debug, Clone, Copy, PartialEq, Eq, Structural)]
pub enum ListenAddr {
    V4 { a: u8, b: u8, c: u8, d: u8, port: u16 },
    V6 { bits: u128, port: u16 },
}

/// Both unspecified addresses, with a port.
pub open spec fn on_port(port: u16) -> Seq<ListenAddr> {
    seq![ListenAddr::V4 { a: 0, b: 0, c: 0, d: 0, port }, ListenAddr::V6 { bits: 0, port }]
}

/// Listens on a port, on all addresses.
pub fn listen_on_port(port: u16) -> (addrs: Vec<ListenAddr>)
    ensures
        addrs@ == on_port(port),
{
    let addrs: Vec<ListenAddr> = vec![
        ListenAddr::V4 { a: 0, b: 0, c: 0, d: 0, port },
        ListenAddr::V6 { bits: 0, port },
    ];
    assert(addrs@ =~= on_port(port));
    addrs
}

/// Where HTTP is listened for, if nothing else is set.
pub fn default_http() -> (addrs: Vec<ListenAddr>)
    ensures
        addrs@ == on_port(80),
{
    listen_on_port(80)
}

/// Where HTTPS is listened for, if nothing else is set.
pub fn default_https() -> (addrs: Vec<ListenAddr>)
    ensures
        addrs@ == on_port(443),
{
    listen_on_port(443)
}

#[derive(Debug, Clone)]
pub struct Config {
    pub server: ServerConfig,
    pub jellyfin: JellyfinConfig,
    pub safari: SafariConfig,
    pub cache: SegmentCacheConfig,
}

#[derive(Debug, Clone)]
pub struct ServerConfig {
    pub enable_http: bool,
    pub enable_https: bool,
    pub http_listen: Vec<ListenAddr>,
    pub https_listen: Vec<ListenAddr>,
    /// The path of the certificate.
    pub tls_cert: String,
    /// The path of the key.
    pub tls_key: String,
}

#[derive(Debug, Clone, Copy)]
pub struct SafariConfig {
    /// Whether Safari is to play nothing as it is.
    pub force_transcoding: bool,
}

#[derive(Debug, Clone)]
pub struct JellyfinConfig {
    /// The URL of the media server.
    pub jellyfin: String,
    /// The directory that the media files are in.
    pub mediaroot: Option<String>,
}

/// What is wrong with a configuration.
#[derive(Debug, Clone, Copy, PartialEq, Eq, Structural)]
pub enum ConfigError {
    /// Neither HTTP nor HTTPS is enabled.
    NothingEnabled,
    /// HTTPS is enabled without a certificate or a key.
    NoCertificate,
}

/// What is wrong with a configuration, if anything is.
pub open spec fn problem_of(c: Config) -> Option<ConfigError> {
    if !c.server.enable_http && !c.server.enable_https {
        Some(ConfigError::NothingEnabled)
    } else if c.server.enable_https && (c.server.tls_cert@.len() == 0 || c.server.tls_key@.len()
        == 0) {
        Some(ConfigError::NoCertificate)
    } else {
        None
    }
}

impl ConfigError {
    /// The error for people to read.
    pub fn message(&self) -> (text: &'static str)
        ensures
            text@ == match *self {
                ConfigError::NothingEnabled =>
                "at least one of enable_http or enable_https must be set to true"@,
                ConfigError::NoCertificate => "tls_cert and tls_key must be set"@,
            },
    {
        match self {
            ConfigError::NothingEnabled =>
            "at least one of enable_http or enable_https must be set to true",
            ConfigError::NoCertificate => "tls_cert and tls_key must be set",
        }
    }
}

impl Config {
    /// Checks that there is something to listen with.
    pub fn check(&self) -> (r: Result<(), ConfigError>)
        ensures
            match problem_of(*self) {
                Some(e) => r == Err::<(), ConfigError>(e),
                None => r is Ok,
            },
    {
        if !self.server.enable_http && !self.server.enable_https {
            return Err(ConfigError::NothingEnabled);
        }
        if self.server.enable_https && (self.server.tls_cert.as_str().is_empty()
            || self.server.tls_key.as_str().is_empty()) {
            return Err(ConfigError::NoCertificate);
        }
        Ok(())
    }

    /// The configuration without a file: HTTP on port 8097, for a media server on the same
    /// machine.
    pub fn empty_config() -> (c: Self)
        ensures
            c.server.enable_http,
            !c.server.enable_https,
            c.server.http_listen@ == on_port(8097),
            c.server.https_listen@.len() == 0,
            c.server.tls_cert@.len() == 0,
            c.server.tls_key@.len() == 0,
            c.jellyfin.jellyfin@ == "http://localhost:8096"@,
            c.jellyfin.mediaroot is None,
            !c.safari.force_transcoding,
            c.cache == (SegmentCacheConfig {
                max_memory_mb: 512,
                max_segments: 100,
                ttl_secs: 300,
                lookahead: 0,
            }),
            problem_of(c) is None,
    {
        Config {
            server: ServerConfig {
                enable_http: true,
                enable_https: false,
                http_listen: listen_on_port(8097),
                https_listen: Vec::new(),
                tls_cert: String::new(),
                tls_key: String::new(),
            },
            jellyfin: JellyfinConfig {
                jellyfin: "http://localhost:8096".to_owned(),
                mediaroot: None,
            },
            safari: SafariConfig { force_transcoding: false },
            cache: SegmentCacheConfig::default(),
        }
    }

    /// Listens on ports that are given as numbers. A port for HTTP or HTTPS enables it, on that
    /// port alone.
    pub fn apply_listen_ports(&mut self, http_port: Option<u16>, https_port: Option<u16>)
        ensures
            final(self).server == (ServerConfig {
                enable_http: old(self).server.enable_http || http_port is Some,
                enable_https: old(self).server.enable_https || https_port is Some,
                http_listen: final(self).server.http_listen,
                https_listen: final(self).server.https_listen,
                ..old(self).server
            }),
            match http_port {
                Some(p) => final(self).server.http_listen@ == on_port(p),
                None => final(self).server.http_listen == old(self).server.http_listen,
            },
            match https_port {
                Some(p) => final(self).server.https_listen@ == on_port(p),
                None => final(self).server.https_listen == old(self).server.https_listen,
            },
            final(self).jellyfin == old(self).jellyfin,
            final(self).safari == old(self).safari,
            final(self).cache == old(self).cache,
    {
        if let Some(p) = http_port {
            self.server.enable_http = true;
            self.server.http_listen = listen_on_port(p);
        }
        if let Some(p) = https_port {
            self.server.enable_https = true;
            self.server.https_listen = listen_on_port(p);
        }
    }

    /// Lets the command line override the configuration. A port makes it HTTP on that port
    /// alone.
    pub fn apply_args(
        &mut self,
        jellyfin_url: Option<String>,
        mediaroot: Option<String>,
        port: Option<u16>,
    )
        ensures
            final(self).jellyfin.jellyfin == match jellyfin_url {
                Some(url) => url,
                None => old(self).jellyfin.jellyfin,
            },
            final(self).jellyfin.mediaroot == match mediaroot {
                Some(root) => Some(root),
                None => old(self).jellyfin.mediaroot,
            },
            match port {
                Some(p) => {
                    &&& final(self).server.enable_http
                    &&& !final(self).server.enable_https
                    &&& final(self).server.http_listen@ == on_port(p)
                    &&& final(self).server == (ServerConfig {
                        enable_http: true,
                        enable_https: false,
                        http_listen: final(self).server.http_listen,
                        ..old(self).server
                    })
                },
                None => final(self).server == old(self).server,
            },
            final(self).safari == old(self).safari,
            final(self).cache == old(self).cache,
            port is Some || problem_of(*old(self)) is None ==> problem_of(*final(self)) is None,
    {
        if let Some(url) = jellyfin_url {
            self.jellyfin.jellyfin = url;
        }
        if let Some(root) = mediaroot {
            self.jellyfin.mediaroot = Some(root);
        }
        if let Some(p) = port {
            self.server.enable_http = true;
            self.server.enable_https = false;
            self.server.http_listen = listen_on_port(p);
        }
    }

    /// The addresses to listen on, for HTTP and for HTTPS.
    pub fn listeners(&self) -> (l: (Vec<ListenAddr>, Vec<ListenAddr>))
        ensures
            l.0@ == if self.server.enable_http {
                self.server.http_listen@
            } else {
                Seq::empty()
            },
            l.1@ == if self.server.enable_https {
                self.server.https_listen@
            } else {
                Seq::empty()
            },
    {
        let http: Vec<ListenAddr> = if self.server.enable_http {
            copy_addrs(&self.server.http_listen)
        } else {
            Vec::new()
        };
        let https: Vec<ListenAddr> = if self.server.enable_https {
            copy_addrs(&self.server.https_listen)
        } else {
            Vec::new()
        };
        (http, https)
    }
}

fn copy_addrs(list: &Vec<ListenAddr>) -> (out: Vec<ListenAddr>)
    ensures
        out@ == list@,
{
    let mut out: Vec<ListenAddr> = Vec::new();
    let mut i: usize = 0;
    while i < list.len()
        invariant
            i <= list@.len(),
            out@ == list@.take(i as int),
        decreases list.len() - i,
    {
        out.push(list[i]);
        assert(list@.take(i + 1) =~= list@.take(i as int).push(list@[i as int]));
        i += 1;
    }
    assert(list@.take(list@.len() as int) =~= list@);
    out
}

/// An address in a configuration file.
#[derive(Debug, Clone)]
pub enum RawAddr {
    Port(u16),
    Full(String),
}

/// An address that was looked at: known, or a text that is still to be read as a socket
/// address.
#[derive(Debug, Clone)]
pub enum Listen {
    Known(Vec<ListenAddr>),
    Text(String),
}

/// What an address in a configuration file stands for: a port alone for all addresses, and
/// `*:<port>` for all IPv4 addresses.
pub open spec fn is_listen_of(l: Listen, raw: RawAddr) -> bool {
    match raw {
        RawAddr::Port(p) => l matches Listen::Known(addrs) && addrs@ == on_port(p),
        RawAddr::Full(s) => match unsigned_value(s@) {
            Some(p) if p <= u16::MAX => l matches Listen::Known(addrs) && addrs@ == on_port(
                p as u16,
            ),
            _ => l matches Listen::Text(t) && t@ == if occurs_at(s@, "*:"@, 0) {
                "0.0.0.0:"@ + s@.skip(2)
            } else {
                s@
            },
        },
    }
}

/// Looks at an address in a configuration file.
pub fn parse_rawaddr(raw: RawAddr) -> (l: Listen)
    ensures
        is_listen_of(l, raw),
{
    match raw {
        RawAddr::Port(p) => Listen::Known(listen_on_port(p)),
        RawAddr::Full(s) => {
            if let Some(p) = parse_u16(s.as_str()) {
                return Listen::Known(listen_on_port(p));
            }
            proof {
                reveal_strlit("*:");
            }
            let text: Vec<char> = chars_of(s.as_str());
            let star: Vec<char> = chars_of("*:");
            if is_at(text.as_slice(), star.as_slice(), 0) {
                let rest: String = text_of(text.as_slice(), 2, text.len());
                assert(rest@ =~= s@.skip(2));
                let mut t: String = "0.0.0.0:".to_owned();
                t.push_str(rest.as_str());
                Listen::Text(t)
            } else {
                Listen::Text(s)
            }
        },
    }
}

} // verus!
