//! HLS playlists and segments of media files, made when they are asked for.
//!
//! A stream URL ([`params`]) names a playlist or a segment of a media file ([`media`]).
//! [`hlsvideo`] makes the playlists ([`playlist`]) and prepares the segments ([`segment`],
//! [`transcode`]), which are kept for a while ([`cache`]) together with the files that are open
//! ([`registry`]). [`proxy`] puts all of it between a client and a media server.
//!
//! The library decides and computes. Demuxing, decoding, encoding and muxing, as well as all
//! input and output, is left to the program around it.

pub mod big_endian;
pub mod cache;
pub mod cache_laws;
pub mod clock;
pub mod config_file;
pub mod error;
pub mod ffmpeg_utils;
pub mod hlsvideo;
pub mod hlsvideo_laws;
pub mod media;
pub mod numbers;
pub mod params;
pub mod playlist;
pub mod proxy;
pub mod registry;
pub mod search;
pub mod segment;
pub mod shared_bytes;
pub mod text;
pub mod timebase;
pub mod timeline;
pub mod transcode;
pub mod url_grammar;
pub mod url_laws;

pub use error::{FfmpegError, HlsError, Result};
pub use hlsvideo::HlsVideo;
pub use params::HlsParams;
