//! Standing between a client and a media server.

pub mod types;
pub mod stream_id;
pub mod transcoding_url;
pub mod playbackinfo;
pub mod request_laws;
pub mod rewrite_laws;
pub mod settings_laws;
pub mod config;
pub mod forwarding;
pub mod media_request;
