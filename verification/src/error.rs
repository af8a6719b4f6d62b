//! What can go wrong.

use vstd::prelude::*;

verus! {

/// A failure of the media framework.
#[derive(Debug, Clone, PartialEq, Eq)]
pub enum FfmpegError {
    InitFailed(String),
    OpenInput(String),
    ReadFrame(String),
    StreamConfig(String),
    WriteError(String),
}

/// A failure to make a playlist or a segment.
#[derive(Debug, Clone, PartialEq, Eq)]
pub enum HlsError {
    /// The media framework failed.
    Ffmpeg(FfmpegError),
    /// The segment could not be put together.
    Muxing(String),
    /// The file has no video.
    NoVideoStream,
    /// The file has no such segment.
    SegmentNotFound { stream_id: String, segment_type: String, sequence: usize },
    /// The file has no such stream.
    StreamNotFound(String),
}

pub type Result<T> = std::result::Result<T, HlsError>;

} // verus!
