//! Transcoding of audio to AAC.

pub mod pipeline;
