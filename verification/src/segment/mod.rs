//! Media segments: the box structure of fragmented MP4 and what is done with it.

pub mod isobmff;
pub mod box_laws;
pub mod cue_laws;
pub mod merge_laws;
pub mod muxer;
pub mod packets;
pub mod pick_laws;
pub mod plan_laws;
pub mod mux_plan;
pub mod packet_laws;
pub mod finalize;
pub mod finish_laws;
pub mod generator;
pub mod init;
pub mod job_laws;
pub mod audio_merge;
pub mod subtitles;
pub mod webvtt;
pub mod write_laws;
