//! The messages between a client and a media server.

use std::collections::HashMap;
use vstd::prelude::*;

verus! {

/// What a client asks of a media server before it plays something.
#[derive(Debug, Clone, Default)]
pub struct PlaybackInfoRequest {
    /// The specific device ID making the request
    pub id: Option<String>,
    /// The ID of the user requesting playback
    pub user_id: Option<String>,
    /// Starting position in Ticks (1 second = 10,000,000 ticks)
    pub start_time_ticks: Option<i64>,
    /// The index of the audio stream to play
    pub audio_stream_index: Option<i32>,
    /// The index of the subtitle stream to play
    pub subtitle_stream_index: Option<i32>,
    /// The preferred media source ID
    pub media_source_id: Option<String>,
    /// Max bitrate the client can handle
    pub max_streaming_bitrate: Option<i64>,
    /// Whether to enable direct play
    pub enable_direct_play: Option<bool>,
    /// Whether to enable transcoding
    pub enable_transcoding: Option<bool>,
    /// Is this playback or just an info request.
    pub is_playback: Option<bool>,
    /// Whether a live stream is opened at once
    pub auto_open_live_stream: Option<bool>,
    /// Always burn in subtitle when transcoding.
    pub always_burn_in_subtitle_when_transcoding: Option<bool>,
    /// The hardware/software capabilities of the client
    pub device_profile: Option<DeviceProfile>,
}

/// What a client can play.
#[derive(Debug, Clone, Default)]
pub struct DeviceProfile {
    pub name: Option<String>,
    pub max_streaming_bitrate: Option<i64>,
    pub max_static_bitrate: Option<i64>,
    pub music_streaming_transcoding_bitrate: Option<i64>,
    pub direct_play_profiles: Vec<DirectPlayProfile>,
    pub transcoding_profiles: Vec<TranscodingProfile>,
    pub codec_profiles: Vec<CodecProfile>,
    pub subtitle_profiles: Vec<SubtitleProfile>,
    pub response_profiles: Vec<ResponseProfile>,
}

/// What a client can play as it is.
#[derive(Debug, Clone, Default)]
pub struct DirectPlayProfile {
    pub container: Option<String>,
    pub audio_codec: Option<String>,
    pub video_codec: Option<String>,
    pub profile_type: String,
}

/// What a client can play once it is transcoded.
#[derive(Debug, Clone, Default)]
pub struct TranscodingProfile {
    pub container: Option<String>,
    pub profile_type: String,
    pub audio_codec: Option<String>,
    pub video_codec: Option<String>,
    pub context: Option<String>,
    pub protocol: Option<String>,
    pub max_audio_channels: Option<i32>,
    pub min_segments: Option<i32>,
    pub break_on_non_key_frames: Option<bool>,
}

/// What a client asks of a codec.
#[derive(Debug, Clone, Default)]
pub struct CodecProfile {
    pub profile_type: String,
    pub codec: Option<String>,
    pub conditions: Vec<CodecCondition>,
}

/// A condition on a codec.
#[derive(Debug, Clone, Default)]
pub struct CodecCondition {
    pub condition: String,
    pub property: Option<String>,
    pub value: Option<String>,
    pub is_required: Option<bool>,
}

/// How a client takes subtitles.
#[derive(Debug, Clone, Default)]
pub struct SubtitleProfile {
    pub format: String,
    pub method: String,
}

/// How a container is answered.
#[derive(Debug, Clone, Default)]
pub struct ResponseProfile {
    pub profile_type: Option<String>,
    pub container: Option<String>,
    pub mime_type: Option<String>,
}

/// What a media server answers.
#[derive(Debug, Clone, Default)]
pub struct PlaybackInfoResponse {
    pub media_sources: Vec<MediaSource>,
    pub play_session_id: Option<String>,
}

/// A version of a media file.
#[derive(Debug, Clone, Default)]
pub struct MediaSource {
    /// The transport protocol used to access the file (e.g., "File", "Http", "Rtmp").
    pub protocol: String,
    /// A unique identifier for this specific media source.
    pub id: String,
    /// The physical or virtual path to the file on the server.
    pub path: String,
    /// Path to the specific encoder binary if using external tools.
    pub encoder_path: Option<String>,
    /// Protocol used by the encoder (usually "Http" for streaming).
    pub encoder_protocol: Option<String>,
    /// The type of source (usually "Default" or "Grouping").
    pub source_type: String,
    /// The file container format (e.g., "mkv", "mp4", "m4s").
    pub container: String,
    /// Total file size in bytes.
    pub size: i64,
    /// Human-readable name for the source.
    pub name: String,
    /// Whether the file is located on a remote network/cloud.
    pub is_remote: bool,
    /// Total duration of the media in Ticks (1 sec = 10,000,000 ticks).
    pub run_time_ticks: Option<i64>,
    /// Tells the client if the server is capable of transcoding this file.
    pub supports_transcoding: bool,
    /// Whether the server can "remux" (change container only) without re-encoding.
    pub supports_direct_stream: bool,
    /// Whether the client can play the raw file via HTTP without server help.
    pub supports_direct_play: bool,
    /// Used for live streams that do not have a defined end.
    pub is_infinite_stream: bool,
    /// Whether the media requires a "LiveStream" open request before playback.
    pub requires_opening: bool,
    /// Token used to maintain an open session for protected/live streams.
    pub open_token: Option<String>,
    /// Whether the server needs a "Close" signal when the user stops watching.
    pub requires_closing: bool,
    /// ID associated with a persistent live stream session.
    pub live_stream_id: Option<String>,
    /// Suggested buffer size for the client in milliseconds.
    pub buffer_ms: Option<i32>,
    /// Whether the player should loop back to the start automatically.
    pub requires_looping: bool,
    /// Whether the stream can be passed to an external player (like VLC/MPV).
    pub supports_external_stream: bool,
    /// The list of video, audio, and subtitle tracks found in the file.
    pub media_streams: Vec<MediaStream>,
    /// List of compatible containers for this source.
    pub formats: Vec<String>,
    /// Total combined bitrate (video + audio) in bits per second.
    pub bitrate: Option<i32>,
    /// Last modified or creation timestamp.
    pub timestamp: Option<String>,
    /// Custom headers required by the client to fetch segments (e.g., Cookies/Auth).
    pub required_http_headers: Option<HashMap<String, String>>,
    /// The critical HLS/DASH URL used for transcoding sessions.
    pub transcoding_url: Option<String>,
    /// The sub-protocol for transcoding (usually "hls").
    pub transcoding_sub_protocol: Option<String>,
    /// The container used for transcode segments (e.g., "ts" or "mp4").
    pub transcoding_container: Option<String>,
    /// How many ms the client should analyze the stream before playing.
    pub analyze_duration_ms: Option<i32>,
    /// The index of the audio track the server recommends playing by default.
    pub default_audio_stream_index: Option<i32>,
    /// The index of the subtitle track the server recommends playing by default.
    pub default_subtitle_stream_index: Option<i32>,
    /// Categorization of video (e.g., "Video", "Map", "Thumbnail").
    pub video_type: Option<String>,
    /// Unique hash to help with client-side caching.
    pub etag: Option<String>,
    /// URL for direct stream access (if different from Path).
    pub direct_stream_url: Option<String>,
    /// List of extra files (like fonts or posters) associated with the source.
    pub media_attachments: Option<Vec<String>>,
    /// Whether the server should force reading at the original FPS (common for Live).
    pub read_at_native_framerate: Option<bool>,
    /// Whether the media is pre-segmented (DASH/HLS) on the server.
    pub has_segments: Option<bool>,
    /// Tells the client to ignore DTS timestamps (fixes some sync issues).
    pub ignore_dts: Option<bool>,
    /// Tells the client to ignore the file index and scan sequentially.
    pub ignore_index: Option<bool>,
    /// Tells FFmpeg to generate PTS timestamps on the fly.
    pub gen_pts_input: Option<bool>,
    /// Whether the server has already "probed" the file for metadata.
    pub supports_probing: Option<bool>,
}

/// A track of a media file. Frame rates and levels are held by the bits of
/// their single precision numbers.
#[derive(Debug, Clone, Default)]
pub struct MediaStream {
    /// The codec name (e.g., "h264", "aac", "subrip").
    pub codec: String,
    /// 3-letter ISO language code (e.g., "eng", "fra").
    pub language: Option<String>,
    /// The internal time base for the stream (e.g., "1/90000").
    pub time_base: Option<String>,
    /// The title attribute from the stream metadata.
    pub title: Option<String>,
    /// The user-friendly title shown in the client UI (e.g., "English (AAC 5.1)").
    pub display_title: Option<String>,
    /// The localized name of the language (e.g., "Spanish").
    pub display_language: Option<String>,
    /// Whether the video is interlaced (as opposed to progressive).
    pub is_interlaced: bool,
    /// The audio channel layout (e.g., "5.1", "stereo", "7.1").
    pub channel_layout: Option<String>,
    /// Bitrate of this specific track in bits per second.
    pub bit_rate: Option<i32>,
    /// Color depth of the video (e.g., 8, 10 for HDR).
    pub bit_depth: Option<i32>,
    /// Number of reference frames (relevant for H.264 profiles).
    pub ref_frames: Option<i32>,
    /// Internal packet length (mostly for specialized transport).
    pub packet_length: Option<i32>,
    /// Number of audio channels (e.g., 2, 6).
    pub channels: Option<i32>,
    /// Audio sample rate in Hz (e.g., 44100, 48000).
    pub sample_rate: Option<i32>,
    /// Whether this is the default track for its type.
    pub is_default: bool,
    /// Whether this is a "forced" subtitle track.
    pub is_forced: bool,
    /// Video height in pixels.
    pub height: Option<i32>,
    /// Video width in pixels.
    pub width: Option<i32>,
    /// The average FPS of the video.
    pub average_frame_rate_bits: Option<u32>,
    /// The actual/variable frame rate.
    pub real_frame_rate_bits: Option<u32>,
    /// The codec profile (e.g., "High", "Main 10").
    pub profile: Option<String>,
    /// Type of stream: "Video", "Audio", "Subtitle", or "Data".
    pub stream_type: String,
    /// Display aspect ratio (e.g., "16:9").
    pub aspect_ratio: Option<String>,
    /// The absolute global index of this stream in the file (FFmpeg index).
    pub index: i32,
    /// Internal priority score for track selection logic.
    pub score: Option<i32>,
    /// Whether this track is an external file (e.g., .srt) or embedded.
    pub is_external: bool,
    /// How the track is delivered: "External", "Hls", "Embed".
    pub delivery_method: Option<String>,
    /// URL to fetch the subtitle or audio file if it is external.
    pub delivery_url: Option<String>,
    /// Whether the delivery URL points to a different server.
    pub is_external_url: Option<bool>,
    /// True if the subtitle is text-based (SRT/ASS) vs image-based (PGS).
    pub is_text_subtitle_stream: bool,
    /// Whether this stream supports being served via an external URL.
    pub supports_external_stream: bool,
    /// Path to the external track file on disk.
    pub path: Option<String>,
    /// Video pixel format (e.g., "yuv420p", "yuv420p10le").
    pub pixel_format: Option<String>,
    /// Codec level (e.g., 4.1).
    pub level_bits: Option<u32>,
    /// The internal codec tag (e.g., "avc1", "hvc1").
    pub codec_tag: Option<String>,
    /// Whether the pixels are non-square (common in DVD rips).
    pub is_anamorphic: Option<bool>,
    /// The color range (e.g., "SDR", "HDR10", "HLG", "DOVI").
    pub video_range: Option<String>,
    /// Specific color space metadata (e.g., "BT709", "BT2020").
    pub video_range_type: Option<String>,
    /// Information for Dolby Atmos or DTS:X spatial audio.
    pub audio_spatial_format: Option<String>,
    /// Localized string for the "Default" label.
    pub localized_default: Option<String>,
    /// Localized string for the "External" label.
    pub localized_external: Option<String>,
    /// True if the video codec is H.264/AVC.
    pub is_avc: Option<bool>,
    /// Flag for SDH (Subtitles for the Deaf and Hard of Hearing).
    pub is_hearing_impaired: Option<bool>,
    /// If the HLS stream interleaves audio and video.
    pub is_interleaved: Option<bool>,
}

/// The query of a transcoding URL of a media server.
#[derive(Debug, Clone, Default)]
pub struct HlsTranscodingParameters {
    pub id: Option<String>,
    pub media_source_id: Option<String>,
    pub device_id: Option<String>,
    pub play_session_id: Option<String>,
    pub api_key: Option<String>,
    /// Unique tag for caching/identification of the specific media version
    pub tag: Option<String>,

    pub audio_stream_index: Option<String>,
    pub subtitle_stream_index: Option<String>,
    /// Reasons for transcoding (e.g., "AudioCodecNotSupported")
    pub transcode_reasons: Option<String>,

    pub video_codec: Option<String>,
    pub audio_codec: Option<String>,

    pub video_bitrate: Option<String>,
    pub audio_bitrate: Option<String>,
    pub max_framerate: Option<String>,
    pub max_width: Option<String>,
    pub max_height: Option<String>,
    pub transcoding_max_audio_channels: Option<String>,
    pub enable_audio_vbr_encoding: Option<String>,

    pub segment_container: Option<String>,
    pub min_segments: Option<String>,
    pub break_on_non_key_frames: Option<String>,
    pub start_time_ticks: Option<String>,

    pub h264_profile: Option<String>,
    pub h264_level: Option<String>,
    pub h264_bit_depth: Option<String>,
    pub h264_range_type: Option<String>,
    pub h264_deinterlace: Option<String>,
    pub require_avc: Option<String>,

    pub hevc_profile: Option<String>,
    pub hevc_level: Option<String>,
    pub hevc_range_type: Option<String>,
    pub hevc_deinterlace: Option<String>,

    pub av1_profile: Option<String>,
    pub av1_level: Option<String>,
    pub av1_range_type: Option<String>,

    pub vp9_range_type: Option<String>,

    pub allow_video_stream_copy: Option<String>,
    pub allow_audio_stream_copy: Option<String>,
}

} // verus!
