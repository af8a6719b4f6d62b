use hls_vod::media::{AudioStreamInfo, Id, Rational, SegmentInfo};
use hls_vod::segment::packets::{PacketInfo, Verdict};
use hls_vod::transcode::pipeline::{
    get_recommended_bitrate, get_transcode_requirements, needs_transcoding, plan_chunks,
    rechunk_pcm_frames, Chunk, PcmFrame, Placed, SampleCoding, SampleFormat, TranscodeState,
    HLS_SAMPLE_RATE, MONO, STEREO,
};

fn make_audio_stream(codec: Id) -> AudioStreamInfo {
    AudioStreamInfo {
        stream_index: 0,
        codec_id: codec,
        sample_rate: 48000,
        channels: 2,
        bitrate: 128000,
        language: Some("en".to_string()),
        transcode_to: None,
        encoder_delay: 0,
    }
}

#[test]
fn test_needs_transcoding_aac() {
    assert!(!needs_transcoding(&make_audio_stream(Id::AAC)));
}

#[test]
fn test_needs_transcoding_ac3() {
    assert!(!needs_transcoding(&make_audio_stream(Id::AC3)));
}

#[test]
fn test_needs_transcoding_opus() {
    assert!(!needs_transcoding(&make_audio_stream(Id::OPUS)));
}

#[test]
fn test_get_transcode_requirements() {
    let stream = AudioStreamInfo {
        stream_index: 0,
        codec_id: Id::VORBIS,
        sample_rate: 48000,
        channels: 6,
        bitrate: 384000,
        language: Some("en".to_string()),
        transcode_to: None,
        encoder_delay: 0,
    };
    let reqs = get_transcode_requirements(&stream);
    assert!(reqs.needs_transcoding);
    assert_eq!(reqs.source_codec, Id::VORBIS);
    assert_eq!(reqs.target_sample_rate, 48000);
    assert_eq!(reqs.target_channels, 2);
}

#[test]
fn test_transcoder_config_default() {
    assert_eq!(HLS_SAMPLE_RATE, 48000);
}

#[test]
fn the_other_direct_codecs_need_no_transcoding() {
    assert!(!needs_transcoding(&make_audio_stream(Id::EAC3)));
    assert!(!needs_transcoding(&make_audio_stream(Id::MP3)));
    assert!(needs_transcoding(&make_audio_stream(Id::FLAC)));
    assert_eq!(get_recommended_bitrate(2), 128_000);
}

fn segment() -> SegmentInfo {
    SegmentInfo {
        sequence: 1,
        start_pts: 4,
        end_pts: 8,
        duration_us: 4_000_000,
        is_keyframe: true,
        video_byte_offset: 0,
    }
}

fn packet(stream_id: usize, pts: i64) -> PacketInfo {
    PacketInfo {
        stream_id,
        pts: Some(pts),
        dts: None,
        duration: 0,
        is_key: true,
        is_video: false,
        timebase: Rational::new(1, 1),
    }
}

#[test]
fn packets_are_decoded_up_to_the_end() {
    let state = TranscodeState::new(3, &segment(), Rational::new(1, 1), 192_100, false);
    assert_eq!(state.judge(&packet(2, 0)), Verdict::Skip);
    assert_eq!(state.judge(&packet(3, 7)), Verdict::Keep);
    assert_eq!(state.judge(&packet(3, 8)), Verdict::Stop);
    assert_eq!(state.target_start, 187 * 1024);
}

#[test]
fn frames_are_put_on_the_grid() {
    let mut state = TranscodeState::new(0, &segment(), Rational::new(1, 1), 192_000, true);
    state.on_frame(Some(3), Rational::new(1, 1));
    state.on_frame(Some(99), Rational::new(1, 1));
    // 144000 samples are 140 frames and 640 samples.
    assert_eq!(state.align(), 384);
    assert_eq!(state.stamp(1024), 144_384);
    assert_eq!(state.stamp(500), 145_408);
    assert_eq!(state.stamp(0), 145_908);
    assert_eq!(state.place(Some(191_487)), None);
    assert_eq!(state.place(Some(191_488)), Some(Placed { time: Some(0) }));
    assert_eq!(state.place(Some(192_512)), Some(Placed { time: Some(1024) }));
}

#[test]
fn negative_times_are_on_the_grid_too() {
    let mut state = TranscodeState::new(0, &segment(), Rational::new(1, 1), -1500, false);
    assert_eq!(state.target_start, -1024);
    state.on_frame(None, Rational::new(1, 1));
    assert_eq!(state.align(), 0);
    let mut state = TranscodeState::new(0, &segment(), Rational::new(1, 1), 0, false);
    state.on_frame(Some(-1), Rational::new(1, 48000));
    assert_eq!(state.align(), 1);
    assert_eq!(state.stamp(1), 0);
    assert_eq!(state.place(None), Some(Placed { time: None }));
}

#[test]
fn sound_is_cut_into_frames() {
    assert_eq!(
        plan_chunks(10, 4, 1),
        vec![
            Chunk { start: 1, len: 4 },
            Chunk { start: 5, len: 4 },
            Chunk { start: 9, len: 1 }
        ]
    );
    assert_eq!(plan_chunks(4, 4, 4), vec![]);
    let format = SampleFormat { coding: SampleCoding::F32, planar: true };
    let frame = |planes: Vec<Vec<u32>>, rate: u32, layout: u64| PcmFrame {
        planes,
        rate,
        format,
        layout,
    };
    let frames = vec![
        frame(vec![vec![1, 2, 3], vec![11, 12, 13]], 48000, 0),
        frame(vec![vec![4, 5], vec![14, 15]], 44100, 9),
    ];
    let out = rechunk_pcm_frames(&frames, 2, 1);
    assert!(out.iter().all(|f| (f.rate, f.format, f.layout) == (48000, format, STEREO)));
    assert_eq!(rechunk_pcm_frames(&vec![frame(vec![vec![1]], 8000, 0)], 2, 0)[0].layout, MONO);
    assert_eq!(rechunk_pcm_frames(&vec![frame(vec![vec![1]], 8000, 9)], 2, 0)[0].layout, 9);
    assert!(rechunk_pcm_frames(&frames, 2, 5).is_empty());
    let planes: Vec<Vec<Vec<u32>>> = out.into_iter().map(|f| f.planes).collect();
    assert_eq!(
        planes,
        vec![vec![vec![2, 3], vec![12, 13]], vec![vec![4, 5], vec![14, 15]]]
    );
    assert!(rechunk_pcm_frames(&Vec::new(), 1024, 0).is_empty());
}
