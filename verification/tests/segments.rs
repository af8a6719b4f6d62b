use hls_vod::error::HlsError;
use hls_vod::media::{
    AudioStreamInfo, Id, Rational, SegmentInfo, StreamIndex, SubtitleFormat, SubtitleSampleRef,
    SubtitleStreamInfo, VideoStreamInfo,
};
use hls_vod::segment::audio_merge::{merge_audio, AudioItem, AudioSource};
use hls_vod::segment::finalize::{finalize_segment, Finish};
use hls_vod::segment::generator::{
    judge_preroll, needs_delay_moov, plan_seeks, register_streams, MediaJob, Seek, StreamDesc,
    StreamUse,
};
use hls_vod::segment::init::{peek_first_packets, FirstPackets, InitSegmentBuilder};
use hls_vod::segment::mux_plan::{
    mux_media_segment, MuxSetup, OutputStream, Source, Stamp, Write,
};
use hls_vod::segment::packets::{buffer_media_packets, MediaKind, PacketInfo, Verdict};
use hls_vod::segment::subtitles::{
    clamp_cues, is_bitmap_subtitle_codec, plan_subtitle_segment, Cue, CueStep, SubtitleReader,
};
use hls_vod::segment::webvtt::write_webvtt;
use hls_vod::timebase::{rescale_ts, NO_TIMESTAMP};

fn base() -> Rational {
    Rational::new(1, 90000)
}

fn index() -> StreamIndex {
    let mut index = StreamIndex::with_id("/m.mp4".to_string(), "id".to_string(), 7);
    index.video_timebase = base();
    index.video_streams.push(VideoStreamInfo {
        stream_index: 0,
        codec_id: Id::H264,
        width: 640,
        height: 480,
        bitrate: 1,
        framerate: Rational::new(24000, 1001),
        language: None,
        profile: None,
        level: None,
    });
    index.audio_streams.push(AudioStreamInfo {
        stream_index: 1,
        codec_id: Id::AC3,
        sample_rate: 48000,
        channels: 6,
        bitrate: 1,
        language: Some("EN".to_string()),
        encoder_delay: 256,
        transcode_to: None,
    });
    for i in 0..4 {
        index.segments.push(SegmentInfo {
            sequence: i,
            start_pts: 360_000 * i as i64,
            end_pts: 360_000 * (i as i64 + 1),
            duration_us: 4_000_000,
            is_keyframe: true,
            video_byte_offset: 0,
        });
    }
    index
}

fn boxed(btype: &[u8; 4], payload: &[u8]) -> Vec<u8> {
    let mut out = ((payload.len() + 8) as u32).to_be_bytes().to_vec();
    out.extend_from_slice(btype);
    out.extend_from_slice(payload);
    out
}

fn tfdt(time: u64) -> Vec<u8> {
    let mut p = vec![1, 0, 0, 0];
    p.extend_from_slice(&time.to_be_bytes());
    boxed(b"tfdt", &p)
}

fn tfhd(track: u32) -> Vec<u8> {
    let mut p = vec![0, 0, 0, 0];
    p.extend_from_slice(&track.to_be_bytes());
    boxed(b"tfhd", &p)
}

fn moof(seq: u32, tracks: &[(u32, u64)]) -> Vec<u8> {
    let mut head = vec![0, 0, 0, 0];
    head.extend_from_slice(&seq.to_be_bytes());
    let mut p = boxed(b"mfhd", &head);
    for (track, time) in tracks {
        let mut traf = tfhd(*track);
        traf.extend_from_slice(&tfdt(*time));
        p.extend_from_slice(&boxed(b"traf", &traf));
    }
    boxed(b"moof", &p)
}

fn styp() -> Vec<u8> {
    boxed(b"styp", b"iso8\x00\x00\x02\x00iso8cmfc")
}

fn finish(kind: MediaKind) -> Finish {
    Finish {
        kind,
        transcode: false,
        video_timebase: base(),
        audio_track: Some(1),
        first_video_dts: None,
        first_audio_dts: None,
        first_packet_dts: None,
    }
}

fn finished(f: &Finish, tracks: &[(u32, u64)]) -> Vec<u8> {
    let index = index();
    let mut full = boxed(b"ftyp", b"isom");
    full.extend_from_slice(&boxed(b"moov", &[]));
    full.extend_from_slice(&moof(1, tracks));
    finalize_segment(f, &index.segments[2], &index, full).unwrap()
}

fn expected(tracks: &[(u32, u64)]) -> Vec<u8> {
    let mut out = styp();
    out.extend_from_slice(&moof(3, tracks));
    out
}

#[test]
fn segments_are_finished() {
    let mut f = finish(MediaKind::Video);
    assert_eq!(finished(&f, &[(1, 5)]), expected(&[(1, 720_000)]));
    f.first_packet_dts = Some(719_000);
    assert_eq!(finished(&f, &[(1, 5)]), expected(&[(1, 719_000)]));
    f.first_packet_dts = Some(-4);
    assert_eq!(finished(&f, &[(1, 5)]), expected(&[(1, 0)]));

    let mut f = finish(MediaKind::Audio);
    assert_eq!(finished(&f, &[(1, 5)]), expected(&[(1, 384_000)]));
    f.first_packet_dts = Some(384_100);
    assert_eq!(finished(&f, &[(1, 5)]), expected(&[(1, 383_844)]));
    f.transcode = true;
    assert_eq!(finished(&f, &[(1, 5)]), expected(&[(1, 383_076)]));
    f.audio_track = Some(9);
    f.first_packet_dts = None;
    assert_eq!(finished(&f, &[(1, 5)]), expected(&[(1, 0)]));

    let mut f = finish(MediaKind::Av);
    assert_eq!(
        finished(&f, &[(1, 5), (2, 6)]),
        expected(&[(1, 720_000), (2, 383_744)])
    );
    f.first_video_dts = Some(700_000);
    f.first_audio_dts = Some(300);
    assert_eq!(
        finished(&f, &[(1, 5), (2, 6), (3, 7)]),
        expected(&[(1, 700_000), (2, 44), (3, 7)])
    );
}

#[test]
fn without_media_there_is_no_segment() {
    let index = index();
    let f = finish(MediaKind::Video);
    assert_eq!(
        finalize_segment(&f, &index.segments[0], &index, boxed(b"moov", &[])),
        Err(HlsError::Muxing(
            "No media segment data found (moof/styp missing)".to_string()
        ))
    );
    let cut = boxed(b"moof", &boxed(b"traf", &boxed(b"tfdt", &[1, 0, 0, 0, 0, 0, 0, 1])));
    assert_eq!(
        finalize_segment(&f, &index.segments[0], &index, cut),
        Err(HlsError::Muxing("Truncated tfdt box".to_string()))
    );
}

fn packet(stream_id: usize, pts: i64, is_video: bool, is_key: bool) -> PacketInfo {
    PacketInfo {
        stream_id,
        pts: Some(pts),
        dts: Some(pts - 10),
        duration: 20,
        is_key,
        is_video,
        timebase: base(),
    }
}

#[test]
fn packets_are_picked_up_to_the_end() {
    let packets = vec![
        packet(5, 0, true, true),
        packet(0, 0, true, true),
        packet(1, 0, false, true),
        packet(0, 990, true, false),
        packet(0, 1010, true, false),
        packet(1, 1000, false, true),
        packet(1, 999, false, true),
        packet(0, 1000, true, true),
        packet(0, 1, true, false),
    ];
    let pick = |kind, streams: Vec<usize>, audio| {
        buffer_media_packets(&packets, 1000, kind, base(), streams, audio)
    };
    assert_eq!(pick(MediaKind::Av, vec![0, 1], Some(1)), vec![1, 2, 3, 4]);
    assert_eq!(pick(MediaKind::Video, vec![0], None), vec![1, 3, 4]);
    assert_eq!(pick(MediaKind::Audio, vec![1], Some(1)), vec![2]);
    // A segment of audio alone gets at least one packet.
    let late = vec![packet(1, 2000, false, true), packet(1, 3000, false, true)];
    assert_eq!(
        buffer_media_packets(&late, 1000, MediaKind::Audio, base(), vec![1], Some(1)),
        vec![0]
    );
}

fn setup(transcode: bool) -> MuxSetup {
    MuxSetup {
        interleaved: true,
        transcode,
        video_timebase: base(),
        start_pts: 100,
        audio_track: Some(1),
        audio_timebase: if transcode { Some(Rational::new(1, 48000)) } else { None },
        outputs: vec![
            OutputStream { input_index: 0, timebase: Rational::new(1, 90000) },
            OutputStream { input_index: 1, timebase: Rational::new(1, 48000) },
        ],
    }
}

#[test]
fn packets_are_written_from_the_start_on() {
    let packets = vec![
        packet(0, 90, true, false),
        packet(0, 150, true, true),
        packet(1, 150, false, true),
        packet(7, 150, true, true),
    ];
    let plan = mux_media_segment(&setup(false), &packets, &[]);
    assert_eq!(
        plan.writes,
        vec![
            Write {
                source: Source::Buffered(1),
                stream: 0,
                pts: Some(150),
                dts: Some(100),
                duration: 20
            },
            Write {
                source: Source::Buffered(2),
                stream: 1,
                pts: Some(80),
                dts: Some(75),
                duration: 11
            },
            Write {
                source: Source::Buffered(3),
                stream: 7,
                pts: Some(150),
                dts: Some(140),
                duration: 20
            },
        ]
    );
    assert_eq!(plan.first_video_dts, Some(100));
    assert_eq!(plan.first_audio_dts, Some(75));
    assert_eq!(plan.first_packet_dts, Some(100));
}

#[test]
fn transcoded_audio_goes_between() {
    let packets = vec![
        packet(0, 110, true, true),
        packet(1, 120, false, true),
        packet(0, 4000, true, false),
    ];
    let audio = vec![
        Stamp { pts: Some(0), dts: Some(-1024) },
        Stamp { pts: Some(1024), dts: None },
        Stamp { pts: Some(2048), dts: Some(2048) },
        Stamp { pts: Some(3072), dts: Some(3072) },
    ];
    let plan = mux_media_segment(&setup(true), &packets, &audio);
    let order: Vec<Source> = plan.writes.iter().map(|w| w.source).collect();
    assert_eq!(
        order,
        vec![
            Source::Transcoded(0),
            Source::Buffered(0),
            Source::Transcoded(1),
            Source::Transcoded(2),
            Source::Buffered(2),
            Source::Transcoded(3),
        ]
    );
    assert_eq!(plan.writes[0].duration, 1024);
    assert_eq!(plan.writes[0].stream, 1);
    // The first packet is taken note of before the audio in front of it.
    assert_eq!(plan.first_packet_dts, Some(100));
    assert_eq!(plan.first_audio_dts, Some(-1024));
}

#[test]
fn audio_is_merged_without_repeats() {
    let preroll = vec![
        Stamp { pts: Some(30), dts: Some(30) },
        Stamp { pts: Some(10), dts: None },
    ];
    let mut packets = vec![
        packet(1, 40, false, true),
        packet(1, 25, false, true),
        packet(0, 10, true, true),
    ];
    packets[1].dts = None;
    let out = merge_audio(&preroll, &packets, 1);
    assert_eq!(
        out,
        vec![
            AudioItem { source: AudioSource::Preroll(1), time: 10 },
            AudioItem { source: AudioSource::Main(1), time: 25 },
            AudioItem { source: AudioSource::Preroll(0), time: 30 },
        ]
    );
}

#[test]
fn seeks_leave_slack() {
    let mut job = MediaJob {
        kind: MediaKind::Av,
        video_track: Some(0),
        audio_track: Some(1),
        transcode: true,
    };
    assert_eq!(
        plan_seeks(&job, 8_000_000),
        (
            Some(Seek { target: 7_000_000, limit: 8_500_000 }),
            Seek { target: 8_500_000, limit: 10_000_000 }
        )
    );
    assert_eq!(plan_seeks(&job, 5).0, Some(Seek { target: 0, limit: 500_005 }));
    job.transcode = false;
    assert_eq!(plan_seeks(&job, 5).0, None);
    assert_eq!(judge_preroll(&packet(1, 90, false, true), 1, 1001), Verdict::Keep);
    assert_eq!(judge_preroll(&packet(1, 90, false, true), 1, 1000), Verdict::Stop);
    assert_eq!(judge_preroll(&packet(0, 90, false, true), 1, 0), Verdict::Skip);
    assert!(!needs_delay_moov(MediaKind::Video));
    assert!(needs_delay_moov(MediaKind::Audio));
    assert!(needs_delay_moov(MediaKind::Av));
}

fn streams() -> Vec<StreamDesc> {
    vec![
        StreamDesc { index: 0, is_video: true, is_audio: false },
        StreamDesc { index: 1, is_video: false, is_audio: true },
        StreamDesc { index: 2, is_video: false, is_audio: true },
    ]
}

#[test]
fn streams_are_picked_for_a_segment() {
    let index = index();
    let mut job = MediaJob {
        kind: MediaKind::Av,
        video_track: Some(0),
        audio_track: Some(1),
        transcode: true,
    };
    let video = StreamUse { index: 0, is_video: true, aac_bitrate: None };
    assert_eq!(
        register_streams(&job, &index, &streams()).unwrap(),
        vec![video, StreamUse { index: 1, is_video: false, aac_bitrate: Some(192_000) }]
    );
    job.audio_track = Some(2);
    assert_eq!(
        register_streams(&job, &index, &streams()),
        Err(HlsError::StreamNotFound("audio stream 2 not found".to_string()))
    );
    job = MediaJob { kind: MediaKind::Audio, video_track: None, audio_track: Some(2), transcode: false };
    assert_eq!(
        register_streams(&job, &index, &streams()).unwrap(),
        vec![StreamUse { index: 2, is_video: false, aac_bitrate: None }]
    );
    job.audio_track = Some(0);
    assert_eq!(
        register_streams(&job, &index, &streams()),
        Err(HlsError::StreamNotFound("No audio stream found".to_string()))
    );
    job = MediaJob { kind: MediaKind::Video, video_track: Some(0), audio_track: None, transcode: false };
    assert_eq!(register_streams(&job, &index, &streams()).unwrap(), vec![video]);
}

#[test]
fn streams_are_picked_for_an_init_segment() {
    let index = index();
    let all = InitSegmentBuilder::new(&index);
    let plan = all.plan(&streams()).unwrap();
    assert_eq!(plan.uses.len(), 3);
    assert!(plan.has_video && plan.has_audio);
    let audio = InitSegmentBuilder::new(&index).with_audio_track(1).transcode_audio_to_aac(true);
    let plan = audio.plan(&streams()).unwrap();
    assert_eq!(
        plan.uses,
        vec![StreamUse { index: 1, is_video: false, aac_bitrate: Some(192_000) }]
    );
    assert!(!plan.has_video && plan.has_audio);
    assert_eq!(
        InitSegmentBuilder::new(&index).with_video_track(8).plan(&streams()).unwrap_err(),
        HlsError::StreamNotFound("Video stream not found".to_string())
    );
    assert_eq!(
        InitSegmentBuilder::new(&index).with_audio_track(8).plan(&streams()).unwrap_err(),
        HlsError::StreamNotFound("Audio stream not found".to_string())
    );
}

#[test]
fn first_packets_are_found() {
    let index = index();
    let s = streams();
    let order = vec![s[2], s[1], s[1], s[0], s[0]];
    let both = InitSegmentBuilder::new(&index).with_video_track(0).with_audio_track(1);
    assert_eq!(
        peek_first_packets(&both, &order),
        FirstPackets { video: Some(3), audio: Some(1) }
    );
    let video = InitSegmentBuilder::new(&index).with_video_track(0);
    assert_eq!(
        peek_first_packets(&video, &order),
        FirstPackets { video: Some(3), audio: None }
    );
    // Without a set track the first packet is enough.
    let all = InitSegmentBuilder::new(&index);
    assert_eq!(
        peek_first_packets(&all, &order),
        FirstPackets { video: None, audio: Some(0) }
    );
}

#[test]
fn default_durations_are_those_of_a_frame() {
    let mut index = index();
    let trex = |track: u8, duration: u32| {
        let mut p = vec![0, 0, 0, 0, 0, 0, 0, track, 0, 0, 0, 1];
        p.extend_from_slice(&duration.to_be_bytes());
        boxed(b"trex", &p)
    };
    let make = |a: u32, b: u32| {
        let mut p = trex(1, a);
        p.extend_from_slice(&trex(2, b));
        boxed(b"moov", &boxed(b"mvex", &p))
    };
    let mut data = make(1, 1);
    InitSegmentBuilder::new(&index).apply_trex_fixes(&mut data, true, true);
    assert_eq!(data, make(3753, 1024));
    InitSegmentBuilder::new(&index).apply_trex_fixes(&mut data, false, true);
    assert_eq!(data, make(1024, 1024));
    index.video_streams[0].framerate = Rational::new(0, 1);
    InitSegmentBuilder::new(&index).apply_trex_fixes(&mut data, true, false);
    assert_eq!(data, make(3000, 3000));
}

fn with_subtitles() -> StreamIndex {
    let mut index = index();
    let sample = |pts: i64| SubtitleSampleRef { byte_offset: 0, pts, duration: 1, size: 1 };
    index.subtitle_streams.push(SubtitleStreamInfo {
        stream_index: 3,
        codec_id: Id::SUBRIP,
        language: Some("en".to_string()),
        format: SubtitleFormat::SubRip,
        non_empty_sequences: vec![],
        sample_index: vec![sample(100), sample(5_000), sample(13_000), sample(13_500), sample(18_000)],
        timebase: Rational::new(1, 1000),
        start_time: 1_000,
    });
    index
}

#[test]
fn subtitles_are_read_within_their_window() {
    let index = with_subtitles();
    // From 12 s to 16 s, counted from 1 s on; candidates start up to 10 s before.
    let window = plan_subtitle_segment(&index, 3, 3, 3).unwrap();
    assert_eq!((window.start, window.end), (13_000, 17_000));
    assert_eq!((window.start_ms, window.end_ms), (12_000, 16_000));
    assert_eq!(window.expected, vec![5_000, 13_000, 13_500]);
    assert_eq!(window.seek_us, 5_000_000);

    let mut reader = SubtitleReader::new(window, Some(45_000), base());
    assert_eq!(reader.on_packet(0, Some(13_000)), CueStep::Skip);
    assert_eq!(reader.on_packet(3, Some(5_000)), CueStep::Skip);
    assert_eq!(
        reader.on_packet(3, Some(13_000)),
        CueStep::Take { pts: 12_500, last: false }
    );
    assert_eq!(
        reader.on_packet(3, Some(13_500)),
        CueStep::Take { pts: 13_000, last: false }
    );
    assert_eq!(reader.on_packet(3, Some(17_000)), CueStep::Stop);

    let window = plan_subtitle_segment(&index, 3, 0, 0).unwrap();
    assert_eq!(window.expected, vec![100]);
    let mut reader = SubtitleReader::new(window, None, base());
    assert_eq!(reader.on_packet(3, Some(100)), CueStep::Skip);
    assert_eq!(reader.on_packet(3, Some(1_000)), CueStep::Take { pts: 0, last: false });
    let mut window = plan_subtitle_segment(&index, 3, 1, 1).unwrap();
    assert_eq!(window.expected, vec![100, 5_000]);
    window.expected = vec![5_000];
    let mut reader = SubtitleReader::new(window, Some(i64::MIN), base());
    assert_eq!(reader.on_packet(3, Some(5_000)), CueStep::Take { pts: 4_000, last: true });
}

#[test]
fn cues_are_cut_to_the_segment() {
    let cue = |start_ms, end_ms, text: &str| Cue { start_ms, end_ms, text: text.to_string() };
    let cues = vec![
        cue(0, 50, "before"),
        cue(90, 150, "into"),
        cue(120, 130, "within"),
        cue(180, 500, "out of"),
        cue(200, 300, "behind"),
        cue(140, 140, "empty"),
    ];
    let out: Vec<(i64, i64, String)> = clamp_cues(cues, 100, 200)
        .into_iter()
        .map(|c| (c.start_ms, c.end_ms, c.text))
        .collect();
    assert_eq!(
        out,
        vec![
            (100, 150, "into".to_string()),
            (120, 130, "within".to_string()),
            (180, 200, "out of".to_string())
        ]
    );
    assert!(is_bitmap_subtitle_codec(Id::DVD_SUBTITLE));
    assert!(!is_bitmap_subtitle_codec(Id::ASS));
}

#[test]
fn timestamps_are_rescaled_to_the_nearest() {
    let (a, b) = (Rational::new(1, 90000), Rational::new(1, 48000));
    assert_eq!(rescale_ts(90000, a, b), 48000);
    assert_eq!(rescale_ts(1, Rational::new(1, 2), Rational::new(1, 1)), 1);
    assert_eq!(rescale_ts(-1, Rational::new(1, 2), Rational::new(1, 1)), -1);
    assert_eq!(rescale_ts(1, Rational::new(1, 3), Rational::new(1, 1)), 0);
    assert_eq!(rescale_ts(i64::MAX, Rational::new(2, 1), Rational::new(1, 1)), NO_TIMESTAMP);
    assert_eq!(rescale_ts(5, Rational::new(1, 0), Rational::new(1, 1)), NO_TIMESTAMP);
    assert_eq!(rescale_ts(i64::MAX, a, a), i64::MAX);
}

#[test]
fn streams_are_found_in_the_index() {
    let mut index = with_subtitles();
    assert_eq!(index.get_segment("video", 2).unwrap().start_pts, 720_000);
    assert_eq!(
        index.get_segment("audio", 9).unwrap_err(),
        HlsError::SegmentNotFound {
            stream_id: "id".to_string(),
            segment_type: "audio".to_string(),
            sequence: 9
        }
    );
    assert_eq!(index.audio_by_language("en").len(), 1);
    assert_eq!(index.audio_by_language("de").len(), 0);
    assert_eq!(index.subtitle_by_language("En")[0].stream_index, 3);
    assert_eq!(index.primary_video().unwrap().stream_index, 0);
    assert_eq!(index.get_audio_stream(1).unwrap().channels, 6);
    assert_eq!(index.get_subtitle_stream(3).unwrap().start_time, 1_000);
    assert!(index.is_vod());
    assert_eq!(index.segment_count(), 4);
    index.init_segment_first_pts();
    assert_eq!(index.segment_first_pts, vec![i64::MIN; 4]);
    let fresh = StreamIndex::new("/x.mp4".to_string());
    assert_eq!(fresh.stream_id.len(), 36);
    assert_ne!(fresh.stream_id, StreamIndex::new("/x.mp4".to_string()).stream_id);
    assert!(fresh.indexed_at > 0);
}

#[test]
fn subtitles_are_written_as_text() {
    let cue = |start_ms, end_ms, text: &str| Cue { start_ms, end_ms, text: text.to_string() };
    assert_eq!(write_webvtt(&vec![]), "WEBVTT\n\n");
    assert_eq!(
        write_webvtt(&vec![
            cue(0, 4_000, "Test subtitle segment"),
            cue(-5, 360_061_007, "two\nlines"),
        ]),
        "WEBVTT\n\n00:00:00.000 --> 00:00:04.000\nTest subtitle segment\n\n\
00:00:00.000 --> 100:01:01.007\ntwo\nlines\n\n"
    );
}
