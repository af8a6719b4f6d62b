use hls_vod::media::{Id, SegmentInfo, SubtitleFormat, SubtitleSampleRef, SubtitleStreamInfo};
use hls_vod::timebase::Rational;
use hls_vod::timeline::{cut_segments, find_shown_sequences, span_us, KeyFrame};

fn keys(times: &[i64]) -> Vec<KeyFrame> {
    times.iter().map(|t| KeyFrame { pts: *t, byte_offset: (*t as u64) * 10 }).collect()
}

fn bounds(segments: &[SegmentInfo]) -> Vec<(usize, i64, i64, u64)> {
    segments.iter().map(|s| (s.sequence, s.start_pts, s.end_pts, s.duration_us)).collect()
}

#[test]
fn test_span_us() {
    let tb = Rational::new(1, 90000);
    assert_eq!(span_us(0, 90000, tb), 1_000_000);
    assert_eq!(span_us(0, 1, tb), 11);
    assert_eq!(span_us(5, 5, tb), 0);
    assert_eq!(span_us(9, 5, tb), 0);
    assert_eq!(span_us(0, 5, Rational::new(0, 1)), 0);
    assert_eq!(span_us(i64::MIN, i64::MAX, Rational::new(1, 1)), u64::MAX);
}

#[test]
fn test_cut_segments_at_key_frames() {
    let tb = Rational::new(1, 1000);
    let found = cut_segments(&keys(&[0, 2000, 4000, 5000, 7999, 8000, 12500]), 14000, tb, 4_000_000);
    assert_eq!(
        bounds(&found),
        [
            (0, 0, 4000, 4_000_000),
            (1, 4000, 8000, 4_000_000),
            (2, 8000, 12500, 4_500_000),
            (3, 12500, 14000, 1_500_000),
        ]
    );
    assert!(found.iter().all(|s| s.is_keyframe));
    assert_eq!(found[2].video_byte_offset, 80000);
}

#[test]
fn test_cut_segments_without_key_frames() {
    assert!(cut_segments(&[], 1000, Rational::new(1, 1000), 4_000_000).is_empty());
}

#[test]
fn test_find_shown_sequences() {
    let tb = Rational::new(1, 1000);
    let segments = cut_segments(&keys(&[0, 4000, 8000]), 12000, tb, 4_000_000);
    let sample = |pts: i64| SubtitleSampleRef { byte_offset: 0, pts, duration: 100, size: 1 };
    let track = SubtitleStreamInfo {
        stream_index: 2,
        codec_id: Id::SUBRIP,
        language: None,
        format: SubtitleFormat::SubRip,
        non_empty_sequences: vec![],
        sample_index: vec![sample(10), sample(4009), sample(8010)],
        timebase: tb,
        start_time: 10,
    };
    assert_eq!(find_shown_sequences(&track, &segments, tb), [0, 2]);
}
