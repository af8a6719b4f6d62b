//! Segments of subtitles.

use std::collections::HashSet;
use vstd::prelude::*;
use crate::error::{HlsError, Result};
use crate::media::{
    not_found_text, segment_index, subtitle_index, Id, SegmentInfo, StreamIndex, SubtitleSampleRef,
    SubtitleStreamInfo,
};
use crate::text::{decimal, push_decimal};
use crate::timebase::{rescale_ts, rescaled, Rational};

verus! {

broadcast use vstd::std_specs::hash::group_hash_axioms;

/// The name of a codec whose subtitles are pictures.
pub open spec fn bitmap_name(id: Id) -> Option<Seq<char>> {
    match id {
        Id::DVD_SUBTITLE => Some("DVD_SUBTITLE"@),
        Id::DVB_SUBTITLE => Some("DVB_SUBTITLE"@),
        Id::HDMV_PGS_SUBTITLE => Some("HDMV_PGS_SUBTITLE"@),
        Id::XSUB => Some("XSUB"@),
        _ => None,
    }
}

fn find_bitmap_name(id: Id) -> (name: Option<&'static str>)
    ensures
        match name {
            Some(n) => bitmap_name(id) == Some(n@),
            None => bitmap_name(id) is None,
        },
{
    match id {
        Id::DVD_SUBTITLE => Some("DVD_SUBTITLE"),
        Id::DVB_SUBTITLE => Some("DVB_SUBTITLE"),
        Id::HDMV_PGS_SUBTITLE => Some("HDMV_PGS_SUBTITLE"),
        Id::XSUB => Some("XSUB"),
        _ => None,
    }
}

/// Whether the subtitles of a codec are pictures, which cannot be turned into text.
pub fn is_bitmap_subtitle_codec(id: Id) -> (bitmap: bool)
    ensures
        bitmap == (bitmap_name(id) is Some),
{
    find_bitmap_name(id).is_some()
}

/// The text for a subtitle track that is made of pictures.
pub open spec fn bitmap_text(track: usize, name: Seq<char>) -> Seq<char> {
    "Subtitle stream "@ + decimal(track as nat) + " uses a bitmap codec ("@ + name
        + ") which cannot be converted to WebVTT"@
}

/// A time of the video in ticks of a subtitle stream, counted as the stream counts.
pub open spec fn in_stream_time(pts: i64, video_timebase: Rational, s: SubtitleStreamInfo) -> int {
    rescaled(pts as int, video_timebase, s.timebase) + s.start_time
}

/// The subtitles that may be shown from `start` on: those that start at most ten seconds
/// before it.
pub open spec fn first_candidate(s: SubtitleStreamInfo, start: int) -> int {
    sample_from(
        s.sample_index@,
        0,
        start - rescaled(10, Rational(1, 1), s.timebase),
    )
}

/// The first subtitle, at `from` or behind it, that is not shown before `time`.
pub open spec fn sample_from(samples: Seq<SubtitleSampleRef>, from: int, time: int) -> int
    decreases samples.len() - from,
{
    if 0 <= from < samples.len() && samples[from].pts < time {
        sample_from(samples, from + 1, time)
    } else {
        from
    }
}

/// The part of a subtitle track that a segment shows.
#[derive(Debug, Clone)]
pub struct SubtitleWindow {
    pub track: usize,
    /// The start of the segment, in ticks of the stream.
    pub start: i128,
    /// The end of the segment, in ticks of the stream.
    pub end: i128,
    pub start_ms: i64,
    pub end_ms: i64,
    /// The times of the subtitles to be read.
    pub expected: Vec<i64>,
    /// Where reading starts, in microseconds.
    pub seek_us: i64,
    /// The first timestamp of the stream.
    pub start_time: i64,
    pub timebase: Rational,
}

/// The times of the subtitles of a segment: from the first candidate up to its end.
pub open spec fn expected_times(s: SubtitleStreamInfo, start: int, end: int) -> Seq<i64> {
    let from = first_candidate(s, start);
    let to = sample_from(s.sample_index@, from, end);
    Seq::new((to - from) as nat, |i: int| s.sample_index@[from + i].pts)
}

/// The window is the one of the segments from `first` to `last` of the track `s`.
pub open spec fn is_window(
    w: SubtitleWindow,
    s: SubtitleStreamInfo,
    track: usize,
    video_timebase: Rational,
    first: SegmentInfo,
    last: SegmentInfo,
) -> bool {
    &&& w.track == track
    &&& w.start == in_stream_time(first.start_pts, video_timebase, s)
    &&& w.end == in_stream_time(last.end_pts, video_timebase, s)
    &&& w.start_ms == rescaled(first.start_pts as int, video_timebase, Rational(1, 1000))
    &&& w.end_ms == rescaled(last.end_pts as int, video_timebase, Rational(1, 1000))
    &&& w.expected@ == expected_times(s, w.start as int, w.end as int)
    &&& w.seek_us == if w.expected@.len() > 0 {
        rescaled(w.expected@[0] as int, s.timebase, Rational(1, 1_000_000))
    } else {
        0
    }
    &&& w.start_time == s.start_time
    &&& w.timebase == s.timebase
}

fn find_sample(samples: &Vec<SubtitleSampleRef>, from: usize, time: i128) -> (pos: usize)
    requires
        from <= samples@.len(),
    ensures
        pos == sample_from(samples@, from as int, time as int),
        from <= pos <= samples@.len(),
{
    let mut pos: usize = from;
    while pos < samples.len() && (samples[pos].pts as i128) < time
        invariant
            from <= pos <= samples@.len(),
            sample_from(samples@, pos as int, time as int) == sample_from(
                samples@,
                from as int,
                time as int,
            ),
        decreases samples.len() - pos,
    {
        pos += 1;
    }
    pos
}

fn make_window(
    s: &SubtitleStreamInfo,
    track: usize,
    video_timebase: Rational,
    first: &SegmentInfo,
    last: &SegmentInfo,
) -> (w: SubtitleWindow)
    ensures
        is_window(w, *s, track, video_timebase, *first, *last),
{
    let start: i128 = rescale_ts(first.start_pts, video_timebase, s.timebase) as i128
        + s.start_time as i128;
    let end: i128 = rescale_ts(last.end_pts, video_timebase, s.timebase) as i128
        + s.start_time as i128;
    let slack: i64 = rescale_ts(10, Rational(1, 1), s.timebase);
    let from: usize = find_sample(&s.sample_index, 0, start - slack as i128);
    let to: usize = find_sample(&s.sample_index, from, end);
    let mut expected: Vec<i64> = Vec::new();
    let mut i: usize = from;
    while i < to
        invariant
            from <= i <= to <= s.sample_index@.len(),
            expected@.len() == i - from,
            forall|k: int| 0 <= k < expected@.len() ==> expected@[k] == s.sample_index@[from + k].pts,
        decreases to - i,
    {
        expected.push(s.sample_index[i].pts);
        i += 1;
    }
    assert(expected@ =~= expected_times(*s, start as int, end as int));
    let seek_us: i64 = if expected.len() > 0 {
        rescale_ts(expected[0], s.timebase, Rational(1, 1_000_000))
    } else {
        0
    };
    SubtitleWindow {
        track,
        start,
        end,
        start_ms: rescale_ts(first.start_pts, video_timebase, Rational(1, 1000)),
        end_ms: rescale_ts(last.end_pts, video_timebase, Rational(1, 1000)),
        expected,
        seek_us,
        start_time: s.start_time,
        timebase: s.timebase,
    }
}

/// Prepares the segment of subtitles that covers the segments from `start_sequence` to
/// `end_sequence`. Without expected subtitles there is nothing to read.
pub fn plan_subtitle_segment(
    index: &StreamIndex,
    track_index: usize,
    start_sequence: usize,
    end_sequence: usize,
) -> (r: Result<SubtitleWindow>)
    ensures
        match (
            segment_index(index.segments@, start_sequence),
            segment_index(index.segments@, end_sequence),
            subtitle_index(index.subtitle_streams@, track_index),
        ) {
            (None, _, _) => r matches Err(HlsError::SegmentNotFound {
                stream_id,
                segment_type,
                sequence,
            }) && stream_id@ == index.stream_id@ && segment_type@ == "subtitle"@ && sequence
                == start_sequence,
            (Some(_), None, _) => r matches Err(HlsError::SegmentNotFound {
                stream_id,
                segment_type,
                sequence,
            }) && stream_id@ == index.stream_id@ && segment_type@ == "subtitle"@ && sequence
                == end_sequence,
            (Some(_), Some(_), None) => r matches Err(HlsError::StreamNotFound(m)) && m@
                == not_found_text("subtitle"@, track_index),
            (Some(a), Some(b), Some(i)) => {
                let s = index.subtitle_streams@[i];
                match bitmap_name(s.codec_id) {
                    Some(name) => r matches Err(HlsError::Muxing(m)) && m@ == bitmap_text(
                        track_index,
                        name,
                    ),
                    None => r matches Ok(w) && is_window(
                        w,
                        s,
                        track_index,
                        index.video_timebase,
                        index.segments@[a],
                        index.segments@[b],
                    ),
                }
            },
        },
{
    let first: &SegmentInfo = match index.get_segment("subtitle", start_sequence) {
        Ok(s) => s,
        Err(e) => {
            return Err(e);
        },
    };
    let last: &SegmentInfo = match index.get_segment("subtitle", end_sequence) {
        Ok(s) => s,
        Err(e) => {
            return Err(e);
        },
    };
    let s: &SubtitleStreamInfo = match index.get_subtitle_stream(track_index) {
        Ok(s) => s,
        Err(e) => {
            return Err(e);
        },
    };
    if let Some(name) = find_bitmap_name(s.codec_id) {
        let mut m: String = "Subtitle stream ".to_owned();
        push_decimal(&mut m, track_index as u64);
        m.push_str(" uses a bitmap codec (");
        m.push_str(name);
        m.push_str(") which cannot be converted to WebVTT");
        return Err(HlsError::Muxing(m));
    }
    Ok(make_window(s, track_index, index.video_timebase, first, last))
}

/// A number as a signed 64-bit one, modulo 2^64.
pub open spec fn wrapped64(x: int) -> int {
    (x + 0x8000_0000_0000_0000) % 0x1_0000_0000_0000_0000 - 0x8000_0000_0000_0000
}

/// The nearest signed 64-bit number.
pub open spec fn saturated64(x: int) -> int {
    if x > i64::MAX {
        i64::MAX as int
    } else if x < i64::MIN {
        i64::MIN as int
    } else {
        x
    }
}

/// What is done with a packet of a file while subtitles are read.
#[derive(Debug, Clone, Copy, PartialEq, Eq, Structural)]
pub enum CueStep {
    /// It is no subtitle of the segment.
    Skip,
    /// It lies behind the segment, and so does all that follows.
    Stop,
    /// It is a subtitle of the segment, shown at `pts` on the timeline of the video; nothing
    /// more is expected behind the `last` one.
    Take { pts: i64, last: bool },
}

/// The reading of the subtitles of a segment.
#[derive(Debug)]
pub struct SubtitleReader {
    pub window: SubtitleWindow,
    /// The first timestamp of the video, in ticks of the subtitle stream.
    pub video_start: i64,
    /// The times of the subtitles that were not met yet.
    pub remaining: HashSet<i64>,
}

/// The time of a subtitle on the timeline of the video.
pub open spec fn aligned_time(w: SubtitleWindow, video_start: i64, pts: i64) -> i64 {
    wrapped64(saturated64(pts - w.start_time) + video_start) as i64
}

/// The first timestamp of a stream, 0 if it is not known.
pub open spec fn known_start(start: Option<i64>) -> int {
    match start {
        Some(t) => if t == i64::MIN {
            0
        } else {
            t as int
        },
        None => 0,
    }
}

fn align_time(w: &SubtitleWindow, video_start: i64, pts: i64) -> (t: i64)
    ensures
        t == aligned_time(*w, video_start, pts),
{
    let mut d: i128 = pts as i128 - w.start_time as i128;
    if d > i64::MAX as i128 {
        d = i64::MAX as i128;
    } else if d < i64::MIN as i128 {
        d = i64::MIN as i128;
    }
    let mut t: i128 = d + video_start as i128;
    if t > i64::MAX as i128 {
        t = t - 0x1_0000_0000_0000_0000;
    } else if t < i64::MIN as i128 {
        t = t + 0x1_0000_0000_0000_0000;
    }
    t as i64
}

impl SubtitleReader {
    /// Starts reading. `video_start_time` is the first timestamp of the video stream.
    pub fn new(
        window: SubtitleWindow,
        video_start_time: Option<i64>,
        video_timebase: Rational,
    ) -> (reader: Self)
        ensures
            reader.window == window,
            reader.video_start == rescaled(
                known_start(video_start_time),
                video_timebase,
                window.timebase,
            ),
            reader.remaining@ == window.expected@.to_set(),
    {
        let start: i64 = match video_start_time {
            Some(t) => if t == i64::MIN {
                0
            } else {
                t
            },
            None => 0,
        };
        let mut remaining: HashSet<i64> = HashSet::new();
        let mut i: usize = 0;
        assert(remaining@ =~= window.expected@.take(0).to_set());
        while i < window.expected.len()
            invariant
                i <= window.expected@.len(),
                remaining@ == window.expected@.take(i as int).to_set(),
            decreases window.expected.len() - i,
        {
            proof {
                let t = window.expected@.take(i as int);
                let u = window.expected@.take(i + 1);
                assert(u =~= t.push(window.expected@[i as int]));
                assert forall|x: i64| u.to_set().contains(x) == t.to_set().insert(
                    window.expected@[i as int],
                ).contains(x) by {
                    if t.contains(x) {
                        let k = t.index_of(x);
                        assert(u[k] == x);
                    }
                    if x == window.expected@[i as int] {
                        assert(u[i as int] == x);
                    }
                    if u.contains(x) {
                        let k = u.index_of(x);
                        if k < i {
                            assert(t[k] == x);
                        }
                    }
                }
                assert(u.to_set() =~= t.to_set().insert(window.expected@[i as int]));
            }
            remaining.insert(window.expected[i]);
            i += 1;
        }
        assert(window.expected@.take(window.expected@.len() as int) =~= window.expected@);
        let video_start: i64 = rescale_ts(start, video_timebase, window.timebase);
        SubtitleReader { window, video_start, remaining }
    }

    /// Decides on a packet.
    pub fn on_packet(&mut self, stream: usize, pts: Option<i64>) -> (step: CueStep)
        ensures
            ({
                let w = old(self).window;
                let t = match pts {
                    Some(t) => t,
                    None => 0,
                };
                let left = old(self).remaining@.remove(t);
                if stream != w.track {
                    step == CueStep::Skip && *final(self) == *old(self)
                } else if t >= w.end {
                    step == CueStep::Stop && *final(self) == *old(self)
                } else if t < w.start {
                    step == CueStep::Skip && *final(self) == *old(self)
                } else {
                    &&& step == CueStep::Take {
                        pts: aligned_time(w, old(self).video_start, t),
                        last: left == Set::<i64>::empty(),
                    }
                    &&& final(self).window == w
                    &&& final(self).video_start == old(self).video_start
                    &&& final(self).remaining@ == left
                }
            }),
    {
        let t: i64 = match pts {
            Some(t) => t,
            None => 0,
        };
        if stream != self.window.track {
            return CueStep::Skip;
        }
        if t as i128 >= self.window.end {
            return CueStep::Stop;
        }
        if (t as i128) < self.window.start {
            return CueStep::Skip;
        }
        self.remaining.remove(&t);
        let last: bool = self.remaining.is_empty();
        proof {
            let left = self.remaining@;
            assert(left.is_empty() == (left == Set::<i64>::empty())) by {
                if left.is_empty() {
                    assert(left =~= Set::<i64>::empty());
                }
            }
        }
        CueStep::Take { pts: align_time(&self.window, self.video_start, t), last }
    }
}

/// A subtitle: when it is shown, in milliseconds, and its text.
#[derive(Debug, Clone)]
pub struct Cue {
    pub start_ms: i64,
    pub end_ms: i64,
    pub text: String,
}

/// A subtitle as a value.
pub struct CueView {
    pub start_ms: i64,
    pub end_ms: i64,
    pub text: Seq<char>,
}

impl View for Cue {
    type V = CueView;

    open spec fn view(&self) -> CueView {
        CueView { start_ms: self.start_ms, end_ms: self.end_ms, text: self.text@ }
    }
}

/// A subtitle cut to the bounds of a segment.
pub open spec fn clamped(c: CueView, start_ms: i64, end_ms: i64) -> CueView {
    CueView {
        start_ms: if c.start_ms < start_ms {
            start_ms
        } else {
            c.start_ms
        },
        end_ms: if c.end_ms > end_ms {
            end_ms
        } else {
            c.end_ms
        },
        text: c.text,
    }
}

/// Subtitles as values.
pub open spec fn cue_views(cues: Seq<Cue>) -> Seq<CueView> {
    cues.map_values(|c: Cue| c@)
}

/// The subtitles of a segment, cut to its bounds, without those of which nothing is left.
pub open spec fn cues_within(cues: Seq<CueView>, start_ms: i64, end_ms: i64) -> Seq<CueView> {
    cues.map_values(|c: CueView| clamped(c, start_ms, end_ms)).filter(
        |c: CueView| c.start_ms < c.end_ms,
    )
}

/// Cuts subtitles to the bounds of a segment.
pub fn clamp_cues(cues: Vec<Cue>, start_ms: i64, end_ms: i64) -> (out: Vec<Cue>)
    ensures
        cue_views(out@) == cues_within(cue_views(cues@), start_ms, end_ms),
{
    let mut out: Vec<Cue> = Vec::new();
    let ghost all = cue_views(cues@).map_values(|c: CueView| clamped(c, start_ms, end_ms));
    let ghost p = |c: CueView| c.start_ms < c.end_ms;
    let mut i: usize = 0;
    proof {
        reveal(Seq::filter);
        assert(cue_views(out@) =~= all.take(0).filter(p));
    }
    while i < cues.len()
        invariant
            i <= cues@.len(),
            p == (|c: CueView| c.start_ms < c.end_ms),
            all == cue_views(cues@).map_values(|c: CueView| clamped(c, start_ms, end_ms)),
            cue_views(out@) == all.take(i as int).filter(p),
        decreases cues.len() - i,
    {
        proof {
            reveal(Seq::filter);
            assert(all.take(i + 1).drop_last() =~= all.take(i as int));
            assert(all.take(i + 1).last() == clamped(cues@[i as int]@, start_ms, end_ms));
        }
        let start: i64 = if cues[i].start_ms < start_ms {
            start_ms
        } else {
            cues[i].start_ms
        };
        let end: i64 = if cues[i].end_ms > end_ms {
            end_ms
        } else {
            cues[i].end_ms
        };
        if start < end {
            let ghost before = out@;
            out.push(Cue { start_ms: start, end_ms: end, text: cues[i].text.clone() });
            assert(cue_views(out@) =~= cue_views(before).push(
                clamped(cues@[i as int]@, start_ms, end_ms),
            ));
        }
        i += 1;
    }
    assert(all.take(all.len() as int) =~= all);
    out
}

/// Every subtitle of a segment is shown for some time, within the segment.
pub proof fn law_cues_within_bounds(cues: Seq<CueView>, start_ms: i64, end_ms: i64, i: int)
    requires
        0 <= i < cues_within(cues, start_ms, end_ms).len(),
    ensures
        ({
            let c = cues_within(cues, start_ms, end_ms)[i];
            start_ms <= c.start_ms < c.end_ms <= end_ms
        }),
    decreases cues.len(),
{
    reveal(Seq::filter);
    let f = |c: CueView| clamped(c, start_ms, end_ms);
    let p = |c: CueView| c.start_ms < c.end_ms;
    if cues.len() > 0 {
        assert(cues.map_values(f).drop_last() =~= cues.drop_last().map_values(f));
        let before = cues_within(cues.drop_last(), start_ms, end_ms);
        if i < before.len() {
            law_cues_within_bounds(cues.drop_last(), start_ms, end_ms, i);
        }
    }
}

} // verus!
