//! The cutting of a timeline into segments.

use vstd::prelude::*;
use crate::media::{SegmentInfo, SubtitleStreamInfo};
use crate::search::lemma_filter_is_choice;
use crate::segment::subtitles::in_stream_time;
use crate::timebase::{rescale_ts, rescaled, Rational};

verus! {

/// A picture that a segment can start with.
#[derive(Debug, Clone, Copy, PartialEq, Eq, Structural)]
pub struct KeyFrame {
    /// When it comes, in ticks of the video time base.
    pub pts: i64,
    /// Where it is in the file.
    pub byte_offset: u64,
}

/// How long it is from `start` to `end`, in whole microseconds: nothing if `end` does not lie
/// behind `start`, and no more than fits.
pub open spec fn span(start: int, end: int, timebase: Rational) -> int {
    let us = (end - start) * timebase.0 * 1_000_000 / timebase.1 as int;
    if end <= start || timebase.0 <= 0 || timebase.1 <= 0 {
        0
    } else if us > u64::MAX {
        u64::MAX as int
    } else {
        us
    }
}

/// How long it is from `start` to `end`, in microseconds.
pub fn span_us(start: i64, end: i64, timebase: Rational) -> (us: u64)
    ensures
        us == span(start as int, end as int, timebase),
{
    if end <= start || timebase.0 <= 0 || timebase.1 <= 0 {
        return 0;
    }
    let ticks: i128 = end as i128 - start as i128;
    let factor: i128 = timebase.0 as i128;
    assert(0 <= ticks * factor <= 0x1_0000_0000_0000_0000_0000_0000) by (nonlinear_arith)
        requires
            0 <= ticks <= 0x1_0000_0000_0000_0000,
            0 <= factor <= 0x1_0000_0000,
    ;
    let us: i128 = ticks * factor * 1_000_000 / timebase.1 as i128;
    if us > u64::MAX as i128 {
        u64::MAX
    } else {
        us as u64
    }
}

/// The key frames, among the first `n`, at which a segment starts: the first one, and each that
/// comes at least `min_us` microseconds behind the last such.
pub open spec fn cuts(keys: Seq<KeyFrame>, timebase: Rational, min_us: u64, n: int) -> Seq<int>
    decreases n,
{
    if n <= 0 {
        seq![]
    } else {
        let before = cuts(keys, timebase, min_us, n - 1);
        if before.len() == 0 || span(
            keys[before.last()].pts as int,
            keys[n - 1].pts as int,
            timebase,
        ) >= min_us {
            before.push(n - 1)
        } else {
            before
        }
    }
}

/// The segment that starts at a key frame and ends at `end`.
pub open spec fn segment_at(
    key: KeyFrame,
    end: int,
    sequence: int,
    timebase: Rational,
) -> SegmentInfo {
    SegmentInfo {
        sequence: sequence as usize,
        start_pts: key.pts,
        end_pts: end as i64,
        duration_us: span(key.pts as int, end, timebase) as u64,
        is_keyframe: true,
        video_byte_offset: key.byte_offset,
    }
}

/// The segments of a timeline that ends at `end`: each lasts up to the next.
pub open spec fn timeline(
    keys: Seq<KeyFrame>,
    end: i64,
    timebase: Rational,
    min_us: u64,
) -> Seq<SegmentInfo> {
    let at = cuts(keys, timebase, min_us, keys.len() as int);
    Seq::new(
        at.len(),
        |i: int|
            segment_at(
                keys[at[i]],
                if i + 1 < at.len() {
                    keys[at[i + 1]].pts as int
                } else {
                    end as int
                },
                i,
                timebase,
            ),
    )
}

/// The cuts are at ascending key frames below `n`, the first one among them, and at least
/// `min_us` microseconds apart.
spec fn are_apart(
    at: Seq<int>,
    keys: Seq<KeyFrame>,
    timebase: Rational,
    min_us: u64,
    n: int,
) -> bool {
    &&& at.len() <= n
    &&& n > 0 ==> at.len() > 0 && at[0] == 0
    &&& forall|i: int| 0 <= i < at.len() ==> 0 <= #[trigger] at[i] < n
    &&& forall|i: int|
        0 < i < at.len() ==> at[i - 1] < #[trigger] at[i] && span(
            keys[at[i - 1]].pts as int,
            keys[at[i]].pts as int,
            timebase,
        ) >= min_us
}

proof fn lemma_cuts(keys: Seq<KeyFrame>, timebase: Rational, min_us: u64, n: int)
    requires
        0 <= n <= keys.len(),
    ensures
        are_apart(cuts(keys, timebase, min_us, n), keys, timebase, min_us, n),
    decreases n,
{
    if n > 0 {
        lemma_cuts(keys, timebase, min_us, n - 1);
    }
}

/// Cuts a timeline into segments of at least `min_us` microseconds, but for the last.
pub fn cut_segments(keys: &[KeyFrame], end: i64, timebase: Rational, min_us: u64) -> (segments: Vec<
    SegmentInfo,
>)
    ensures
        segments@ == timeline(keys@, end, timebase, min_us),
{
    let mut at: Vec<usize> = Vec::new();
    let mut n: usize = 0;
    while n < keys.len()
        invariant
            n <= keys@.len(),
            at@.map_values(|i: usize| i as int) == cuts(keys@, timebase, min_us, n as int),
            forall|i: int| 0 <= i < at@.len() ==> (#[trigger] at@[i]) < n,
        decreases keys.len() - n,
    {
        let starts: bool = at.len() == 0 || span_us(
            keys[at[at.len() - 1]].pts,
            keys[n].pts,
            timebase,
        ) >= min_us;
        proof {
            let before = cuts(keys@, timebase, min_us, n as int);
            assert(before.len() == at@.len());
            if at@.len() > 0 {
                assert(before.last() == at@.last());
            }
            assert(at@.push(n).map_values(|i: usize| i as int) =~= before.push(n as int));
        }
        if starts {
            at.push(n);
        }
        n += 1;
    }
    let ghost all = cuts(keys@, timebase, min_us, keys@.len() as int);
    assert(forall|i: int| 0 <= i < at@.len() ==> all[i] == #[trigger] at@[i]);
    let mut segments: Vec<SegmentInfo> = Vec::new();
    let mut i: usize = 0;
    while i < at.len()
        invariant
            i <= at@.len(),
            all == cuts(keys@, timebase, min_us, keys@.len() as int),
            all.len() == at@.len(),
            forall|i: int|
                0 <= i < at@.len() ==> (#[trigger] at@[i]) < keys@.len() && all[i] == at@[i],
            segments@ =~= timeline(keys@, end, timebase, min_us).take(i as int),
        decreases at.len() - i,
    {
        let key: KeyFrame = keys[at[i]];
        let until: i64 = if i + 1 < at.len() {
            keys[at[i + 1]].pts
        } else {
            end
        };
        segments.push(
            SegmentInfo {
                sequence: i,
                start_pts: key.pts,
                end_pts: until,
                duration_us: span_us(key.pts, until, timebase),
                is_keyframe: true,
                video_byte_offset: key.byte_offset,
            },
        );
        i += 1;
    }
    segments
}

/// The segments lie one behind the other: they are numbered from 0, the first one starts with
/// the first key frame, each ends where the next one starts, and the last one ends at the end.
/// All but the last are at least as long as asked for.
pub proof fn law_timeline_is_seamless(
    keys: Seq<KeyFrame>,
    end: i64,
    timebase: Rational,
    min_us: u64,
)
    requires
        0 < keys.len() <= usize::MAX,
    ensures
        ({
            let s = timeline(keys, end, timebase, min_us);
            &&& s.len() > 0
            &&& s[0].start_pts == keys[0].pts
            &&& s.last().end_pts == end
            &&& forall|i: int| 0 <= i < s.len() ==> (#[trigger] s[i]).sequence == i
            &&& forall|i: int| 0 < i < s.len() ==> s[i - 1].end_pts == (#[trigger] s[i]).start_pts
            &&& forall|i: int| 0 <= i < s.len() - 1 ==> (#[trigger] s[i]).duration_us >= min_us
        }),
{
    let at = cuts(keys, timebase, min_us, keys.len() as int);
    lemma_cuts(keys, timebase, min_us, keys.len() as int);
    let s = timeline(keys, end, timebase, min_us);
    assert forall|i: int| 0 <= i < s.len() - 1 implies (#[trigger] s[i]).duration_us >= min_us by {
        assert(at[i + 1 - 1] < at[i + 1]);
    }
}

/// A subtitle comes in a segment if its time lies in it.
pub open spec fn comes_in(
    s: SubtitleStreamInfo,
    k: int,
    segment: SegmentInfo,
    video_timebase: Rational,
) -> bool {
    in_stream_time(segment.start_pts, video_timebase, s) <= s.sample_index@[k].pts
        < in_stream_time(segment.end_pts, video_timebase, s)
}

/// Whether any subtitle of a track comes in a segment.
pub open spec fn shows_any(
    s: SubtitleStreamInfo,
    segment: SegmentInfo,
    video_timebase: Rational,
) -> bool {
    exists|k: int| 0 <= k < s.sample_index@.len() && #[trigger] comes_in(s, k, segment, video_timebase)
}

fn find_any(s: &SubtitleStreamInfo, segment: &SegmentInfo, video_timebase: Rational) -> (found: bool)
    ensures
        found == shows_any(*s, *segment, video_timebase),
{
    let start: i128 = rescale_ts(segment.start_pts, video_timebase, s.timebase) as i128
        + s.start_time as i128;
    let end: i128 = rescale_ts(segment.end_pts, video_timebase, s.timebase) as i128
        + s.start_time as i128;
    let mut k: usize = 0;
    while k < s.sample_index.len()
        invariant
            k <= s.sample_index@.len(),
            start == in_stream_time(segment.start_pts, video_timebase, *s),
            end == in_stream_time(segment.end_pts, video_timebase, *s),
            forall|j: int| 0 <= j < k ==> !comes_in(*s, j, *segment, video_timebase),
        decreases s.sample_index.len() - k,
    {
        let pts: i128 = s.sample_index[k].pts as i128;
        if start <= pts && pts < end {
            assert(comes_in(*s, k as int, *segment, video_timebase));
            return true;
        }
        k += 1;
    }
    false
}

/// The numbers of the segments in which a subtitle of a track comes.
pub open spec fn shown_sequences(
    s: SubtitleStreamInfo,
    segments: Seq<SegmentInfo>,
    video_timebase: Rational,
) -> Seq<usize> {
    segments.filter(|g: SegmentInfo| shows_any(s, g, video_timebase)).map_values(
        |g: SegmentInfo| g.sequence,
    )
}

/// Finds the segments in which a subtitle of a track comes.
pub fn find_shown_sequences(
    s: &SubtitleStreamInfo,
    segments: &[SegmentInfo],
    video_timebase: Rational,
) -> (found: Vec<usize>)
    ensures
        found@ == shown_sequences(*s, segments@, video_timebase),
{
    let ghost p = |g: SegmentInfo| shows_any(*s, g, video_timebase);
    let mut found: Vec<usize> = Vec::new();
    let mut i: usize = 0;
    proof {
        reveal(Seq::filter);
        assert(segments@.take(0) =~= seq![]);
    }
    while i < segments.len()
        invariant
            i <= segments@.len(),
            p == (|g: SegmentInfo| shows_any(*s, g, video_timebase)),
            found@ =~= segments@.take(i as int).filter(p).map_values(|g: SegmentInfo| g.sequence),
        decreases segments.len() - i,
    {
        let shown: bool = find_any(s, &segments[i], video_timebase);
        proof {
            reveal(Seq::filter);
            assert(segments@.take(i + 1).drop_last() =~= segments@.take(i as int));
        }
        if shown {
            found.push(segments[i].sequence);
        }
        i += 1;
    }
    assert(segments@.take(i as int) =~= segments@);
    found
}

proof fn lemma_cuts_are_below(keys: Seq<KeyFrame>, timebase: Rational, min_us: u64, n: int)
    requires
        0 <= n <= keys.len(),
    ensures
        forall|i: int|
            0 <= i < cuts(keys, timebase, min_us, n).len() ==> 0 <= #[trigger] cuts(
                keys,
                timebase,
                min_us,
                n,
            )[i] < n,
{
    lemma_cuts(keys, timebase, min_us, n);
}

proof fn lemma_cuts_are_earliest(
    keys: Seq<KeyFrame>,
    timebase: Rational,
    min_us: u64,
    n: int,
    c: int,
    k: int,
)
    requires
        0 <= n <= keys.len(),
        0 <= c < cuts(keys, timebase, min_us, n).len(),
        cuts(keys, timebase, min_us, n)[c] < k < n,
        c + 1 < cuts(keys, timebase, min_us, n).len() ==> k < cuts(keys, timebase, min_us, n)[c
            + 1],
    ensures
        span(
            keys[cuts(keys, timebase, min_us, n)[c]].pts as int,
            keys[k].pts as int,
            timebase,
        ) < min_us,
    decreases n,
{
    let before = cuts(keys, timebase, min_us, n - 1);
    let all = cuts(keys, timebase, min_us, n);
    lemma_cuts_are_below(keys, timebase, min_us, n - 1);
    assert(c < before.len());
    assert(all[c] == before[c]);
    if c + 1 < before.len() {
        assert(all[c + 1] == before[c + 1]);
        assert(before[c + 1] < n - 1);
        lemma_cuts_are_earliest(keys, timebase, min_us, n - 1, c, k);
    } else if k < n - 1 {
        lemma_cuts_are_earliest(keys, timebase, min_us, n - 1, c, k);
    } else {
        assert(before.last() == before[c]);
    }
}

/// A segment starts at the earliest key frame that leaves the one before long enough: no key frame
/// inside a segment lies as far behind its start.
pub proof fn law_segments_are_cut_early(
    keys: Seq<KeyFrame>,
    end: i64,
    timebase: Rational,
    min_us: u64,
    i: int,
    k: int,
)
    requires
        keys.len() <= usize::MAX,
        0 <= i < timeline(keys, end, timebase, min_us).len(),
        0 <= k < keys.len(),
        forall|a: int, b: int| 0 <= a < b < keys.len() ==> keys[a].pts < keys[b].pts,
        timeline(keys, end, timebase, min_us)[i].start_pts < keys[k].pts,
        i + 1 < timeline(keys, end, timebase, min_us).len() ==> keys[k].pts < timeline(
            keys,
            end,
            timebase,
            min_us,
        )[i].end_pts,
    ensures
        span(
            timeline(keys, end, timebase, min_us)[i].start_pts as int,
            keys[k].pts as int,
            timebase,
        ) < min_us,
{
    let n = keys.len() as int;
    let at = cuts(keys, timebase, min_us, n);
    lemma_cuts_are_below(keys, timebase, min_us, n);
    assert(0 <= at[i] < n);
    assert(at[i] < k) by {
        if k < at[i] {
            assert(keys[k].pts < keys[at[i]].pts);
        }
    }
    if i + 1 < at.len() {
        assert(0 <= at[i + 1] < n);
        if at[i + 1] < k {
            assert(keys[at[i + 1]].pts < keys[k].pts);
        }
    }
    lemma_cuts_are_earliest(keys, timebase, min_us, n, i, k);
}

/// How long it is between two times is the number of whole microseconds between them.
pub proof fn law_span_in_microseconds(start: i64, end: i64, timebase: Rational)
    requires
        start < end,
        timebase.0 > 0,
        timebase.1 > 0,
        span(start as int, end as int, timebase) < u64::MAX,
    ensures
        span(start as int, end as int, timebase) * timebase.1 <= (end - start) * timebase.0
            * 1_000_000 < (span(start as int, end as int, timebase) + 1) * timebase.1,
        span(end as int, start as int, timebase) == 0,
{
    let n = (end - start) * timebase.0 * 1_000_000;
    let d = timebase.1 as int;
    let q = n / d;
    vstd::arithmetic::div_mod::lemma_fundamental_div_mod(n, d);
    assert(q * d <= n < (q + 1) * d) by (nonlinear_arith)
        requires
            n == d * q + n % d,
            0 <= n % d < d,
    ;
}

/// A segment counts among those with subtitles if and only if one of the subtitles of the track
/// comes from its start on and before its end.
pub proof fn law_shown_segments(
    s: SubtitleStreamInfo,
    segments: Seq<SegmentInfo>,
    video_timebase: Rational,
    sequence: usize,
)
    ensures
        shown_sequences(s, segments, video_timebase).contains(sequence) == exists|i: int, k: int|
            0 <= i < segments.len() && 0 <= k < s.sample_index@.len() && (
            #[trigger] segments[i]).sequence == sequence && rescaled(
                segments[i].start_pts as int,
                video_timebase,
                s.timebase,
            ) <= (#[trigger] s.sample_index@[k]).pts - s.start_time < rescaled(
                segments[i].end_pts as int,
                video_timebase,
                s.timebase,
            ),
{
    let f = |g: SegmentInfo| shows_any(s, g, video_timebase);
    let p = |i: int| shows_any(s, segments[i], video_timebase);
    let from = lemma_filter_is_choice(segments, f, p);
    let out = segments.filter(f);
    let found = shown_sequences(s, segments, video_timebase);
    if found.contains(sequence) {
        let j = found.index_of(sequence);
        let i = from[j];
        assert(out[j] == segments[i]);
        assert(from.contains(i));
        assert(p(i));
        let k = choose|k: int|
            0 <= k < s.sample_index@.len() && #[trigger] comes_in(s, k, segments[i], video_timebase);
        assert(segments[i].sequence == sequence && 0 <= k < s.sample_index@.len()
            && s.sample_index@[k].pts == s.sample_index@[k].pts);
    }
    if exists|i: int, k: int|
        0 <= i < segments.len() && 0 <= k < s.sample_index@.len() && (
        #[trigger] segments[i]).sequence == sequence && rescaled(
            segments[i].start_pts as int,
            video_timebase,
            s.timebase,
        ) <= (#[trigger] s.sample_index@[k]).pts - s.start_time < rescaled(
            segments[i].end_pts as int,
            video_timebase,
            s.timebase,
        ) {
        let (i, k) = choose|i: int, k: int|
            0 <= i < segments.len() && 0 <= k < s.sample_index@.len() && (
            #[trigger] segments[i]).sequence == sequence && rescaled(
                segments[i].start_pts as int,
                video_timebase,
                s.timebase,
            ) <= (#[trigger] s.sample_index@[k]).pts - s.start_time < rescaled(
                segments[i].end_pts as int,
                video_timebase,
                s.timebase,
            );
        assert(comes_in(s, k, segments[i], video_timebase));
        assert(p(i));
        assert(from.contains(i));
        let j = from.index_of(i);
        assert(out[j] == segments[i]);
        assert(found[j] == sequence);
    }
}

} // verus!
