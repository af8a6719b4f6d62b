//! What is shown in a segment of subtitles, said of the moments at which it is shown.

use vstd::prelude::*;
use crate::media::{SegmentInfo, SubtitleSampleRef, SubtitleStreamInfo};
use crate::text::{decimal, padded};
use crate::timebase::{rescaled, Rational};
use crate::url_grammar::{is_digit, number};
use crate::url_laws::law_decimal_reads_back;
use super::subtitles::{
    clamped, cues_within, first_candidate, is_window, sample_from, CueView, SubtitleWindow,
};
use super::webvtt::{cue_time, cues_text, two_digits};

verus! {

/// A subtitle is shown at a moment.
pub open spec fn is_shown_at(c: CueView, ms: int) -> bool {
    c.start_ms <= ms < c.end_ms
}

/// The subtitles of `out` are what is left of those of `cues` at the positions `from`: with the
/// same texts, in the same order, and shown at exactly those moments of the segment at which they
/// were shown before. Those at other positions are shown at no moment of the segment.
pub open spec fn are_cut(
    cues: Seq<CueView>,
    out: Seq<CueView>,
    from: Seq<int>,
    start_ms: i64,
    end_ms: i64,
) -> bool {
    &&& from.len() == out.len()
    &&& forall|k: int| 0 <= k < from.len() ==> 0 <= #[trigger] from[k] < cues.len()
    &&& forall|k: int, l: int| 0 <= k < l < from.len() ==> from[k] < from[l]
    &&& forall|k: int|
        0 <= k < out.len() ==> (#[trigger] out[k]).text == cues[from[k]].text && out[k].start_ms
            < out[k].end_ms
    &&& forall|k: int, ms: int|
        0 <= k < out.len() ==> #[trigger] is_shown_at(out[k], ms) == (start_ms <= ms < end_ms
            && is_shown_at(cues[from[k]], ms))
    &&& forall|i: int, ms: int|
        0 <= i < cues.len() && !from.contains(i) && start_ms <= ms < end_ms ==> !#[trigger]
            is_shown_at(cues[i], ms)
}

proof fn lemma_cut_one_more(cues: Seq<CueView>, start_ms: i64, end_ms: i64)
    requires
        cues.len() > 0,
    ensures
        ({
            let before = cues_within(cues.drop_last(), start_ms, end_ms);
            let c = clamped(cues.last(), start_ms, end_ms);
            cues_within(cues, start_ms, end_ms) == if c.start_ms < c.end_ms {
                before.push(c)
            } else {
                before
            }
        }),
{
    reveal(Seq::filter);
    let f = |c: CueView| clamped(c, start_ms, end_ms);
    assert(cues.map_values(f).drop_last() =~= cues.drop_last().map_values(f));
}

/// The positions of the subtitles of which something is left.
spec fn left_positions(cues: Seq<CueView>, start_ms: i64, end_ms: i64) -> Seq<int>
    decreases cues.len(),
{
    if cues.len() == 0 {
        Seq::empty()
    } else {
        let before = left_positions(cues.drop_last(), start_ms, end_ms);
        let c = clamped(cues.last(), start_ms, end_ms);
        if c.start_ms < c.end_ms {
            before.push(cues.len() - 1)
        } else {
            before
        }
    }
}

proof fn lemma_cut(cues: Seq<CueView>, start_ms: i64, end_ms: i64)
    ensures
        are_cut(
            cues,
            cues_within(cues, start_ms, end_ms),
            left_positions(cues, start_ms, end_ms),
            start_ms,
            end_ms,
        ),
    decreases cues.len(),
{
    let out = cues_within(cues, start_ms, end_ms);
    let from = left_positions(cues, start_ms, end_ms);
    if cues.len() == 0 {
        reveal(Seq::filter);
    } else {
        let before = cues.drop_last();
        let n = cues.len() - 1;
        let c = clamped(cues.last(), start_ms, end_ms);
        let out0 = cues_within(before, start_ms, end_ms);
        let from0 = left_positions(before, start_ms, end_ms);
        lemma_cut(before, start_ms, end_ms);
        lemma_cut_one_more(cues, start_ms, end_ms);
        assert(cues[n] == cues.last());
        assert forall|k: int| 0 <= k < out.len() implies (#[trigger] out[k]).text
            == cues[from[k]].text && out[k].start_ms < out[k].end_ms by {
            if k < out0.len() {
                assert(out[k] == out0[k] && from[k] == from0[k]);
                assert(cues[from0[k]] == before[from0[k]]);
            }
        }
        assert forall|k: int, ms: int| 0 <= k < out.len() implies #[trigger] is_shown_at(
            out[k],
            ms,
        ) == (start_ms <= ms < end_ms && is_shown_at(cues[from[k]], ms)) by {
            if k < out0.len() {
                assert(out[k] == out0[k] && from[k] == from0[k]);
                assert(cues[from0[k]] == before[from0[k]]);
                assert(is_shown_at(out0[k], ms) == (start_ms <= ms < end_ms && is_shown_at(
                    before[from0[k]],
                    ms,
                )));
            }
        }
        assert forall|i: int, ms: int|
            0 <= i < cues.len() && !from.contains(i) && start_ms <= ms < end_ms implies
            !#[trigger] is_shown_at(cues[i], ms) by {
            if i < n {
                assert(cues[i] == before[i]);
                if from0.contains(i) {
                    let k = from0.index_of(i);
                    assert(from[k] == i);
                }
                assert(!is_shown_at(before[i], ms));
            } else if c.start_ms < c.end_ms {
                assert(from[from0.len() as int] == n);
            }
        }
    }
}

/// The subtitles of a segment are what of the given ones is shown in it: each at exactly the
/// moments of the segment at which it was shown before, with its text and in order; one is left
/// out only if it is shown at no moment of the segment.
pub proof fn law_cues_are_cut(cues: Seq<CueView>, start_ms: i64, end_ms: i64)
    ensures
        exists|from: Seq<int>| #[trigger]
            are_cut(cues, cues_within(cues, start_ms, end_ms), from, start_ms, end_ms),
{
    lemma_cut(cues, start_ms, end_ms);
}

/// Ten to the power of `n`.
pub open spec fn ten_to(n: nat) -> nat
    decreases n,
{
    if n == 0 {
        1
    } else {
        10 * ten_to((n - 1) as nat)
    }
}

proof fn lemma_padded(n: nat, width: nat)
    ensures
        padded(n, width).len() == width,
        number(padded(n, width)) == n % ten_to(width),
        ten_to(width) > 0,
        forall|i: int| 0 <= i < width ==> is_digit(#[trigger] padded(n, width)[i]),
    decreases width,
{
    if width > 0 {
        let w = (width - 1) as nat;
        lemma_padded(n / 10, w);
        let s = padded(n, width);
        assert(s.drop_last() =~= padded(n / 10, w));
        let t = ten_to(w) as int;
        assert(n as int % (10 * t) == n as int % 10 + 10 * ((n as int / 10) % t)) by {
            vstd::arithmetic::div_mod::lemma_mod_breakdown(n as int, 10, t);
        }
        assert forall|i: int| 0 <= i < width implies is_digit(#[trigger] s[i]) by {
            if i < w {
                assert(s[i] == padded(n / 10, w)[i]);
            }
        }
    }
}

proof fn lemma_time_adds_up(t: nat)
    ensures
        (t / 3_600_000) * 3_600_000 + (t / 60_000 % 60) * 60_000 + (t / 1000 % 60) * 1000 + t % 1000
            == t,
{
}

proof fn lemma_padded2(n: nat)
    requires
        n < 100,
    ensures
        padded(n, 2).len() == 2,
        number(padded(n, 2)) == n,
{
    lemma_padded(n, 2);
    assert(ten_to(2) == 100) by {
        reveal_with_fuel(ten_to, 3);
    }
}

proof fn lemma_padded3(n: nat)
    requires
        n < 1000,
    ensures
        padded(n, 3).len() == 3,
        number(padded(n, 3)) == n,
{
    lemma_padded(n, 3);
    assert(ten_to(3) == 1000) by {
        reveal_with_fuel(ten_to, 4);
    }
}

proof fn lemma_hours(n: nat)
    ensures
        two_digits(n).len() >= 2,
        number(two_digits(n)) == n,
{
    law_decimal_reads_back(n);
    if n < 100 {
        lemma_padded2(n);
    }
    if n >= 10 {
        assert(decimal(n).len() >= 2) by {
            reveal_with_fuel(decimal, 3);
            law_decimal_reads_back(n / 10);
        }
    }
}

/// A time is written as hours, minutes, seconds and milliseconds that add up to it.
pub proof fn law_cue_time_adds_up(ms: int) -> (parts: (Seq<char>, Seq<char>, Seq<char>, Seq<char>))
    requires
        ms >= 0,
    ensures
        ({
            let (h, m, s, f) = parts;
            &&& cue_time(ms) == h + ":"@ + m + ":"@ + s + "."@ + f
            &&& h.len() >= 2 && m.len() == 2 && s.len() == 2 && f.len() == 3
            &&& number(m) < 60 && number(s) < 60
            &&& number(h) * 3_600_000 + number(m) * 60_000 + number(s) * 1000 + number(f) == ms
        }),
{
    let t = ms as nat;
    let (h, m, s, f) = (
        two_digits(t / 3_600_000),
        padded(t / 60_000 % 60, 2),
        padded(t / 1000 % 60, 2),
        padded(t % 1000, 3),
    );
    lemma_hours(t / 3_600_000);
    lemma_padded2(t / 60_000 % 60);
    lemma_padded2(t / 1000 % 60);
    lemma_padded3(t % 1000);
    lemma_time_adds_up(t);
    (h, m, s, f)
}

/// The text of some subtitles is its first line, an empty line, and a block for each subtitle in
/// order: when it is shown, its text, and an empty line.
pub proof fn law_webvtt_blocks(cues: Seq<CueView>, k: int)
    requires
        0 <= k < cues.len(),
    ensures
        cues_text(cues.take(k + 1)) == cues_text(cues.take(k)) + cue_time(cues[k].start_ms as int)
            + " --> "@ + cue_time(cues[k].end_ms as int) + "\n"@ + cues[k].text + "\n\n"@,
        cues_text(cues.take(0)) == Seq::<char>::empty(),
{
    let head = cues.take(k + 1);
    assert(head.drop_last() =~= cues.take(k));
    assert(head.last() == cues[k]);
    assert(cues_text(head) =~= cues_text(cues.take(k)) + cue_time(cues[k].start_ms as int)
        + " --> "@ + cue_time(cues[k].end_ms as int) + "\n"@ + cues[k].text + "\n\n"@);
}

proof fn lemma_sample_from(samples: Seq<SubtitleSampleRef>, from: int, time: int)
    requires
        0 <= from <= samples.len(),
    ensures
        from <= sample_from(samples, from, time) <= samples.len(),
        forall|i: int|
            from <= i < sample_from(samples, from, time) ==> (#[trigger] samples[i]).pts < time,
        sample_from(samples, from, time) < samples.len() ==> samples[sample_from(
            samples,
            from,
            time,
        )].pts >= time,
    decreases samples.len() - from,
{
    if from < samples.len() && samples[from].pts < time {
        lemma_sample_from(samples, from + 1, time);
    }
}

/// The segment of subtitles from one segment to another of the video lies where these do, in
/// ticks of the stream, whose first timestamp counts, and in milliseconds. What is expected in it
/// are the subtitles, in order, that are shown before its end, but not earlier than ten seconds
/// before its start.
pub proof fn law_subtitle_window(
    w: SubtitleWindow,
    s: SubtitleStreamInfo,
    track: usize,
    video_timebase: Rational,
    first: SegmentInfo,
    last: SegmentInfo,
    t: i64,
)
    requires
        is_window(w, s, track, video_timebase, first, last),
        forall|i: int, j: int|
            0 <= i <= j < s.sample_index@.len() ==> s.sample_index@[i].pts <= s.sample_index@[j].pts,
    ensures
        w.track == track,
        w.start == rescaled(first.start_pts as int, video_timebase, s.timebase) + s.start_time,
        w.end == rescaled(last.end_pts as int, video_timebase, s.timebase) + s.start_time,
        w.start_ms == rescaled(first.start_pts as int, video_timebase, Rational(1, 1000)),
        w.end_ms == rescaled(last.end_pts as int, video_timebase, Rational(1, 1000)),
        w.timebase == s.timebase,
        w.start_time == s.start_time,
        w.expected@.contains(t) == (exists|i: int|
            0 <= i < s.sample_index@.len() && (#[trigger] s.sample_index@[i]).pts == t && w.start
                - rescaled(10, Rational(1, 1), s.timebase) <= t < w.end),
        forall|i: int, j: int| 0 <= i <= j < w.expected@.len() ==> w.expected@[i] <= w.expected@[j],
        w.expected@.len() > 0 ==> w.seek_us == rescaled(
            w.expected@[0] as int,
            s.timebase,
            Rational(1, 1_000_000),
        ),
{
    let samples = s.sample_index@;
    let early = w.start - rescaled(10, Rational(1, 1), s.timebase);
    let from = first_candidate(s, w.start as int);
    lemma_sample_from(samples, 0, early);
    let to = sample_from(samples, from, w.end as int);
    lemma_sample_from(samples, from, w.end as int);
    if w.expected@.contains(t) {
        let k = w.expected@.index_of(t);
        let i = from + k;
        assert(samples[i].pts == t);
        assert(samples[from].pts >= early);
        assert(samples[from].pts <= samples[i].pts);
    }
    if exists|i: int|
        0 <= i < samples.len() && (#[trigger] samples[i]).pts == t && early <= t < w.end {
        let i = choose|i: int|
            0 <= i < samples.len() && (#[trigger] samples[i]).pts == t && early <= t < w.end;
        assert(from <= i) by {
            if i < from {
                assert(samples[i].pts < early);
            }
        }
        assert(i < to) by {
            if i >= to {
                assert(samples[to].pts >= w.end);
                assert(samples[to].pts <= samples[i].pts);
            }
        }
        assert(w.expected@[i - from] == t);
    }
}

} // verus!
