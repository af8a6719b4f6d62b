//! Subtitles as WebVTT text.

use vstd::prelude::*;
use crate::text::{decimal, padded, push_decimal, push_padded};
use super::subtitles::{cue_views, Cue, CueView};

verus! {

/// A number in decimal, with at least two digits.
pub open spec fn two_digits(n: nat) -> Seq<char> {
    if n < 10 {
        padded(n, 2)
    } else {
        decimal(n)
    }
}

/// A time as hours, minutes, seconds and milliseconds; none is before 0.
pub open spec fn cue_time(ms: int) -> Seq<char> {
    let t = if ms < 0 {
        0
    } else {
        ms as nat
    };
    two_digits(t / 3_600_000) + ":"@ + padded(t / 60_000 % 60, 2) + ":"@ + padded(t / 1000 % 60, 2)
        + "."@ + padded(t % 1000, 3)
}

/// The block of one subtitle: when it is shown, its text, and an empty line.
pub open spec fn cue_text(c: CueView) -> Seq<char> {
    cue_time(c.start_ms as int) + " --> "@ + cue_time(c.end_ms as int) + "\n"@ + c.text + "\n\n"@
}

/// The blocks of some subtitles, in order.
pub open spec fn cues_text(cues: Seq<CueView>) -> Seq<char>
    decreases cues.len(),
{
    if cues.len() == 0 {
        Seq::empty()
    } else {
        cues_text(cues.drop_last()) + cue_text(cues.last())
    }
}

fn push_cue_time(out: &mut String, ms: i64)
    ensures
        final(out)@ == old(out)@ + cue_time(ms as int),
{
    let t: u64 = if ms < 0 {
        0
    } else {
        ms as u64
    };
    let hours: u64 = t / 3_600_000;
    if hours < 10 {
        push_padded(out, hours, 2);
    } else {
        push_decimal(out, hours);
    }
    out.push_str(":");
    push_padded(out, t / 60_000 % 60, 2);
    out.push_str(":");
    push_padded(out, t / 1000 % 60, 2);
    out.push_str(".");
    push_padded(out, t % 1000, 3);
    assert(out@ =~= old(out)@ + cue_time(ms as int));
}

/// Writes subtitles out.
#[verifier::rlimit(30)]
pub fn write_webvtt(cues: &Vec<Cue>) -> (out: String)
    ensures
        out@ == "WEBVTT\n\n"@ + cues_text(cue_views(cues@)),
{
    let mut out: String = "WEBVTT\n\n".to_owned();
    let ghost open = out@;
    let ghost views = cue_views(cues@);
    let mut i: usize = 0;
    assert(open + Seq::<char>::empty() =~= open);
    while i < cues.len()
        invariant
            i <= cues@.len(),
            views == cue_views(cues@),
            out@ == open + cues_text(views.take(i as int)),
        decreases cues.len() - i,
    {
        let c: &Cue = &cues[i];
        proof {
            assert(views.take(i + 1).drop_last() =~= views.take(i as int));
            assert(views.take(i + 1).last() == c@);
        }
        push_cue_time(&mut out, c.start_ms);
        out.push_str(" --> ");
        push_cue_time(&mut out, c.end_ms);
        out.push_str("\n");
        out.push_str(c.text.as_str());
        out.push_str("\n\n");
        assert(out@ =~= open + cues_text(views.take(i + 1)));
        i += 1;
    }
    assert(views.take(views.len() as int) =~= views);
    out
}

} // verus!
