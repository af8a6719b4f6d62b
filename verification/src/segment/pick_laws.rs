//! Which packets make up a segment, said of the packets themselves.

use vstd::prelude::*;
use crate::timebase::{
    is_in_reach, law_rescale_apart, law_rescale_keeps_order, rescaled, Rational,
};
use super::packets::{buffered, picker_at_start, MediaKind, PacketInfo, PickerView};

verus! {

/// The time of a packet: when it is shown, or else when it is decoded, in ticks of its stream.
pub open spec fn time_of(p: PacketInfo) -> i64 {
    match (p.pts, p.dts) {
        (Some(t), _) => t,
        (None, Some(t)) => t,
        (None, None) => 0,
    }
}

/// What a segment is made of.
pub struct Wanted {
    pub kind: MediaKind,
    pub streams: Seq<usize>,
    pub audio_track: Option<usize>,
    /// The end of the segment, in ticks of `timebase`.
    pub end: i64,
    pub timebase: Rational,
}

impl Wanted {
    /// A packet comes from one of the streams: any of them and the audio track for an
    /// interleaved segment, the first one otherwise.
    pub open spec fn has(self, p: PacketInfo) -> bool {
        match self.kind {
            MediaKind::Av => self.audio_track == Some(p.stream_id) || exists|s: int|
                0 <= s < self.streams.len() && #[trigger] self.streams[s] == p.stream_id,
            _ => p.stream_id == self.streams[0],
        }
    }

    /// On the clock of 1/90000 s, a packet does not lie before the end.
    pub open spec fn reached_by(self, p: PacketInfo) -> bool {
        rescaled(time_of(p) as int, p.timebase, Rational(1, 90000)) >= rescaled(
            self.end as int,
            self.timebase,
            Rational(1, 90000),
        )
    }

    /// The picker that starts on the segment.
    pub open spec fn picker(self) -> PickerView {
        picker_at_start(self.kind, self.streams, self.audio_track, self.end, self.timebase)
    }

    /// The packet at `j` is a key frame of the video at or behind the end.
    pub open spec fn closes_video(self, packets: Seq<PacketInfo>, j: int) -> bool {
        self.has(packets[j]) && packets[j].is_video && packets[j].is_key && self.reached_by(
            packets[j],
        )
    }

    /// The packet at `j` is audio at or behind the end, and, in a segment of audio alone, not
    /// its first packet.
    pub open spec fn closes_audio(self, packets: Seq<PacketInfo>, j: int) -> bool {
        self.has(packets[j]) && !packets[j].is_video && self.reached_by(packets[j]) && (
        self.kind is Audio ==> exists|m: int|
            0 <= m < j && self.has(#[trigger] packets[m]) && !packets[m].is_video)
    }

    /// The packet at `i` belongs to the segment: nothing up to it has closed its part.
    pub open spec fn holds(self, packets: Seq<PacketInfo>, i: int) -> bool {
        &&& self.has(packets[i])
        &&& if packets[i].is_video {
            !(self.kind is Audio) && forall|j: int|
                0 <= j <= i ==> !#[trigger] self.closes_video(packets, j)
        } else {
            !(self.kind is Video) && forall|j: int|
                0 <= j <= i ==> !#[trigger] self.closes_audio(packets, j)
        }
    }
}

proof fn lemma_prefix(w: Wanted, packets: Seq<PacketInfo>, j: int)
    requires
        0 <= j < packets.len() - 1,
    ensures
        w.closes_video(packets.drop_last(), j) == w.closes_video(packets, j),
        w.closes_audio(packets.drop_last(), j) == w.closes_audio(packets, j),
{
    let before = packets.drop_last();
    assert(before[j] == packets[j]);
    if w.closes_audio(before, j) && w.kind is Audio {
        let m = choose|m: int|
            0 <= m < j && w.has(#[trigger] before[m]) && !before[m].is_video;
        assert(packets[m] == before[m]);
    }
    if w.closes_audio(packets, j) && w.kind is Audio {
        let m = choose|m: int|
            0 <= m < j && w.has(#[trigger] packets[m]) && !packets[m].is_video;
        assert(packets[m] == before[m]);
    }
}

/// Some packet closes the video.
spec fn video_closed(w: Wanted, packets: Seq<PacketInfo>) -> bool {
    exists|j: int| 0 <= j < packets.len() && #[trigger] w.closes_video(packets, j)
}

/// Some packet closes the audio.
spec fn audio_closed(w: Wanted, packets: Seq<PacketInfo>) -> bool {
    exists|j: int| 0 <= j < packets.len() && #[trigger] w.closes_audio(packets, j)
}

/// Some packet is audio of the segment.
spec fn audio_met(w: Wanted, packets: Seq<PacketInfo>) -> bool {
    exists|m: int| 0 <= m < packets.len() && w.has(#[trigger] packets[m]) && !packets[m].is_video
}

proof fn lemma_closed_so_far(w: Wanted, packets: Seq<PacketInfo>)
    requires
        packets.len() > 0,
    ensures
        video_closed(w, packets) == (video_closed(w, packets.drop_last()) || w.closes_video(
            packets,
            packets.len() - 1,
        )),
        audio_closed(w, packets) == (audio_closed(w, packets.drop_last()) || w.closes_audio(
            packets,
            packets.len() - 1,
        )),
        audio_met(w, packets) == (audio_met(w, packets.drop_last()) || (w.has(packets.last())
            && !packets.last().is_video)),
        w.closes_audio(packets, packets.len() - 1) == (w.has(packets.last())
            && !packets.last().is_video && w.reached_by(packets.last()) && (w.kind is Audio
            ==> audio_met(w, packets.drop_last()))),
{
    let before = packets.drop_last();
    let n = packets.len() - 1;
    if video_closed(w, before) {
        let j = choose|j: int| 0 <= j < before.len() && #[trigger] w.closes_video(before, j);
        lemma_prefix(w, packets, j);
    }
    if audio_closed(w, before) {
        let j = choose|j: int| 0 <= j < before.len() && #[trigger] w.closes_audio(before, j);
        lemma_prefix(w, packets, j);
    }
    if video_closed(w, packets) {
        let j = choose|j: int| 0 <= j < packets.len() && #[trigger] w.closes_video(packets, j);
        if j < n {
            lemma_prefix(w, packets, j);
        }
    }
    if audio_closed(w, packets) {
        let j = choose|j: int| 0 <= j < packets.len() && #[trigger] w.closes_audio(packets, j);
        if j < n {
            lemma_prefix(w, packets, j);
        }
    }
    if audio_met(w, before) {
        let m = choose|m: int|
            0 <= m < before.len() && w.has(#[trigger] before[m]) && !before[m].is_video;
        assert(packets[m] == before[m]);
    }
    if audio_met(w, packets) {
        let m = choose|m: int|
            0 <= m < packets.len() && w.has(#[trigger] packets[m]) && !packets[m].is_video;
        if m < n {
            assert(before[m] == packets[m]);
        }
    }
    assert(packets[n] == packets.last());
    if w.closes_audio(packets, n) && w.kind is Audio {
        let m = choose|m: int|
            0 <= m < n && w.has(#[trigger] packets[m]) && !packets[m].is_video;
        assert(before[m] == packets[m]);
    }
    if w.kind is Audio && audio_met(w, before) {
        let m = choose|m: int|
            0 <= m < before.len() && w.has(#[trigger] before[m]) && !before[m].is_video;
        assert(packets[m] == before[m]);
    }
}

proof fn lemma_held(w: Wanted, packets: Seq<PacketInfo>, i: int)
    requires
        0 <= i < packets.len() - 1,
    ensures
        w.holds(packets.drop_last(), i) == w.holds(packets, i),
{
    let before = packets.drop_last();
    assert(before[i] == packets[i]);
    assert forall|j: int| 0 <= j <= i implies w.closes_video(before, j) == w.closes_video(
        packets,
        j,
    ) && w.closes_audio(before, j) == w.closes_audio(packets, j) by {
        lemma_prefix(w, packets, j);
    }
    if w.holds(before, i) {
        assert forall|j: int| 0 <= j <= i && packets[i].is_video implies !#[trigger] w.closes_video(
            packets,
            j,
        ) by {
            assert(!w.closes_video(before, j));
        }
        assert forall|j: int|
            0 <= j <= i && !packets[i].is_video implies !#[trigger] w.closes_audio(packets, j) by {
            assert(!w.closes_audio(before, j));
        }
    }
    if w.holds(packets, i) {
        assert forall|j: int| 0 <= j <= i && packets[i].is_video implies !#[trigger] w.closes_video(
            before,
            j,
        ) by {
            assert(!w.closes_video(packets, j));
        }
        assert forall|j: int|
            0 <= j <= i && !packets[i].is_video implies !#[trigger] w.closes_audio(before, j) by {
            assert(!w.closes_audio(packets, j));
        }
    }
}

proof fn lemma_last_held(w: Wanted, packets: Seq<PacketInfo>)
    requires
        packets.len() > 0,
    ensures
        ({
            let p = packets.last();
            w.holds(packets, packets.len() - 1) == (w.has(p) && if p.is_video {
                !(w.kind is Audio) && !video_closed(w, packets)
            } else {
                !(w.kind is Video) && !audio_closed(w, packets)
            })
        }),
{
    let n = packets.len() - 1;
    assert(packets[n] == packets.last());
    if w.holds(packets, n) {
        assert forall|j: int| 0 <= j < packets.len() && packets[n].is_video implies
            !#[trigger] w.closes_video(packets, j) by {}
        assert forall|j: int| 0 <= j < packets.len() && !packets[n].is_video implies
            !#[trigger] w.closes_audio(packets, j) by {}
    }
}

#[verifier::rlimit(50)]
proof fn lemma_picker_state(w: Wanted, packets: Seq<PacketInfo>)
    ensures
        ({
            let (kept, stopped, g) = buffered(w.picker(), packets);
            &&& g.kind == w.kind && g.streams == w.streams && g.audio_track == w.audio_track
            &&& g.end_90k == w.picker().end_90k
            &&& g.video_done == (w.kind is Audio || video_closed(w, packets)) || stopped
            &&& g.audio_done == (w.kind is Video || audio_closed(w, packets)) || stopped
            &&& !stopped && w.kind is Audio ==> g.kept_any == audio_met(w, packets)
            &&& stopped ==> (w.kind is Audio || video_closed(w, packets)) && (w.kind is Video
                || audio_closed(w, packets))
            &&& forall|i: int|
                kept.contains(i) == (0 <= i < packets.len() && #[trigger] w.holds(packets, i))
            &&& forall|a: int, b: int| 0 <= a < b < kept.len() ==> kept[a] < kept[b]
            &&& forall|a: int| 0 <= a < kept.len() ==> 0 <= #[trigger] kept[a] < packets.len()
        }),
    decreases packets.len(),
{
    if packets.len() > 0 {
        let before = packets.drop_last();
        let p = packets.last();
        let n = packets.len() - 1;
        lemma_picker_state(w, before);
        lemma_closed_so_far(w, packets);
        lemma_last_held(w, packets);
        let (kept, stopped, g) = buffered(w.picker(), before);
        let (now, stops, h) = buffered(w.picker(), packets);
        assert(w.has(p) == super::packets::is_wanted(g, p.stream_id));
        assert(time_of(p) == super::packets::shown_at(p.pts, p.dts));
        assert(w.reached_by(p) == (super::packets::shown_90k(p) >= g.end_90k)) by {
            lemma_end_fits(w);
        }
        assert forall|i: int| now.contains(i) == (0 <= i < packets.len() && #[trigger] w.holds(
            packets,
            i,
        )) by {
            if 0 <= i < n {
                lemma_held(w, packets, i);
                assert(kept.contains(i) == w.holds(before, i));
                if now.contains(i) {
                    let a = now.index_of(i);
                    assert(a < kept.len());
                    assert(kept[a] == i);
                }
                if kept.contains(i) {
                    let a = kept.index_of(i);
                    assert(now[a] == i);
                }
            } else if i == n {
                if now.len() > kept.len() {
                    assert(now[kept.len() as int] == n);
                } else if now.contains(n) {
                    let a = now.index_of(n);
                    assert(kept[a] == n);
                }
            } else if now.contains(i) {
                let a = now.index_of(i);
                if a < kept.len() {
                    assert(kept[a] == i);
                }
            }
        }
    } else {
        assert forall|i: int| !buffered(w.picker(), packets).0.contains(i) by {}
    }
}

proof fn lemma_end_fits(w: Wanted)
    ensures
        w.picker().end_90k == rescaled(w.end as int, w.timebase, Rational(1, 90000)),
{
    let out = rescaled(w.end as int, w.timebase, Rational(1, 90000));
    let (f, d) = (w.timebase.0 * 90000, 1 * w.timebase.1);
    if d > 0 && f >= 0 {
        let m = if w.end == i64::MIN {
            i64::MAX as int
        } else if w.end < 0 {
            -w.end
        } else {
            w.end as int
        };
        assert((m * f + d / 2) / d >= 0) by (nonlinear_arith)
            requires
                m >= 0,
                f >= 0,
                d > 0,
        ;
    }
    assert(i64::MIN <= out <= i64::MAX);
}

/// A segment holds exactly the packets of its streams that come before their part is closed: the
/// video by a key frame at or behind the end, the audio by a packet there. A segment of audio
/// alone holds its first packet in any case. They come in the order of the file.
pub proof fn law_segment_holds(w: Wanted, packets: Seq<PacketInfo>)
    ensures
        ({
            let kept = buffered(w.picker(), packets).0;
            &&& forall|i: int|
                kept.contains(i) == (0 <= i < packets.len() && #[trigger] w.holds(packets, i))
            &&& forall|a: int, b: int| 0 <= a < b < kept.len() ==> kept[a] < kept[b]
        }),
{
    lemma_picker_state(w, packets);
}

/// All audio of a segment lies before its end, in seconds, but for the first packet of a
/// segment of audio alone.
pub proof fn law_audio_lies_before_end(w: Wanted, packets: Seq<PacketInfo>, k: int)
    requires
        0 <= k < buffered(w.picker(), packets).0.len(),
        w.kind is Audio ==> k > 0,
        is_in_reach(w.end, w.timebase, Rational(1, 90000)),
        ({
            let p = packets[buffered(w.picker(), packets).0[k]];
            !p.is_video && is_in_reach(time_of(p), p.timebase, Rational(1, 90000))
        }),
    ensures
        ({
            let p = packets[buffered(w.picker(), packets).0[k]];
            (time_of(p) * p.timebase.0) * w.timebase.1 < (w.end * w.timebase.0) * p.timebase.1
        }),
{
    let kept = buffered(w.picker(), packets).0;
    lemma_picker_state(w, packets);
    let i = kept[k];
    let p = packets[i];
    assert(kept.contains(i));
    assert(w.holds(packets, i));
    assert(!w.closes_audio(packets, i));
    if w.kind is Audio {
        let m = kept[k - 1];
        assert(kept.contains(m));
        assert(w.holds(packets, m));
        assert(0 <= m < i);
    }
    assert(!w.reached_by(p));
    law_rescale_keeps_order(time_of(p), p.timebase, w.end, w.timebase, Rational(1, 90000));
}

/// All audio of a segment that comes in front of any that lies less than a tick of 1/90000 s
/// before the end, or behind it, is held.
pub proof fn law_audio_before_end_is_held(w: Wanted, packets: Seq<PacketInfo>, i: int)
    requires
        0 <= i < packets.len(),
        !(w.kind is Video),
        is_in_reach(w.end, w.timebase, Rational(1, 90000)),
        w.has(packets[i]),
        !packets[i].is_video,
        forall|j: int|
            0 <= j <= i && w.has(#[trigger] packets[j]) && !packets[j].is_video ==> is_in_reach(
                time_of(packets[j]),
                packets[j].timebase,
                Rational(1, 90000),
            ) && (time_of(packets[j]) * packets[j].timebase.0) * (90000 * w.timebase.1)
                + packets[j].timebase.1 * w.timebase.1 <= (w.end * w.timebase.0) * (90000
                * packets[j].timebase.1),
    ensures
        buffered(w.picker(), packets).0.contains(i),
{
    lemma_picker_state(w, packets);
    assert forall|j: int| 0 <= j <= i implies !#[trigger] w.closes_audio(packets, j) by {
        let p = packets[j];
        if w.has(p) && !p.is_video {
            law_rescale_apart(time_of(p), p.timebase, w.end, w.timebase);
        }
    }
    assert(w.holds(packets, i));
}

} // verus!
