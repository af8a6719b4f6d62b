//! Which packets make up a segment, and with what timestamps they are written.

use vstd::prelude::*;
use crate::search::is_in;
use crate::timebase::{rescale_ts, rescaled, Rational};

verus! {

/// The clock in which segment boundaries are compared.
pub open spec fn clock_90k() -> Rational {
    Rational(1, 90000)
}

/// What is kept of a demuxed packet beside its data.
#[derive(Debug, Clone, Copy, PartialEq, Eq)]
pub struct PacketInfo {
    /// The stream that it comes from.
    pub stream_id: usize,
    pub pts: Option<i64>,
    pub dts: Option<i64>,
    pub duration: i64,
    pub is_key: bool,
    /// Whether the stream is a video stream.
    pub is_video: bool,
    /// The time base of the stream.
    pub timebase: Rational,
}

/// When a packet is shown; when it is decoded, if that is not known; else 0.
pub open spec fn shown_at(pts: Option<i64>, dts: Option<i64>) -> i64 {
    match pts {
        Some(t) => t,
        None => match dts {
            Some(t) => t,
            None => 0,
        },
    }
}

/// When a packet is shown, or else decoded, or else 0.
pub fn shown_time(pts: Option<i64>, dts: Option<i64>) -> (t: i64)
    ensures
        t == shown_at(pts, dts),
{
    match pts {
        Some(t) => t,
        None => match dts {
            Some(t) => t,
            None => 0,
        },
    }
}

/// When a packet is shown, in ticks of 1/90000 s.
pub open spec fn shown_90k(p: PacketInfo) -> int {
    rescaled(shown_at(p.pts, p.dts) as int, p.timebase, clock_90k())
}

/// When a packet is decoded, in ticks of 1/90000 s.
pub open spec fn decoded_90k(p: PacketInfo) -> int {
    rescaled(shown_at(p.dts, p.pts) as int, p.timebase, clock_90k())
}

/// What becomes of a packet.
#[derive(Debug, Clone, Copy, PartialEq, Eq, Structural)]
pub enum Verdict {
    /// It belongs to the segment.
    Keep,
    /// It does not, but later ones may.
    Skip,
    /// It does not, and no later one does.
    Stop,
}

/// The kinds of media segment.
#[derive(Debug, Clone, Copy, PartialEq, Eq, Structural)]
pub enum MediaKind {
    Video,
    Audio,
    /// Video with interleaved audio.
    Av,
}

/// Picks the packets of one segment out of the packets of a file.
#[derive(Debug, Clone)]
pub struct PacketPicker {
    pub kind: MediaKind,
    /// The streams that the segment is made of.
    pub streams: Vec<usize>,
    pub audio_track: Option<usize>,
    /// The end of the segment, in ticks of 1/90000 s.
    pub end_90k: i64,
    pub video_done: bool,
    pub audio_done: bool,
    /// Whether a packet was kept.
    pub kept_any: bool,
}

/// The state of a picker.
pub struct PickerView {
    pub kind: MediaKind,
    pub streams: Seq<usize>,
    pub audio_track: Option<usize>,
    pub end_90k: i64,
    pub video_done: bool,
    pub audio_done: bool,
    pub kept_any: bool,
}

impl View for PacketPicker {
    type V = PickerView;

    open spec fn view(&self) -> PickerView {
        PickerView {
            kind: self.kind,
            streams: self.streams@,
            audio_track: self.audio_track,
            end_90k: self.end_90k,
            video_done: self.video_done,
            audio_done: self.audio_done,
            kept_any: self.kept_any,
        }
    }
}

/// The stream goes into the segment.
pub open spec fn is_wanted(g: PickerView, stream: usize) -> bool {
    if g.kind is Av {
        g.streams.contains(stream) || g.audio_track == Some(stream)
    } else {
        stream == g.streams[0]
    }
}

/// A packet ends the part of the segment that its stream makes up: a key frame at or
/// behind the end, or audio there. A segment of audio alone gets at least one packet.
pub open spec fn ends_part(g: PickerView, p: PacketInfo) -> bool {
    shown_90k(p) >= g.end_90k && if p.is_video {
        p.is_key
    } else {
        g.kind is Av || g.kept_any
    }
}

/// What becomes of a packet, and the picker behind it.
pub open spec fn judged(g: PickerView, p: PacketInfo) -> (Verdict, PickerView) {
    let after = PickerView {
        video_done: g.video_done || (p.is_video && ends_part(g, p)),
        audio_done: g.audio_done || (!p.is_video && ends_part(g, p)),
        ..g
    };
    if !is_wanted(g, p.stream_id) {
        (Verdict::Skip, g)
    } else if !(if p.is_video {
        after.video_done
    } else {
        after.audio_done
    }) {
        (Verdict::Keep, PickerView { kept_any: true, ..after })
    } else if after.video_done && after.audio_done {
        (Verdict::Stop, after)
    } else {
        (Verdict::Skip, after)
    }
}

/// The picker at the start of a segment: the part that the segment does not have is done.
pub open spec fn picker_at_start(
    kind: MediaKind,
    streams: Seq<usize>,
    audio_track: Option<usize>,
    end_pts: i64,
    video_timebase: Rational,
) -> PickerView {
    PickerView {
        kind,
        streams,
        audio_track,
        end_90k: rescaled(end_pts as int, video_timebase, clock_90k()) as i64,
        video_done: kind is Audio,
        audio_done: kind is Video,
        kept_any: false,
    }
}

impl PacketPicker {
    /// The picker at the start of a segment.
    pub fn new(
        kind: MediaKind,
        streams: Vec<usize>,
        audio_track: Option<usize>,
        end_pts: i64,
        video_timebase: Rational,
    ) -> (picker: Self)
        ensures
            picker@ == picker_at_start(kind, streams@, audio_track, end_pts, video_timebase),
    {
        PacketPicker {
            kind,
            streams,
            audio_track,
            end_90k: rescale_ts(end_pts, video_timebase, Rational(1, 90000)),
            video_done: kind == MediaKind::Audio,
            audio_done: kind == MediaKind::Video,
            kept_any: false,
        }
    }

    /// Decides on the next packet.
    pub fn judge(&mut self, p: &PacketInfo) -> (verdict: Verdict)
        requires
            old(self).kind is Av || old(self).streams@.len() > 0,
        ensures
            (verdict, final(self)@) == judged(old(self)@, *p),
    {
        let wanted: bool = if self.kind == MediaKind::Av {
            is_in(&self.streams, p.stream_id) || (self.audio_track.is_some()
                && self.audio_track.unwrap() == p.stream_id)
        } else {
            p.stream_id == self.streams[0]
        };
        if !wanted {
            return Verdict::Skip;
        }
        let shown: i64 = rescale_ts(shown_time(p.pts, p.dts), p.timebase, Rational(1, 90000));
        if p.is_video {
            if p.is_key && shown >= self.end_90k {
                self.video_done = true;
            }
        } else if shown >= self.end_90k && (self.kind == MediaKind::Av || self.kept_any) {
            self.audio_done = true;
        }
        let done: bool = if p.is_video {
            self.video_done
        } else {
            self.audio_done
        };
        if !done {
            self.kept_any = true;
            Verdict::Keep
        } else if self.video_done && self.audio_done {
            Verdict::Stop
        } else {
            Verdict::Skip
        }
    }
}

/// What a picker keeps of a list of packets: their positions, whether it has stopped, and
/// the picker behind them.
pub open spec fn buffered(g: PickerView, packets: Seq<PacketInfo>) -> (Seq<int>, bool, PickerView)
    decreases packets.len(),
{
    if packets.len() == 0 {
        (Seq::empty(), false, g)
    } else {
        let (kept, stopped, before) = buffered(g, packets.drop_last());
        let (verdict, after) = judged(before, packets.last());
        if stopped {
            (kept, true, before)
        } else if verdict is Keep {
            (kept.push(packets.len() - 1), false, after)
        } else {
            (kept, verdict is Stop, after)
        }
    }
}

/// Positions as integers.
pub open spec fn positions(list: Seq<usize>) -> Seq<int> {
    Seq::new(list.len(), |i: int| list[i] as int)
}

/// Picks the packets of a segment: up to the next key frame for video, up to the end of
/// the segment for audio, in the order in which they come.
pub fn buffer_media_packets(
    packets: &[PacketInfo],
    end_pts: i64,
    kind: MediaKind,
    video_timebase: Rational,
    streams: Vec<usize>,
    audio_track: Option<usize>,
) -> (kept: Vec<usize>)
    requires
        kind is Av || streams@.len() > 0,
    ensures
        positions(kept@) == buffered(
            picker_at_start(kind, streams@, audio_track, end_pts, video_timebase),
            packets@,
        ).0,
{
    let mut picker = PacketPicker::new(kind, streams, audio_track, end_pts, video_timebase);
    let ghost start = picker@;
    let mut kept: Vec<usize> = Vec::new();
    let mut i: usize = 0;
    assert(positions(kept@) =~= buffered(start, packets@.take(0)).0);
    while i < packets.len()
        invariant
            i <= packets@.len(),
            picker@.kind is Av || picker@.streams.len() > 0,
            start == picker_at_start(kind, streams@, audio_track, end_pts, video_timebase),
            buffered(start, packets@.take(i as int)) == (positions(kept@), false, picker@),
        decreases packets.len() - i,
    {
        proof {
            assert(packets@.take(i + 1).drop_last() =~= packets@.take(i as int));
        }
        match picker.judge(&packets[i]) {
            Verdict::Keep => {
                let ghost before = kept@;
                kept.push(i);
                assert(positions(kept@) =~= positions(before).push(i as int));
            },
            Verdict::Skip => {},
            Verdict::Stop => {
                proof {
                    lemma_stopped(start, packets@, i + 1);
                }
                return kept;
            },
        }
        i += 1;
    }
    assert(packets@.take(packets@.len() as int) =~= packets@);
    kept
}

/// Nothing is kept once a picker has stopped.
proof fn lemma_stopped(g: PickerView, packets: Seq<PacketInfo>, n: int)
    requires
        0 <= n <= packets.len(),
        buffered(g, packets.take(n)).1,
    ensures
        buffered(g, packets) == buffered(g, packets.take(n)),
    decreases packets.len(),
{
    if n < packets.len() {
        assert(packets.drop_last().take(n) =~= packets.take(n));
        lemma_stopped(g, packets.drop_last(), n);
    } else {
        assert(packets.take(n) =~= packets);
    }
}

} // verus!
