//! In what order, and with what timestamps, the packets of a segment are written.

use vstd::prelude::*;
use crate::search::{first_index, lemma_first_index_found, lemma_first_index_none};
use crate::timebase::{rescale_ts, rescaled, Rational};
use super::packets::{clock_90k, decoded_90k, shown_90k, shown_at, shown_time, PacketInfo};

verus! {

/// An output stream: the input stream that feeds it, and its time base.
#[derive(Debug, Clone, Copy, PartialEq, Eq)]
pub struct OutputStream {
    pub input_index: usize,
    pub timebase: Rational,
}

/// The timestamps of an encoded audio packet.
#[derive(Debug, Clone, Copy, PartialEq, Eq)]
pub struct Stamp {
    pub pts: Option<i64>,
    pub dts: Option<i64>,
}

/// Where a written packet comes from.
#[derive(Debug, Clone, Copy, PartialEq, Eq, Structural)]
pub enum Source {
    /// The buffered packet at a position.
    Buffered(usize),
    /// The transcoded packet at a position.
    Transcoded(usize),
}

/// A packet to be written.
#[derive(Debug, Clone, Copy, PartialEq, Eq)]
pub struct Write {
    pub source: Source,
    /// The input stream that it belongs to.
    pub stream: usize,
    pub pts: Option<i64>,
    pub dts: Option<i64>,
    pub duration: i64,
}

/// What a segment is muxed from.
#[derive(Debug, Clone)]
pub struct MuxSetup {
    pub interleaved: bool,
    /// Whether the audio is transcoded.
    pub transcode: bool,
    pub video_timebase: Rational,
    /// The start of the segment, in ticks of the video time base.
    pub start_pts: i64,
    pub audio_track: Option<usize>,
    /// The time base of the transcoded audio.
    pub audio_timebase: Option<Rational>,
    pub outputs: Vec<OutputStream>,
}

/// The writes of a segment, and the first decode times.
#[derive(Debug, Clone)]
pub struct MuxPlan {
    pub writes: Vec<Write>,
    /// The decode time of the first video packet of an interleaved segment.
    pub first_video_dts: Option<i64>,
    /// The decode time of the first audio packet, if it is interleaved or transcoded.
    pub first_audio_dts: Option<i64>,
    /// The decode time of the first packet of either kind.
    pub first_packet_dts: Option<i64>,
    /// Transcoded packets written so far.
    pub next: usize,
    /// Whether the first video packet was met.
    pub video_seen: bool,
}

/// A plan as a value.
pub struct PlanView {
    pub writes: Seq<Write>,
    pub first_video_dts: Option<i64>,
    pub first_audio_dts: Option<i64>,
    pub first_packet_dts: Option<i64>,
    pub next: nat,
    pub video_seen: bool,
}

impl View for MuxPlan {
    type V = PlanView;

    open spec fn view(&self) -> PlanView {
        PlanView {
            writes: self.writes@,
            first_video_dts: self.first_video_dts,
            first_audio_dts: self.first_audio_dts,
            first_packet_dts: self.first_packet_dts,
            next: self.next as nat,
            video_seen: self.video_seen,
        }
    }
}

/// The time base of the output stream that an input stream feeds.
pub open spec fn output_base(outputs: Seq<OutputStream>, stream: usize) -> Option<Rational> {
    match first_index(outputs.len() as int, |i: int| outputs[i].input_index == stream) {
        Some(i) => Some(outputs[i].timebase),
        None => None,
    }
}

/// The first of two, if there is one.
pub open spec fn or_else(a: Option<i64>, b: Option<i64>) -> Option<i64> {
    if a is Some {
        a
    } else {
        b
    }
}

/// The plan with the transcoded packets that are decoded up to `until`, in ticks of
/// 1/90000 s. Each of them lasts 1024 samples.
pub open spec fn with_audio_upto(
    plan: PlanView,
    setup: MuxSetup,
    audio: Seq<Stamp>,
    until: int,
) -> PlanView
    decreases audio.len() - plan.next,
{
    if plan.next >= audio.len() {
        plan
    } else {
        let a = audio[plan.next as int];
        let dts = shown_at(a.dts, a.pts);
        if rescaled(dts as int, setup.audio_timebase->Some_0, clock_90k()) <= until {
            with_audio_upto(
                PlanView {
                    writes: plan.writes.push(
                        Write {
                            source: Source::Transcoded(plan.next as usize),
                            stream: setup.audio_track->Some_0,
                            pts: a.pts,
                            dts: a.dts,
                            duration: 1024,
                        },
                    ),
                    first_audio_dts: or_else(plan.first_audio_dts, Some(dts)),
                    first_packet_dts: or_else(plan.first_packet_dts, Some(dts)),
                    next: plan.next + 1,
                    ..plan
                },
                setup,
                audio,
                until,
            )
        } else {
            plan
        }
    }
}

/// The packet is written: it is not replaced by transcoded audio, and it is not shown
/// before the segment starts.
pub open spec fn is_written(setup: MuxSetup, p: PacketInfo) -> bool {
    !(setup.transcode && setup.audio_track == Some(p.stream_id)) && shown_90k(p) >= rescaled(
        setup.start_pts as int,
        setup.video_timebase,
        clock_90k(),
    )
}

/// The decode time of a packet in ticks of its stream; the first video packet is decoded
/// when the segment starts.
pub open spec fn source_dts(plan: PlanView, setup: MuxSetup, p: PacketInfo) -> Option<i64> {
    if p.is_video && !plan.video_seen {
        Some(setup.start_pts)
    } else {
        p.dts
    }
}

/// A packet as it is written: with its times in ticks of the output stream.
pub open spec fn write_of(plan: PlanView, setup: MuxSetup, p: PacketInfo, at: usize) -> Write {
    let dts = source_dts(plan, setup, p);
    let same = Write {
        source: Source::Buffered(at),
        stream: p.stream_id,
        pts: p.pts,
        dts,
        duration: p.duration,
    };
    match (output_base(setup.outputs@, p.stream_id), p.pts) {
        (Some(base), Some(pts)) => Write {
            pts: Some(rescaled(pts as int, p.timebase, base) as i64),
            dts: match dts {
                Some(d) => Some(rescaled(d as int, p.timebase, base) as i64),
                None => None,
            },
            duration: if p.duration > 0 {
                rescaled(p.duration as int, p.timebase, base) as i64
            } else {
                p.duration
            },
            ..same
        },
        _ => same,
    }
}

/// The plan with the first decode times of a written packet taken in.
pub open spec fn with_first_times(
    plan: PlanView,
    setup: MuxSetup,
    p: PacketInfo,
    w: Write,
) -> PlanView {
    if output_base(setup.outputs@, p.stream_id) is Some && p.pts is Some {
        PlanView {
            first_packet_dts: or_else(
                plan.first_packet_dts,
                if w.dts is Some {
                    w.dts
                } else {
                    w.pts
                },
            ),
            first_video_dts: if setup.interleaved && p.is_video {
                or_else(plan.first_video_dts, w.dts)
            } else {
                plan.first_video_dts
            },
            first_audio_dts: if setup.interleaved && !p.is_video {
                or_else(plan.first_audio_dts, w.dts)
            } else {
                plan.first_audio_dts
            },
            ..plan
        }
    } else {
        plan
    }
}

/// The plan with one more buffered packet: the transcoded audio up to it goes first.
pub open spec fn with_packet(
    plan: PlanView,
    setup: MuxSetup,
    audio: Seq<Stamp>,
    p: PacketInfo,
    at: usize,
) -> PlanView {
    if !is_written(setup, p) {
        plan
    } else {
        let w = write_of(plan, setup, p, at);
        let timed = PlanView {
            video_seen: plan.video_seen || p.is_video,
            ..with_first_times(plan, setup, p, w)
        };
        let ready = if setup.transcode {
            with_audio_upto(timed, setup, audio, decoded_90k(p))
        } else {
            timed
        };
        PlanView { writes: ready.writes.push(w), ..ready }
    }
}

/// A plan without writes.
pub open spec fn empty_plan() -> PlanView {
    PlanView {
        writes: Seq::empty(),
        first_video_dts: None,
        first_audio_dts: None,
        first_packet_dts: None,
        next: 0,
        video_seen: false,
    }
}

/// The plan of buffered packets, but for the transcoded audio behind the last of them.
pub open spec fn planned(setup: MuxSetup, audio: Seq<Stamp>, packets: Seq<PacketInfo>) -> PlanView
    decreases packets.len(),
{
    if packets.len() == 0 {
        empty_plan()
    } else {
        with_packet(
            planned(setup, audio, packets.drop_last()),
            setup,
            audio,
            packets.last(),
            (packets.len() - 1) as usize,
        )
    }
}

/// The plan of a segment.
pub open spec fn mux_plan(setup: MuxSetup, audio: Seq<Stamp>, packets: Seq<PacketInfo>) -> PlanView {
    let plan = planned(setup, audio, packets);
    if setup.transcode {
        with_audio_upto(plan, setup, audio, i64::MAX as int)
    } else {
        plan
    }
}

fn find_output_base(outputs: &Vec<OutputStream>, stream: usize) -> (base: Option<Rational>)
    ensures
        base == output_base(outputs@, stream),
{
    let ghost p = |i: int| outputs@[i].input_index == stream;
    let mut i: usize = 0;
    while i < outputs.len()
        invariant
            i <= outputs@.len(),
            p == (|i: int| outputs@[i].input_index == stream),
            forall|j: int| 0 <= j < i ==> !(#[trigger] p(j)),
        decreases outputs.len() - i,
    {
        if outputs[i].input_index == stream {
            proof {
                lemma_first_index_found(outputs@.len() as int, p, i as int);
            }
            return Some(outputs[i].timebase);
        }
        i += 1;
    }
    proof {
        lemma_first_index_none(outputs@.len() as int, p);
    }
    None
}

fn first_of(a: Option<i64>, b: Option<i64>) -> (r: Option<i64>)
    ensures
        r == or_else(a, b),
{
    if a.is_some() {
        a
    } else {
        b
    }
}

/// Transcoded audio has a time base and a track.
pub open spec fn audio_is_placed(setup: MuxSetup, audio: Seq<Stamp>) -> bool {
    audio.len() > 0 && setup.transcode ==> setup.audio_timebase is Some
        && setup.audio_track is Some
}

fn write_audio_upto(plan: &mut MuxPlan, setup: &MuxSetup, audio: &[Stamp], until: i64)
    requires
        audio_is_placed(*setup, audio@),
        setup.transcode,
    ensures
        final(plan)@ == with_audio_upto(old(plan)@, *setup, audio@, until as int),
{
    let ghost whole = with_audio_upto(plan@, *setup, audio@, until as int);
    while plan.next < audio.len()
        invariant
            audio_is_placed(*setup, audio@),
            setup.transcode,
            whole == with_audio_upto(plan@, *setup, audio@, until as int),
        ensures
            plan@ == whole,
        decreases audio@.len() - plan.next,
    {
        let (base, track): (Rational, usize) = match (setup.audio_timebase, setup.audio_track) {
            (Some(base), Some(track)) => (base, track),
            _ => {
                return ;
            },
        };
        let a: Stamp = audio[plan.next];
        let dts: i64 = shown_time(a.dts, a.pts);
        if rescale_ts(dts, base, Rational(1, 90000)) > until {
            break;
        }
        let w = Write {
            source: Source::Transcoded(plan.next),
            stream: track,
            pts: a.pts,
            dts: a.dts,
            duration: 1024,
        };
        plan.writes.push(w);
        plan.first_audio_dts = first_of(plan.first_audio_dts, Some(dts));
        plan.first_packet_dts = first_of(plan.first_packet_dts, Some(dts));
        plan.next = plan.next + 1;
    }
}

fn write_packet(
    plan: &mut MuxPlan,
    setup: &MuxSetup,
    audio: &[Stamp],
    p: &PacketInfo,
    at: usize,
)
    requires
        audio_is_placed(*setup, audio@),
    ensures
        final(plan)@ == with_packet(old(plan)@, *setup, audio@, *p, at),
{
    if setup.transcode && setup.audio_track.is_some() && setup.audio_track.unwrap()
        == p.stream_id {
        return ;
    }
    let start: i64 = rescale_ts(setup.start_pts, setup.video_timebase, Rational(1, 90000));
    let shown: i64 = rescale_ts(shown_time(p.pts, p.dts), p.timebase, Rational(1, 90000));
    if shown < start {
        return ;
    }
    let mut w = Write {
        source: Source::Buffered(at),
        stream: p.stream_id,
        pts: p.pts,
        dts: p.dts,
        duration: p.duration,
    };
    if p.is_video && !plan.video_seen {
        w.dts = Some(setup.start_pts);
    }
    match (find_output_base(&setup.outputs, p.stream_id), p.pts) {
        (Some(base), Some(pts)) => {
            w.pts = Some(rescale_ts(pts, p.timebase, base));
            w.dts = match w.dts {
                Some(d) => Some(rescale_ts(d, p.timebase, base)),
                None => None,
            };
            if p.duration > 0 {
                w.duration = rescale_ts(p.duration, p.timebase, base);
            }
            plan.first_packet_dts = first_of(
                plan.first_packet_dts,
                if w.dts.is_some() {
                    w.dts
                } else {
                    w.pts
                },
            );
            if setup.interleaved {
                if p.is_video {
                    plan.first_video_dts = first_of(plan.first_video_dts, w.dts);
                } else {
                    plan.first_audio_dts = first_of(plan.first_audio_dts, w.dts);
                }
            }
        },
        _ => {},
    }
    if p.is_video {
        plan.video_seen = true;
    }
    if setup.transcode {
        let decoded: i64 = rescale_ts(
            shown_time(p.dts, p.pts),
            p.timebase,
            Rational(1, 90000),
        );
        write_audio_upto(plan, setup, audio, decoded);
    }
    plan.writes.push(w);
}

/// Plans the writes of a segment: the buffered packets from its start on, with their times
/// in ticks of the output streams, and between them the transcoded audio, in the order in
/// which it is decoded.
pub fn mux_media_segment(setup: &MuxSetup, packets: &[PacketInfo], audio: &[Stamp]) -> (plan:
    MuxPlan)
    requires
        audio_is_placed(*setup, audio@),
    ensures
        plan@ == mux_plan(*setup, audio@, packets@),
{
    let mut plan = MuxPlan {
        writes: Vec::new(),
        first_video_dts: None,
        first_audio_dts: None,
        first_packet_dts: None,
        next: 0,
        video_seen: false,
    };
    assert(plan@.writes =~= empty_plan().writes);
    let mut i: usize = 0;
    while i < packets.len()
        invariant
            i <= packets@.len(),
            audio_is_placed(*setup, audio@),
            plan@ == planned(*setup, audio@, packets@.take(i as int)),
        decreases packets.len() - i,
    {
        assert(packets@.take(i + 1).drop_last() =~= packets@.take(i as int));
        write_packet(&mut plan, setup, audio, &packets[i], i);
        i += 1;
    }
    assert(packets@.take(packets@.len() as int) =~= packets@);
    if setup.transcode {
        write_audio_upto(&mut plan, setup, audio, i64::MAX);
    }
    plan
}

} // verus!
