//! What is written of a segment, said of the packets themselves.

use vstd::prelude::*;
use crate::search::{first_index, lemma_first_index_found, lemma_first_index_holds};
use crate::timebase::{rescaled, Rational};
use super::mux_plan::{
    is_written, mux_plan, or_else, output_base, planned, source_dts, with_audio_upto,
    with_first_times, write_of, MuxSetup, OutputStream, PlanView, Source, Stamp, Write,
};
use super::packets::{decoded_90k, shown_at, PacketInfo};
use super::pick_laws::time_of;

verus! {

/// A packet goes into the segment: it does not lie before the start, and no transcoded audio
/// takes its place.
pub open spec fn goes_in(setup: MuxSetup, p: PacketInfo) -> bool {
    &&& setup.transcode ==> setup.audio_track != Some(p.stream_id)
    &&& rescaled(time_of(p) as int, p.timebase, Rational(1, 90000)) >= rescaled(
        setup.start_pts as int,
        setup.video_timebase,
        Rational(1, 90000),
    )
}

/// The packet at `i` is the first picture of the segment.
pub open spec fn is_first_picture(setup: MuxSetup, packets: Seq<PacketInfo>, i: int) -> bool {
    packets[i].is_video && forall|j: int|
        0 <= j < i && (#[trigger] packets[j]).is_video ==> !goes_in(setup, packets[j])
}

/// The output that an input stream feeds is the one at `o`.
pub open spec fn feeds(outputs: Seq<OutputStream>, stream: usize, o: int) -> bool {
    0 <= o < outputs.len() && outputs[o].input_index == stream && forall|n: int|
        0 <= n < o ==> (#[trigger] outputs[n]).input_index != stream
}

/// When the packet at `i` is decoded: its own time, but for the first picture, which is decoded
/// when the segment starts.
pub open spec fn decode_time_of(setup: MuxSetup, packets: Seq<PacketInfo>, i: int) -> Option<i64> {
    if is_first_picture(setup, packets, i) {
        Some(setup.start_pts)
    } else {
        packets[i].dts
    }
}

/// A write is right: transcoded audio has its own times, and lasts 1024 samples; any other packet
/// has its times on the clock of the output that its stream feeds.
pub open spec fn is_right(
    setup: MuxSetup,
    audio: Seq<Stamp>,
    packets: Seq<PacketInfo>,
    w: Write,
) -> bool {
    match w.source {
        Source::Transcoded(k) => {
            &&& setup.transcode
            &&& k < audio.len()
            &&& setup.audio_track is Some ==> setup.audio_track == Some(w.stream)
            &&& w.pts == audio[k as int].pts
            &&& w.dts == audio[k as int].dts
            &&& w.duration == 1024
        },
        Source::Buffered(i) => {
            let p = packets[i as int];
            let d = decode_time_of(setup, packets, i as int);
            &&& i < packets.len()
            &&& goes_in(setup, p)
            &&& w.stream == p.stream_id
            &&& forall|o: int| #[trigger]
                feeds(setup.outputs@, p.stream_id, o) && p.pts is Some ==> {
                    let base = setup.outputs@[o].timebase;
                    &&& w.pts == Some(rescaled(p.pts->Some_0 as int, p.timebase, base) as i64)
                    &&& match d {
                        Some(t) => w.dts == Some(rescaled(t as int, p.timebase, base) as i64),
                        None => w.dts is None,
                    }
                    &&& w.duration == if p.duration > 0 {
                        rescaled(p.duration as int, p.timebase, base) as i64
                    } else {
                        p.duration
                    }
                }
            &&& p.pts is None || (forall|o: int| !#[trigger] feeds(setup.outputs@, p.stream_id, o))
                ==> w.pts == p.pts && w.dts == d && w.duration == p.duration
        },
    }
}

proof fn lemma_goes_in(setup: MuxSetup, p: PacketInfo)
    ensures
        goes_in(setup, p) == is_written(setup, p),
{
    assert(time_of(p) == shown_at(p.pts, p.dts));
}

proof fn lemma_feeds(outputs: Seq<OutputStream>, stream: usize)
    ensures
        match output_base(outputs, stream) {
            Some(base) => exists|o: int| #[trigger]
                feeds(outputs, stream, o) && outputs[o].timebase == base,
            None => forall|o: int| !#[trigger] feeds(outputs, stream, o),
        },
        forall|o: int| #[trigger]
            feeds(outputs, stream, o) ==> output_base(outputs, stream) == Some(outputs[o].timebase),
{
    let p = |i: int| outputs[i].input_index == stream;
    lemma_first_index_holds(outputs.len() as int, p);
    match first_index(outputs.len() as int, p) {
        Some(i) => {
            assert(p(i));
            assert forall|n: int| 0 <= n < i implies (#[trigger] outputs[n]).input_index
                != stream by {
                assert(!p(n));
            }
            assert(feeds(outputs, stream, i));
        },
        None => {
            assert forall|o: int| !#[trigger] feeds(outputs, stream, o) by {
                if feeds(outputs, stream, o) {
                    assert(!p(o));
                }
            }
        },
    }
    assert forall|o: int| #[trigger] feeds(outputs, stream, o) implies output_base(outputs, stream)
        == Some(outputs[o].timebase) by {
        assert forall|n: int| 0 <= n < o implies !(#[trigger] p(n)) by {
            assert(outputs[n].input_index != stream);
        }
        lemma_first_index_found(outputs.len() as int, p, o);
    }
}

/// Every write of a plan is right.
spec fn all_right(
    setup: MuxSetup,
    audio: Seq<Stamp>,
    packets: Seq<PacketInfo>,
    writes: Seq<Write>,
) -> bool {
    forall|n: int| 0 <= n < writes.len() ==> is_right(setup, audio, packets, #[trigger] writes[n])
}

proof fn lemma_audio_right(
    plan: PlanView,
    setup: MuxSetup,
    audio: Seq<Stamp>,
    packets: Seq<PacketInfo>,
    until: int,
)
    requires
        setup.transcode,
        audio.len() <= usize::MAX,
        all_right(setup, audio, packets, plan.writes),
    ensures
        all_right(setup, audio, packets, with_audio_upto(plan, setup, audio, until).writes),
        plan.writes.len() <= with_audio_upto(plan, setup, audio, until).writes.len(),
        with_audio_upto(plan, setup, audio, until).writes.take(plan.writes.len() as int)
            == plan.writes,
        with_audio_upto(plan, setup, audio, until).video_seen == plan.video_seen,
    decreases audio.len() - plan.next,
{
    let out = with_audio_upto(plan, setup, audio, until);
    assert(plan.writes.take(plan.writes.len() as int) =~= plan.writes);
    if plan.next < audio.len() {
        let a = audio[plan.next as int];
        let dts = shown_at(a.dts, a.pts);
        if rescaled(dts as int, setup.audio_timebase->Some_0, super::packets::clock_90k())
            <= until {
            let w = Write {
                source: Source::Transcoded(plan.next as usize),
                stream: setup.audio_track->Some_0,
                pts: a.pts,
                dts: a.dts,
                duration: 1024,
            };
            let next = PlanView {
                writes: plan.writes.push(w),
                first_audio_dts: or_else(plan.first_audio_dts, Some(dts)),
                first_packet_dts: or_else(plan.first_packet_dts, Some(dts)),
                next: plan.next + 1,
                ..plan
            };
            assert(all_right(setup, audio, packets, next.writes)) by {
                assert forall|n: int| 0 <= n < next.writes.len() implies is_right(
                    setup,
                    audio,
                    packets,
                    #[trigger] next.writes[n],
                ) by {
                    if n < plan.writes.len() {
                        assert(next.writes[n] == plan.writes[n]);
                    }
                }
            }
            lemma_audio_right(next, setup, audio, packets, until);
            assert(out.writes.take(plan.writes.len() as int) =~= next.writes.take(
                plan.writes.len() as int,
            )) by {
                assert(out.writes.take(next.writes.len() as int) == next.writes);
                assert forall|n: int| 0 <= n < plan.writes.len() implies out.writes[n]
                    == next.writes[n] by {
                    assert(out.writes.take(next.writes.len() as int)[n] == out.writes[n]);
                }
            }
            assert(next.writes.take(plan.writes.len() as int) =~= plan.writes);
        }
    }
}

proof fn lemma_more_packets(
    setup: MuxSetup,
    audio: Seq<Stamp>,
    packets: Seq<PacketInfo>,
    w: Write,
)
    requires
        packets.len() > 0,
        is_right(setup, audio, packets.drop_last(), w),
    ensures
        is_right(setup, audio, packets, w),
{
    if let Source::Buffered(at) = w.source {
        let i = at as int;
        let before = packets.drop_last();
        assert(before[i] == packets[i]);
        assert(is_first_picture(setup, before, i) == is_first_picture(setup, packets, i)) by {
            if is_first_picture(setup, before, i) {
                assert forall|j: int| 0 <= j < i && (#[trigger] packets[j]).is_video implies
                    !goes_in(setup, packets[j]) by {
                    assert(before[j] == packets[j]);
                }
            }
            if is_first_picture(setup, packets, i) {
                assert forall|j: int| 0 <= j < i && (#[trigger] before[j]).is_video implies
                    !goes_in(setup, before[j]) by {
                    assert(before[j] == packets[j]);
                }
            }
        }
    }
}

/// A picture of the segment was met.
spec fn picture_met(setup: MuxSetup, packets: Seq<PacketInfo>) -> bool {
    exists|j: int|
        0 <= j < packets.len() && (#[trigger] packets[j]).is_video && goes_in(setup, packets[j])
}

proof fn lemma_write_right(
    plan: PlanView,
    setup: MuxSetup,
    audio: Seq<Stamp>,
    packets: Seq<PacketInfo>,
)
    requires
        packets.len() > 0,
        packets.len() <= usize::MAX,
        goes_in(setup, packets.last()),
        plan.video_seen == picture_met(setup, packets.drop_last()),
    ensures
        is_right(
            setup,
            audio,
            packets,
            write_of(plan, setup, packets.last(), (packets.len() - 1) as usize),
        ),
{
    let p = packets.last();
    let n = packets.len() - 1;
    let before = packets.drop_last();
    assert(packets[n] == p);
    lemma_feeds(setup.outputs@, p.stream_id);
    assert(p.is_video ==> (plan.video_seen == !is_first_picture(setup, packets, n))) by {
        if p.is_video && plan.video_seen {
            let j = choose|j: int|
                0 <= j < before.len() && (#[trigger] before[j]).is_video && goes_in(
                    setup,
                    before[j],
                );
            assert(packets[j] == before[j]);
        }
        if p.is_video && !plan.video_seen {
            assert forall|j: int| 0 <= j < n && (#[trigger] packets[j]).is_video implies !goes_in(
                setup,
                packets[j],
            ) by {
                assert(before[j] == packets[j]);
            }
        }
    }
    assert(source_dts(plan, setup, p) == decode_time_of(setup, packets, n));
    match output_base(setup.outputs@, p.stream_id) {
        Some(base) => {
            let o = choose|o: int| #[trigger]
                feeds(setup.outputs@, p.stream_id, o) && setup.outputs@[o].timebase == base;
            assert(feeds(setup.outputs@, p.stream_id, o));
        },
        None => {},
    }
}

proof fn lemma_planned_right(setup: MuxSetup, audio: Seq<Stamp>, packets: Seq<PacketInfo>)
    requires
        audio.len() <= usize::MAX,
        packets.len() <= usize::MAX,
    ensures
        all_right(setup, audio, packets, planned(setup, audio, packets).writes),
        planned(setup, audio, packets).video_seen == picture_met(setup, packets),
    decreases packets.len(),
{
    if packets.len() > 0 {
        let before = packets.drop_last();
        let p = packets.last();
        let n = packets.len() - 1;
        lemma_planned_right(setup, audio, before);
        let plan = planned(setup, audio, before);
        let out = planned(setup, audio, packets);
        lemma_goes_in(setup, p);
        assert(all_right(setup, audio, packets, plan.writes)) by {
            assert forall|k: int| 0 <= k < plan.writes.len() implies is_right(
                setup,
                audio,
                packets,
                #[trigger] plan.writes[k],
            ) by {
                lemma_more_packets(setup, audio, packets, plan.writes[k]);
            }
        }
        assert(picture_met(setup, packets) == (picture_met(setup, before) || (p.is_video
            && goes_in(setup, p)))) by {
            if picture_met(setup, before) {
                let j = choose|j: int|
                    0 <= j < before.len() && (#[trigger] before[j]).is_video && goes_in(
                        setup,
                        before[j],
                    );
                assert(packets[j] == before[j]);
            }
            if picture_met(setup, packets) {
                let j = choose|j: int|
                    0 <= j < packets.len() && (#[trigger] packets[j]).is_video && goes_in(
                        setup,
                        packets[j],
                    );
                if j < n {
                    assert(packets[j] == before[j]);
                }
            }
            assert(packets[n] == p);
        }
        if goes_in(setup, p) {
            let w = write_of(plan, setup, p, n as usize);
            lemma_write_right(plan, setup, audio, packets);
            let timed = PlanView {
                video_seen: plan.video_seen || p.is_video,
                ..with_first_times(plan, setup, p, w)
            };
            let ready = if setup.transcode {
                lemma_audio_right(timed, setup, audio, packets, decoded_90k(p));
                with_audio_upto(timed, setup, audio, decoded_90k(p))
            } else {
                timed
            };
            assert(out.writes == ready.writes.push(w));
            assert forall|k: int| 0 <= k < out.writes.len() implies is_right(
                setup,
                audio,
                packets,
                #[trigger] out.writes[k],
            ) by {
                if k < ready.writes.len() {
                    assert(out.writes[k] == ready.writes[k]);
                }
            }
        }
    }
}

/// Every write of a segment is right: transcoded audio keeps its own times and lasts 1024
/// samples, other packets go in only from the start on, with their times on the clock of the
/// output.
pub proof fn law_writes_are_right(
    setup: MuxSetup,
    audio: Seq<Stamp>,
    packets: Seq<PacketInfo>,
    n: int,
)
    requires
        audio.len() <= usize::MAX,
        packets.len() <= usize::MAX,
        0 <= n < mux_plan(setup, audio, packets).writes.len(),
    ensures
        is_right(setup, audio, packets, mux_plan(setup, audio, packets).writes[n]),
{
    lemma_planned_right(setup, audio, packets);
    if setup.transcode {
        lemma_audio_right(
            planned(setup, audio, packets),
            setup,
            audio,
            packets,
            i64::MAX as int,
        );
    }
}

/// When a transcoded packet is decoded, on the clock of 1/90000 s.
pub open spec fn audio_ticks(setup: MuxSetup, a: Stamp) -> int {
    let t = match (a.dts, a.pts) {
        (Some(t), _) => t,
        (None, Some(t)) => t,
        (None, None) => 0,
    };
    rescaled(t as int, setup.audio_timebase->Some_0, Rational(1, 90000))
}

/// When a packet is decoded, on the clock of 1/90000 s.
pub open spec fn packet_ticks(p: PacketInfo) -> int {
    let t = match (p.dts, p.pts) {
        (Some(t), _) => t,
        (None, Some(t)) => t,
        (None, None) => 0,
    };
    rescaled(t as int, p.timebase, Rational(1, 90000))
}

/// The transcoded packets up to `k` are decoded no later than a packet of the segment up to `i`.
pub open spec fn comes_first(
    setup: MuxSetup,
    audio: Seq<Stamp>,
    packets: Seq<PacketInfo>,
    k: int,
    i: int,
) -> bool {
    exists|m: int|
        0 <= m <= i && goes_in(setup, #[trigger] packets[m]) && forall|n: int|
            0 <= n <= k ==> audio_ticks(setup, #[trigger] audio[n]) <= packet_ticks(packets[m])
}

/// The writes are in order: packets as in the file, transcoded audio as it was made, and each
/// transcoded packet in front of a packet exactly if it, and all before it, are decoded no later
/// than that packet or one before it.
pub open spec fn are_in_order(
    setup: MuxSetup,
    audio: Seq<Stamp>,
    packets: Seq<PacketInfo>,
    writes: Seq<Write>,
) -> bool {
    forall|x: int, y: int|
        0 <= x < writes.len() && 0 <= y < writes.len() ==> match (
            (#[trigger] writes[x]).source,
            (#[trigger] writes[y]).source,
        ) {
            (Source::Buffered(i), Source::Buffered(j)) => x < y ==> i < j,
            (Source::Transcoded(k), Source::Transcoded(l)) => x < y ==> k < l,
            (Source::Transcoded(k), Source::Buffered(i)) => (x < y) == comes_first(
                setup,
                audio,
                packets,
                k as int,
                i as int,
            ),
            _ => true,
        }
}

/// The writes hold every packet that goes in, and the transcoded packets in front of `next`.
pub open spec fn are_all(
    setup: MuxSetup,
    packets: Seq<PacketInfo>,
    writes: Seq<Write>,
    next: int,
) -> bool {
    &&& forall|i: int|
        0 <= i < packets.len() && goes_in(setup, #[trigger] packets[i]) ==> exists|n: int|
            0 <= n < writes.len() && (#[trigger] writes[n]).source == Source::Buffered(i as usize)
    &&& forall|k: int| 0 <= k < next ==> #[trigger] has_transcoded(writes, k)
}

/// The transcoded packet at `k` is among the writes.
pub open spec fn has_transcoded(writes: Seq<Write>, k: int) -> bool {
    exists|n: int|
        0 <= n < writes.len() && (#[trigger] writes[n]).source == Source::Transcoded(k as usize)
}

/// Sources lie within the lists that they are from.
spec fn are_within(writes: Seq<Write>, packets: nat, next: nat) -> bool {
    forall|n: int|
        0 <= n < writes.len() ==> match (#[trigger] writes[n]).source {
            Source::Buffered(i) => i < packets,
            Source::Transcoded(k) => k < next,
        }
}

/// The transcoded packets in front of `next` are those that come first.
spec fn is_reached(
    setup: MuxSetup,
    audio: Seq<Stamp>,
    packets: Seq<PacketInfo>,
    next: nat,
) -> bool {
    &&& next <= audio.len()
    &&& next > 0 ==> comes_first(setup, audio, packets, next - 1, packets.len() - 1)
    &&& next < audio.len() ==> forall|m: int|
        0 <= m < packets.len() && goes_in(setup, #[trigger] packets[m]) ==> packet_ticks(packets[m])
            < audio_ticks(setup, audio[next as int])
}

proof fn lemma_audio_appended(plan: PlanView, setup: MuxSetup, audio: Seq<Stamp>, until: int)
    requires
        audio.len() <= usize::MAX,
        plan.next <= audio.len(),
    ensures
        ({
            let out = with_audio_upto(plan, setup, audio, until);
            &&& plan.next <= out.next <= audio.len()
            &&& out.writes.len() == plan.writes.len() + (out.next - plan.next)
            &&& forall|n: int| 0 <= n < plan.writes.len() ==> #[trigger] out.writes[n] == plan.writes[n]
            &&& forall|n: int|
                plan.writes.len() <= n < out.writes.len() ==> (#[trigger] out.writes[n]).source
                    == Source::Transcoded((plan.next + n - plan.writes.len()) as usize)
            &&& forall|k: int|
                plan.next <= k < out.next ==> audio_ticks(setup, #[trigger] audio[k]) <= until
            &&& out.next < audio.len() ==> audio_ticks(setup, audio[out.next as int]) > until
        }),
    decreases audio.len() - plan.next,
{
    if plan.next < audio.len() {
        let a = audio[plan.next as int];
        let dts = shown_at(a.dts, a.pts);
        assert(audio_ticks(setup, a) == rescaled(
            dts as int,
            setup.audio_timebase->Some_0,
            super::packets::clock_90k(),
        ));
        if audio_ticks(setup, a) <= until {
            let w = Write {
                source: Source::Transcoded(plan.next as usize),
                stream: setup.audio_track->Some_0,
                pts: a.pts,
                dts: a.dts,
                duration: 1024,
            };
            let next = PlanView {
                writes: plan.writes.push(w),
                first_audio_dts: or_else(plan.first_audio_dts, Some(dts)),
                first_packet_dts: or_else(plan.first_packet_dts, Some(dts)),
                next: plan.next + 1,
                ..plan
            };
            lemma_audio_appended(next, setup, audio, until);
            let out = with_audio_upto(plan, setup, audio, until);
            assert forall|n: int| 0 <= n < plan.writes.len() implies #[trigger] out.writes[n]
                == plan.writes[n] by {
                assert(out.writes[n] == next.writes[n]);
            }
            assert forall|n: int| plan.writes.len() <= n < out.writes.len() implies (
            #[trigger] out.writes[n]).source == Source::Transcoded(
                (plan.next + n - plan.writes.len()) as usize,
            ) by {
                if n == plan.writes.len() {
                    assert(out.writes[n] == next.writes[n]);
                }
            }
        }
    }
}

proof fn lemma_comes_first_prefix(
    setup: MuxSetup,
    audio: Seq<Stamp>,
    packets: Seq<PacketInfo>,
    k: int,
    i: int,
)
    requires
        0 <= i < packets.len() - 1,
    ensures
        comes_first(setup, audio, packets.drop_last(), k, i) == comes_first(
            setup,
            audio,
            packets,
            k,
            i,
        ),
{
    let before = packets.drop_last();
    if comes_first(setup, audio, before, k, i) {
        let m = choose|m: int|
            0 <= m <= i && goes_in(setup, #[trigger] before[m]) && forall|n: int|
                0 <= n <= k ==> audio_ticks(setup, #[trigger] audio[n]) <= packet_ticks(before[m]);
        assert(packets[m] == before[m]);
    }
    if comes_first(setup, audio, packets, k, i) {
        let m = choose|m: int|
            0 <= m <= i && goes_in(setup, #[trigger] packets[m]) && forall|n: int|
                0 <= n <= k ==> audio_ticks(setup, #[trigger] audio[n]) <= packet_ticks(packets[m]);
        assert(packets[m] == before[m]);
    }
}

/// Transcoded packets that are not reached yet, put behind all writes, are in order.
proof fn lemma_order_with_audio(
    plan: PlanView,
    setup: MuxSetup,
    audio: Seq<Stamp>,
    packets: Seq<PacketInfo>,
    until: int,
)
    requires
        audio.len() <= usize::MAX,
        packets.len() <= usize::MAX,
        is_reached(setup, audio, packets, plan.next),
        are_within(plan.writes, packets.len(), plan.next),
        are_in_order(setup, audio, packets, plan.writes),
        are_all(setup, packets, plan.writes, plan.next as int),
    ensures
        ({
            let out = with_audio_upto(plan, setup, audio, until);
            &&& are_within(out.writes, packets.len(), out.next)
            &&& are_in_order(setup, audio, packets, out.writes)
            &&& are_all(setup, packets, out.writes, out.next as int)
        }),
{
    let out = with_audio_upto(plan, setup, audio, until);
    let len = plan.writes.len();
    lemma_audio_appended(plan, setup, audio, until);
    assert forall|x: int, y: int|
        0 <= x < out.writes.len() && 0 <= y < out.writes.len() implies match (
        (#[trigger] out.writes[x]).source,
        (#[trigger] out.writes[y]).source,
    ) {
        (Source::Buffered(i), Source::Buffered(j)) => x < y ==> i < j,
        (Source::Transcoded(k), Source::Transcoded(l)) => x < y ==> k < l,
        (Source::Transcoded(k), Source::Buffered(i)) => (x < y) == comes_first(
            setup,
            audio,
            packets,
            k as int,
            i as int,
        ),
        _ => true,
    } by {
        if x < len && y < len {
            assert(out.writes[x] == plan.writes[x] && out.writes[y] == plan.writes[y]);
        } else if x >= len && y < len {
            assert(out.writes[y] == plan.writes[y]);
            if let (Source::Transcoded(k), Source::Buffered(i)) = (
                out.writes[x].source,
                out.writes[y].source,
            ) {
                if comes_first(setup, audio, packets, k as int, i as int) {
                    let m = choose|m: int|
                        0 <= m <= i && goes_in(setup, #[trigger] packets[m]) && forall|n: int|
                            0 <= n <= k ==> audio_ticks(setup, #[trigger] audio[n])
                                <= packet_ticks(packets[m]);
                    assert(audio_ticks(setup, audio[plan.next as int]) <= packet_ticks(packets[m]));
                }
            }
        } else if x < len {
            assert(out.writes[x] == plan.writes[x]);
        }
    }
    assert forall|i: int| 0 <= i < packets.len() && goes_in(
        setup,
        #[trigger] packets[i],
    ) implies exists|n: int|
        0 <= n < out.writes.len() && (#[trigger] out.writes[n]).source == Source::Buffered(
            i as usize,
        ) by {
        let n = choose|n: int|
            0 <= n < len && (#[trigger] plan.writes[n]).source == Source::Buffered(i as usize);
        assert(out.writes[n] == plan.writes[n]);
    }
    assert forall|k: int| 0 <= k < out.next implies #[trigger] has_transcoded(out.writes, k) by {
        if k < plan.next {
            assert(has_transcoded(plan.writes, k));
            let n = choose|n: int|
                0 <= n < len && (#[trigger] plan.writes[n]).source == Source::Transcoded(
                    k as usize,
                );
            assert(out.writes[n] == plan.writes[n]);
        } else {
            assert(out.writes[len + k - plan.next].source == Source::Transcoded(k as usize));
        }
    }
}

proof fn lemma_reached(
    plan: PlanView,
    setup: MuxSetup,
    audio: Seq<Stamp>,
    packets: Seq<PacketInfo>,
)
    requires
        packets.len() > 0,
        audio.len() <= usize::MAX,
        goes_in(setup, packets.last()),
        is_reached(setup, audio, packets.drop_last(), plan.next),
    ensures
        is_reached(
            setup,
            audio,
            packets,
            with_audio_upto(plan, setup, audio, packet_ticks(packets.last())).next,
        ),
{
    let before = packets.drop_last();
    let p = packets.last();
    let last = packets.len() - 1;
    let out = with_audio_upto(plan, setup, audio, packet_ticks(p));
    lemma_audio_appended(plan, setup, audio, packet_ticks(p));
    assert(packets[last] == p);
    if out.next > plan.next {
        assert(audio_ticks(setup, audio[plan.next as int]) <= packet_ticks(p));
        assert forall|n: int| 0 <= n <= out.next - 1 implies audio_ticks(setup, #[trigger] audio[n])
            <= packet_ticks(packets[last]) by {
            if n < plan.next {
                assert(comes_first(setup, audio, before, plan.next - 1, before.len() - 1));
                let m = choose|m: int|
                    0 <= m <= before.len() - 1 && goes_in(setup, #[trigger] before[m]) && forall|
                        n: int,
                    |
                        0 <= n <= plan.next - 1 ==> audio_ticks(setup, #[trigger] audio[n])
                            <= packet_ticks(before[m]);
                assert(audio_ticks(setup, audio[n]) <= packet_ticks(before[m]));
            }
        }
        assert(comes_first(setup, audio, packets, out.next - 1, last));
    } else if out.next > 0 {
        let m = choose|m: int|
            0 <= m <= before.len() - 1 && goes_in(setup, #[trigger] before[m]) && forall|n: int|
                0 <= n <= plan.next - 1 ==> audio_ticks(setup, #[trigger] audio[n]) <= packet_ticks(
                    before[m],
                );
        assert(packets[m] == before[m]);
        assert(comes_first(setup, audio, packets, out.next - 1, last));
    }
    if out.next < audio.len() {
        assert forall|m: int| 0 <= m < packets.len() && goes_in(
            setup,
            #[trigger] packets[m],
        ) implies packet_ticks(packets[m]) < audio_ticks(setup, audio[out.next as int]) by {
            if m < last {
                assert(before[m] == packets[m]);
            }
        }
    }
}

proof fn lemma_planned_order(setup: MuxSetup, audio: Seq<Stamp>, packets: Seq<PacketInfo>)
    requires
        audio.len() <= usize::MAX,
        packets.len() <= usize::MAX,
    ensures
        ({
            let plan = planned(setup, audio, packets);
            &&& setup.transcode ==> is_reached(setup, audio, packets, plan.next)
            &&& !setup.transcode ==> plan.next == 0
            &&& are_within(plan.writes, packets.len(), plan.next)
            &&& are_in_order(setup, audio, packets, plan.writes)
            &&& are_all(setup, packets, plan.writes, plan.next as int)
        }),
    decreases packets.len(),
{
    if packets.len() > 0 {
        let before = packets.drop_last();
        let p = packets.last();
        let last = packets.len() - 1;
        assert(packets[last] == p);
        lemma_planned_order(setup, audio, before);
        lemma_goes_in(setup, p);
        let plan = planned(setup, audio, before);
        let done = planned(setup, audio, packets);
        if !goes_in(setup, p) {
            lemma_skip(plan, setup, audio, packets);
        } else {
            let w = write_of(plan, setup, p, last as usize);
            assert(w.source == Source::Buffered(last as usize));
            let timed = PlanView {
                video_seen: plan.video_seen || p.is_video,
                ..with_first_times(plan, setup, p, w)
            };
            assert(timed.writes == plan.writes && timed.next == plan.next);
            assert(packet_ticks(p) == decoded_90k(p));
            let ready = if setup.transcode {
                with_audio_upto(timed, setup, audio, decoded_90k(p))
            } else {
                timed
            };
            if setup.transcode {
                lemma_order_with_audio(timed, setup, audio, before, decoded_90k(p));
                lemma_reached(timed, setup, audio, packets);
            }
            assert(done.writes == ready.writes.push(w));
            lemma_push_packet(ready, setup, audio, packets, w);
        }
    }
}

proof fn lemma_skip(
    plan: PlanView,
    setup: MuxSetup,
    audio: Seq<Stamp>,
    packets: Seq<PacketInfo>,
)
    requires
        packets.len() > 0,
        packets.len() <= usize::MAX,
        audio.len() <= usize::MAX,
        !goes_in(setup, packets.last()),
        setup.transcode ==> is_reached(setup, audio, packets.drop_last(), plan.next),
        !setup.transcode ==> plan.next == 0,
        are_within(plan.writes, packets.drop_last().len(), plan.next),
        are_in_order(setup, audio, packets.drop_last(), plan.writes),
        are_all(setup, packets.drop_last(), plan.writes, plan.next as int),
    ensures
        setup.transcode ==> is_reached(setup, audio, packets, plan.next),
        are_within(plan.writes, packets.len(), plan.next),
        are_in_order(setup, audio, packets, plan.writes),
        are_all(setup, packets, plan.writes, plan.next as int),
{
    let before = packets.drop_last();
    let last = packets.len() - 1;
    lemma_order_prefix(setup, audio, packets, plan.writes, plan.next);
    assert forall|i: int| 0 <= i < packets.len() && goes_in(
        setup,
        #[trigger] packets[i],
    ) implies exists|n: int|
        0 <= n < plan.writes.len() && (#[trigger] plan.writes[n]).source == Source::Buffered(
            i as usize,
        ) by {
        assert(i < last);
        assert(before[i] == packets[i]);
    }
    if setup.transcode {
        if plan.next > 0 {
            let m = choose|m: int|
                0 <= m <= before.len() - 1 && goes_in(setup, #[trigger] before[m]) && forall|n: int|
                    0 <= n <= plan.next - 1 ==> audio_ticks(setup, #[trigger] audio[n])
                        <= packet_ticks(before[m]);
            assert(packets[m] == before[m]);
            assert(comes_first(setup, audio, packets, plan.next - 1, last));
        }
        assert forall|m: int|
            plan.next < audio.len() && 0 <= m < packets.len() && goes_in(
                setup,
                #[trigger] packets[m],
            ) implies packet_ticks(packets[m]) < audio_ticks(setup, audio[plan.next as int]) by {
            assert(m < last);
            assert(before[m] == packets[m]);
        }
    }
}

proof fn lemma_order_prefix(
    setup: MuxSetup,
    audio: Seq<Stamp>,
    packets: Seq<PacketInfo>,
    writes: Seq<Write>,
    next: nat,
)
    requires
        packets.len() > 0,
        are_within(writes, packets.drop_last().len(), next),
        are_in_order(setup, audio, packets.drop_last(), writes),
    ensures
        are_within(writes, packets.len(), next),
        are_in_order(setup, audio, packets, writes),
{
    assert forall|x: int, y: int| 0 <= x < writes.len() && 0 <= y < writes.len() implies match (
        (#[trigger] writes[x]).source,
        (#[trigger] writes[y]).source,
    ) {
        (Source::Buffered(i), Source::Buffered(j)) => x < y ==> i < j,
        (Source::Transcoded(k), Source::Transcoded(l)) => x < y ==> k < l,
        (Source::Transcoded(k), Source::Buffered(i)) => (x < y) == comes_first(
            setup,
            audio,
            packets,
            k as int,
            i as int,
        ),
        _ => true,
    } by {
        if let (Source::Transcoded(k), Source::Buffered(i)) = (writes[x].source, writes[y].source) {
            lemma_comes_first_prefix(setup, audio, packets, k as int, i as int);
        }
    }
}

proof fn lemma_push_packet(
    ready: PlanView,
    setup: MuxSetup,
    audio: Seq<Stamp>,
    packets: Seq<PacketInfo>,
    w: Write,
)
    requires
        packets.len() > 0,
        packets.len() <= usize::MAX,
        audio.len() <= usize::MAX,
        goes_in(setup, packets.last()),
        w.source == Source::Buffered((packets.len() - 1) as usize),
        setup.transcode ==> is_reached(setup, audio, packets, ready.next),
        !setup.transcode ==> ready.next == 0,
        are_within(ready.writes, packets.drop_last().len(), ready.next),
        are_in_order(setup, audio, packets.drop_last(), ready.writes),
        are_all(setup, packets.drop_last(), ready.writes, ready.next as int),
    ensures
        are_within(ready.writes.push(w), packets.len(), ready.next),
        are_in_order(setup, audio, packets, ready.writes.push(w)),
        are_all(setup, packets, ready.writes.push(w), ready.next as int),
{
    let before = packets.drop_last();
    let last = packets.len() - 1;
    let len = ready.writes.len();
    let all = ready.writes.push(w);
    lemma_order_prefix(setup, audio, packets, ready.writes, ready.next);
    assert forall|x: int, y: int| 0 <= x < all.len() && 0 <= y < all.len() implies match (
        (#[trigger] all[x]).source,
        (#[trigger] all[y]).source,
    ) {
        (Source::Buffered(i), Source::Buffered(j)) => x < y ==> i < j,
        (Source::Transcoded(k), Source::Transcoded(l)) => x < y ==> k < l,
        (Source::Transcoded(k), Source::Buffered(i)) => (x < y) == comes_first(
            setup,
            audio,
            packets,
            k as int,
            i as int,
        ),
        _ => true,
    } by {
        if x < len {
            assert(all[x] == ready.writes[x]);
        }
        if y < len {
            assert(all[y] == ready.writes[y]);
        }
        if x < len && y == len {
            if let Source::Transcoded(k) = all[x].source {
                assert(k < ready.next);
                assert(comes_first(setup, audio, packets, ready.next - 1, last));
                let m = choose|m: int|
                    0 <= m <= last && goes_in(setup, #[trigger] packets[m]) && forall|n: int|
                        0 <= n <= ready.next - 1 ==> audio_ticks(setup, #[trigger] audio[n])
                            <= packet_ticks(packets[m]);
                assert forall|n: int| 0 <= n <= k implies audio_ticks(setup, #[trigger] audio[n])
                    <= packet_ticks(packets[m]) by {}
                assert(comes_first(setup, audio, packets, k as int, last));
            }
        }
    }
    assert forall|i: int| 0 <= i < packets.len() && goes_in(
        setup,
        #[trigger] packets[i],
    ) implies exists|n: int|
        0 <= n < all.len() && (#[trigger] all[n]).source == Source::Buffered(i as usize) by {
        if i < last {
            assert(before[i] == packets[i]);
            let n = choose|n: int|
                0 <= n < len && (#[trigger] ready.writes[n]).source == Source::Buffered(
                    i as usize,
                );
            assert(all[n] == ready.writes[n]);
        } else {
            assert(all[len as int] == w);
        }
    }
    assert forall|k: int| 0 <= k < ready.next implies #[trigger] has_transcoded(all, k) by {
        assert(has_transcoded(ready.writes, k));
        let n = choose|n: int|
            0 <= n < len && (#[trigger] ready.writes[n]).source == Source::Transcoded(k as usize);
        assert(all[n] == ready.writes[n]);
    }
}

/// A segment holds every packet that goes in and all of the transcoded audio, each once, in
/// order, and the audio where it is decoded.
pub proof fn law_segment_is_written(setup: MuxSetup, audio: Seq<Stamp>, packets: Seq<PacketInfo>)
    requires
        audio.len() <= usize::MAX,
        packets.len() <= usize::MAX,
    ensures
        are_in_order(setup, audio, packets, mux_plan(setup, audio, packets).writes),
        are_all(
            setup,
            packets,
            mux_plan(setup, audio, packets).writes,
            if setup.transcode {
                audio.len() as int
            } else {
                0
            },
        ),
{
    lemma_planned_order(setup, audio, packets);
    if setup.transcode {
        let plan = planned(setup, audio, packets);
        lemma_order_with_audio(plan, setup, audio, packets, i64::MAX as int);
        lemma_audio_appended(plan, setup, audio, i64::MAX as int);
        let out = with_audio_upto(plan, setup, audio, i64::MAX as int);
        if out.next < audio.len() {
            assert(audio_ticks(setup, audio[out.next as int]) <= i64::MAX);
        }
    }
}

/// A packet has a time on the clock of an output.
pub open spec fn is_clocked(setup: MuxSetup, p: PacketInfo, o: int) -> bool {
    p.pts is Some && feeds(setup.outputs@, p.stream_id, o)
}

proof fn lemma_audio_keeps_firsts(plan: PlanView, setup: MuxSetup, audio: Seq<Stamp>, until: int)
    requires
        plan.next <= audio.len(),
    ensures
        ({
            let out = with_audio_upto(plan, setup, audio, until);
            &&& plan.next <= out.next <= audio.len()
            &&& out.first_video_dts == plan.first_video_dts
            &&& plan.first_packet_dts is Some ==> out.first_packet_dts == plan.first_packet_dts
            &&& plan.first_audio_dts is Some ==> out.first_audio_dts == plan.first_audio_dts
            &&& plan.first_audio_dts is None && out.next > plan.next ==> out.first_audio_dts == Some(
                shown_at(audio[plan.next as int].dts, audio[plan.next as int].pts),
            )
            &&& out.next == plan.next ==> out == plan
            &&& plan.first_packet_dts is None && out.next > plan.next ==> out.first_packet_dts
                == Some(shown_at(audio[plan.next as int].dts, audio[plan.next as int].pts))
        }),
    decreases audio.len() - plan.next,
{
    if plan.next < audio.len() {
        let a = audio[plan.next as int];
        let dts = shown_at(a.dts, a.pts);
        if rescaled(dts as int, setup.audio_timebase->Some_0, super::packets::clock_90k())
            <= until {
            let next = PlanView {
                writes: plan.writes.push(
                    Write {
                        source: Source::Transcoded(plan.next as usize),
                        stream: setup.audio_track->Some_0,
                        pts: a.pts,
                        dts: a.dts,
                        duration: 1024,
                    },
                ),
                first_audio_dts: or_else(plan.first_audio_dts, Some(dts)),
                first_packet_dts: or_else(plan.first_packet_dts, Some(dts)),
                next: plan.next + 1,
                ..plan
            };
            lemma_audio_keeps_firsts(next, setup, audio, until);
        }
    }
}

/// What the plan of some packets has for its first times.
proof fn lemma_firsts(setup: MuxSetup, audio: Seq<Stamp>, packets: Seq<PacketInfo>)
    requires
        audio.len() <= usize::MAX,
        packets.len() <= usize::MAX,
    ensures
        ({
            let plan = planned(setup, audio, packets);
            &&& plan.next <= audio.len()
            &&& !setup.transcode ==> plan.next == 0
            &&& (forall|j: int|
                0 <= j < packets.len() ==> !goes_in(setup, #[trigger] packets[j])) ==> plan.next
                == 0 && plan.first_packet_dts is None
            &&& !setup.interleaved ==> plan.first_video_dts is None
            &&& (forall|j: int|
                0 <= j < packets.len() && (#[trigger] packets[j]).is_video ==> !goes_in(
                    setup,
                    packets[j],
                )) ==> plan.first_video_dts is None
            &&& (forall|j: int|
                0 <= j < packets.len() && !(#[trigger] packets[j]).is_video ==> !goes_in(
                    setup,
                    packets[j],
                )) || !setup.interleaved ==> plan.first_audio_dts == if plan.next > 0 {
                Some(shown_at(audio[0].dts, audio[0].pts))
            } else {
                None
            }
        }),
    decreases packets.len(),
{
    if packets.len() > 0 {
        let before = packets.drop_last();
        let p = packets.last();
        let last = packets.len() - 1;
        assert(packets[last] == p);
        lemma_firsts(setup, audio, before);
        lemma_goes_in(setup, p);
        assert forall|j: int| 0 <= j < before.len() implies #[trigger] before[j] == packets[j] by {}
        let plan = planned(setup, audio, before);
        if goes_in(setup, p) {
            let w = write_of(plan, setup, p, last as usize);
            let timed = PlanView {
                video_seen: plan.video_seen || p.is_video,
                ..with_first_times(plan, setup, p, w)
            };
            if setup.transcode {
                lemma_audio_keeps_firsts(timed, setup, audio, decoded_90k(p));
            }
        }
    }
}

proof fn lemma_first_packet(
    setup: MuxSetup,
    audio: Seq<Stamp>,
    packets: Seq<PacketInfo>,
    i: int,
    o: int,
)
    requires
        audio.len() <= usize::MAX,
        packets.len() <= usize::MAX,
        0 <= i < packets.len(),
        goes_in(setup, packets[i]),
        is_clocked(setup, packets[i], o),
    ensures
        ({
            let plan = planned(setup, audio, packets);
            let p = packets[i];
            let base = setup.outputs@[o].timebase;
            let d = decode_time_of(setup, packets, i);
            &&& (forall|j: int| 0 <= j < i ==> !goes_in(setup, #[trigger] packets[j]))
                ==> plan.first_packet_dts == Some(
                match d {
                    Some(t) => rescaled(t as int, p.timebase, base) as i64,
                    None => rescaled(p.pts->Some_0 as int, p.timebase, base) as i64,
                },
            )
            &&& is_first_picture(setup, packets, i) && setup.interleaved ==> plan.first_video_dts
                == Some(rescaled(setup.start_pts as int, p.timebase, base) as i64)
            &&& setup.interleaved && !setup.transcode && !p.is_video && p.dts is Some && (forall|
                j: int,
            |
                0 <= j < i && !(#[trigger] packets[j]).is_video ==> !goes_in(setup, packets[j]))
                ==> plan.first_audio_dts == Some(
                rescaled(p.dts->Some_0 as int, p.timebase, base) as i64,
            )
        }),
    decreases packets.len(),
{
    let before = packets.drop_last();
    let last = packets.len() - 1;
    let q = packets.last();
    assert(packets[last] == q);
    assert forall|j: int| 0 <= j < before.len() implies #[trigger] before[j] == packets[j] by {}
    let plan = planned(setup, audio, before);
    lemma_goes_in(setup, q);
    lemma_planned_right(setup, audio, before);
    lemma_firsts(setup, audio, before);
    let w = write_of(plan, setup, q, last as usize);
    let timed = PlanView {
        video_seen: plan.video_seen || q.is_video,
        ..with_first_times(plan, setup, q, w)
    };
    if goes_in(setup, q) && setup.transcode {
        lemma_audio_keeps_firsts(timed, setup, audio, decoded_90k(q));
    }
    if i < last {
        lemma_first_packet(setup, audio, before, i, o);
        assert(is_first_picture(setup, before, i) == is_first_picture(setup, packets, i)) by {
            if is_first_picture(setup, before, i) {
                assert forall|j: int| 0 <= j < i && (#[trigger] packets[j]).is_video implies
                    !goes_in(setup, packets[j]) by {
                    assert(before[j] == packets[j]);
                }
            }
        }
    } else {
        lemma_feeds(setup.outputs@, q.stream_id);
        lemma_write_right(plan, setup, audio, packets);
        assert(feeds(setup.outputs@, q.stream_id, o));
    }
}

/// The first decode times of a segment: that of the first packet, that of the first picture, if
/// audio goes with it, which is the start of the segment, and that of the first audio.
pub proof fn law_first_times(
    setup: MuxSetup,
    audio: Seq<Stamp>,
    packets: Seq<PacketInfo>,
    i: int,
    o: int,
)
    requires
        audio.len() <= usize::MAX,
        packets.len() <= usize::MAX,
        0 <= i < packets.len(),
        goes_in(setup, packets[i]),
        is_clocked(setup, packets[i], o),
    ensures
        ({
            let plan = mux_plan(setup, audio, packets);
            let p = packets[i];
            let base = setup.outputs@[o].timebase;
            let d = decode_time_of(setup, packets, i);
            &&& (forall|j: int| 0 <= j < i ==> !goes_in(setup, #[trigger] packets[j]))
                ==> plan.first_packet_dts == Some(
                match d {
                    Some(t) => rescaled(t as int, p.timebase, base) as i64,
                    None => rescaled(p.pts->Some_0 as int, p.timebase, base) as i64,
                },
            )
            &&& is_first_picture(setup, packets, i) && setup.interleaved ==> plan.first_video_dts
                == Some(rescaled(setup.start_pts as int, p.timebase, base) as i64)
            &&& setup.interleaved && !setup.transcode && !p.is_video && p.dts is Some && (forall|
                j: int,
            |
                0 <= j < i && !(#[trigger] packets[j]).is_video ==> !goes_in(setup, packets[j]))
                ==> plan.first_audio_dts == Some(
                rescaled(p.dts->Some_0 as int, p.timebase, base) as i64,
            )
        }),
{
    lemma_first_packet(setup, audio, packets, i, o);
    lemma_firsts(setup, audio, packets);
    if setup.transcode {
        lemma_audio_keeps_firsts(
            planned(setup, audio, packets),
            setup,
            audio,
            i64::MAX as int,
        );
    }
}

/// The first decode time of transcoded audio is its own, and, where no packet goes in, that of
/// the segment.
pub proof fn law_first_transcoded_time(
    setup: MuxSetup,
    audio: Seq<Stamp>,
    packets: Seq<PacketInfo>,
)
    requires
        audio.len() <= usize::MAX,
        packets.len() <= usize::MAX,
        setup.transcode,
        audio.len() > 0,
        forall|j: int|
            0 <= j < packets.len() && !(#[trigger] packets[j]).is_video ==> !goes_in(
                setup,
                packets[j],
            ),
    ensures
        ({
            let plan = mux_plan(setup, audio, packets);
            let t = match (audio[0].dts, audio[0].pts) {
                (Some(t), _) => t,
                (None, Some(t)) => t,
                (None, None) => 0,
            };
            &&& plan.first_audio_dts == Some(t)
            &&& (forall|j: int|
                0 <= j < packets.len() ==> !goes_in(setup, #[trigger] packets[j]))
                ==> plan.first_packet_dts == Some(t)
        }),
{
    let plan = planned(setup, audio, packets);
    lemma_firsts(setup, audio, packets);
    lemma_audio_keeps_firsts(plan, setup, audio, i64::MAX as int);
    lemma_audio_appended(plan, setup, audio, i64::MAX as int);
    let out = with_audio_upto(plan, setup, audio, i64::MAX as int);
    if out.next < audio.len() {
        assert(audio_ticks(setup, audio[out.next as int]) <= i64::MAX);
    }
}

} // verus!
