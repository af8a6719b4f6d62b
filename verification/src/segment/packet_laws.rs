//! What holds of the packets of every segment.

use vstd::prelude::*;
use crate::timebase::rescaled;
use super::mux_plan::{
    is_written, mux_plan, planned, with_audio_upto, with_first_times, write_of, MuxSetup, PlanView,
    Source, Stamp, Write,
};
use super::packets::{
    buffered, clock_90k, decoded_90k, is_wanted, shown_90k, shown_at, PickerView, PacketInfo,
};

verus! {

/// A key frame of a wanted stream at or behind the end of the segment.
pub open spec fn closes_video(g: PickerView, p: PacketInfo) -> bool {
    is_wanted(g, p.stream_id) && p.is_video && p.is_key && shown_90k(p) >= g.end_90k
}

proof fn lemma_picker_keeps_setup(g: PickerView, packets: Seq<PacketInfo>)
    ensures
        ({
            let (kept, stopped, after) = buffered(g, packets);
            after.kind == g.kind && after.streams == g.streams && after.audio_track
                == g.audio_track && after.end_90k == g.end_90k
        }),
        buffered(g, packets).0.len() <= packets.len(),
    decreases packets.len(),
{
    if packets.len() > 0 {
        lemma_picker_keeps_setup(g, packets.drop_last());
    }
}

proof fn lemma_closed_video_is_done(g: PickerView, packets: Seq<PacketInfo>, j: int)
    requires
        0 <= j < packets.len(),
        closes_video(g, packets[j]),
    ensures
        buffered(g, packets).1 || buffered(g, packets).2.video_done,
    decreases packets.len(),
{
    let before = packets.drop_last();
    lemma_picker_keeps_setup(g, before);
    if j < before.len() {
        lemma_closed_video_is_done(g, before, j);
    }
}

/// The packets of a segment come in the order of the file, from wanted streams. No audio of
/// an interleaved segment is shown at or behind its end, and no video follows a key frame
/// there.
pub proof fn law_kept_packets(g: PickerView, packets: Seq<PacketInfo>, k: int)
    requires
        0 <= k < buffered(g, packets).0.len(),
    ensures
        ({
            let kept = buffered(g, packets).0;
            let i = kept[k];
            let p = packets[i];
            &&& 0 <= i < packets.len()
            &&& k > 0 ==> kept[k - 1] < i
            &&& is_wanted(g, p.stream_id)
            &&& g.kind is Av && !p.is_video ==> shown_90k(p) < g.end_90k
            &&& p.is_video ==> forall|j: int|
                0 <= j <= i ==> !closes_video(g, #[trigger] packets[j])
        }),
    decreases packets.len(),
{
    if packets.len() > 0 {
        let before = packets.drop_last();
        let (kept, stopped, picker) = buffered(g, before);
        lemma_picker_keeps_setup(g, before);
        if k < kept.len() {
            law_kept_packets(g, before, k);
            let i = kept[k];
            assert(packets[i] == before[i]);
            if packets[i].is_video {
                assert forall|j: int| 0 <= j <= i implies !closes_video(
                    g,
                    #[trigger] packets[j],
                ) by {
                    assert(before[j] == packets[j]);
                }
            }
        } else {
            let i = packets.len() - 1;
            let p = packets[i];
            if k > 0 {
                law_kept_packets(g, before, k - 1);
            }
            if p.is_video {
                assert forall|j: int| 0 <= j <= i implies !closes_video(
                    g,
                    #[trigger] packets[j],
                ) by {
                    if j < i && closes_video(g, packets[j]) {
                        assert(before[j] == packets[j]);
                        lemma_closed_video_is_done(g, before, j);
                    }
                }
            }
        }
    }
}

/// The positions of the buffered packets among some writes.
pub open spec fn buffered_positions(writes: Seq<Write>) -> Seq<int>
    decreases writes.len(),
{
    if writes.len() == 0 {
        Seq::empty()
    } else {
        let before = buffered_positions(writes.drop_last());
        match writes.last().source {
            Source::Buffered(at) => before.push(at as int),
            Source::Transcoded(_) => before,
        }
    }
}

/// The positions of the transcoded packets among some writes.
pub open spec fn transcoded_positions(writes: Seq<Write>) -> Seq<int>
    decreases writes.len(),
{
    if writes.len() == 0 {
        Seq::empty()
    } else {
        let before = transcoded_positions(writes.drop_last());
        match writes.last().source {
            Source::Transcoded(at) => before.push(at as int),
            Source::Buffered(_) => before,
        }
    }
}

/// The positions of the packets that are written.
pub open spec fn written_positions(setup: MuxSetup, packets: Seq<PacketInfo>) -> Seq<int>
    decreases packets.len(),
{
    if packets.len() == 0 {
        Seq::empty()
    } else {
        let before = written_positions(setup, packets.drop_last());
        if is_written(setup, packets.last()) {
            before.push(packets.len() - 1)
        } else {
            before
        }
    }
}

/// The numbers below `n`.
pub open spec fn upto(n: nat) -> Seq<int> {
    Seq::new(n, |i: int| i)
}

proof fn lemma_push_write(writes: Seq<Write>, w: Write)
    ensures
        buffered_positions(writes.push(w)) == match w.source {
            Source::Buffered(at) => buffered_positions(writes).push(at as int),
            Source::Transcoded(_) => buffered_positions(writes),
        },
        transcoded_positions(writes.push(w)) == match w.source {
            Source::Transcoded(at) => transcoded_positions(writes).push(at as int),
            Source::Buffered(_) => transcoded_positions(writes),
        },
{
    assert(writes.push(w).drop_last() =~= writes);
}

/// When a transcoded packet is decoded, in ticks of 1/90000 s.
pub open spec fn audio_90k(setup: MuxSetup, a: Stamp) -> int {
    rescaled(shown_at(a.dts, a.pts) as int, setup.audio_timebase->Some_0, clock_90k())
}

/// The transcoded packets that go in front of a buffered one are those that are decoded no
/// later, up to the first that is.
pub proof fn law_audio_upto(plan: PlanView, setup: MuxSetup, audio: Seq<Stamp>, until: int)
    requires
        plan.next <= audio.len() <= usize::MAX,
        transcoded_positions(plan.writes) == upto(plan.next),
    ensures
        ({
            let out = with_audio_upto(plan, setup, audio, until);
            &&& plan.next <= out.next <= audio.len()
            &&& forall|k: int|
                plan.next <= k < out.next ==> audio_90k(setup, #[trigger] audio[k]) <= until
            &&& out.next < audio.len() ==> audio_90k(setup, audio[out.next as int]) > until
            &&& transcoded_positions(out.writes) == upto(out.next)
            &&& buffered_positions(out.writes) == buffered_positions(plan.writes)
            &&& out.video_seen == plan.video_seen
        }),
    decreases audio.len() - plan.next,
{
    if plan.next < audio.len() {
        let a = audio[plan.next as int];
        if audio_90k(setup, a) <= until {
            let w = Write {
                source: Source::Transcoded(plan.next as usize),
                stream: setup.audio_track->Some_0,
                pts: a.pts,
                dts: a.dts,
                duration: 1024,
            };
            lemma_push_write(plan.writes, w);
            assert(upto(plan.next).push(plan.next as int) =~= upto(plan.next + 1));
            let dts = shown_at(a.dts, a.pts);
            let next = PlanView {
                writes: plan.writes.push(w),
                first_audio_dts: super::mux_plan::or_else(plan.first_audio_dts, Some(dts)),
                first_packet_dts: super::mux_plan::or_else(plan.first_packet_dts, Some(dts)),
                next: plan.next + 1,
                ..plan
            };
            law_audio_upto(next, setup, audio, until);
        }
    }
}

proof fn lemma_planned(setup: MuxSetup, audio: Seq<Stamp>, packets: Seq<PacketInfo>)
    requires
        audio.len() <= usize::MAX,
        packets.len() <= usize::MAX,
    ensures
        ({
            let plan = planned(setup, audio, packets);
            &&& plan.next <= audio.len()
            &&& transcoded_positions(plan.writes) == upto(plan.next)
            &&& buffered_positions(plan.writes) == written_positions(setup, packets)
            &&& !setup.transcode ==> plan.next == 0
        }),
    decreases packets.len(),
{
    if packets.len() == 0 {
        assert(upto(0) =~= Seq::<int>::empty());
    } else {
        let before = packets.drop_last();
        let p = packets.last();
        let plan = planned(setup, audio, before);
        lemma_planned(setup, audio, before);
        if is_written(setup, p) {
            let w = write_of(plan, setup, p, (packets.len() - 1) as usize);
            let timed = PlanView {
                video_seen: plan.video_seen || p.is_video,
                ..with_first_times(plan, setup, p, w)
            };
            let ready = if setup.transcode {
                law_audio_upto(timed, setup, audio, decoded_90k(p));
                with_audio_upto(timed, setup, audio, decoded_90k(p))
            } else {
                timed
            };
            lemma_push_write(ready.writes, w);
        }
    }
}

/// A segment holds every packet from its start on, once and in order, and every transcoded
/// packet, once and in order.
pub proof fn law_plan_is_complete(setup: MuxSetup, audio: Seq<Stamp>, packets: Seq<PacketInfo>)
    requires
        audio.len() <= usize::MAX,
        packets.len() <= usize::MAX,
    ensures
        buffered_positions(mux_plan(setup, audio, packets).writes) == written_positions(
            setup,
            packets,
        ),
        transcoded_positions(mux_plan(setup, audio, packets).writes) == upto(
            if setup.transcode {
                audio.len()
            } else {
                0
            },
        ),
{
    lemma_planned(setup, audio, packets);
    let plan = planned(setup, audio, packets);
    if setup.transcode {
        law_audio_upto(plan, setup, audio, i64::MAX as int);
        let out = with_audio_upto(plan, setup, audio, i64::MAX as int);
        if out.next < audio.len() {
            let a = audio[out.next as int];
            assert(audio_90k(setup, a) <= i64::MAX);
        }
    }
}

} // verus!
