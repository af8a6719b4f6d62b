//! The audio packets that are transcoded for a segment: those of the segment and, in front of
//! them, those from a separate seek.

use vstd::prelude::*;
use super::mux_plan::Stamp;
use super::packets::{shown_at, shown_time, PacketInfo};

verus! {

/// Where an audio packet comes from.
#[derive(Debug, Clone, Copy, PartialEq, Eq, Structural)]
pub enum AudioSource {
    /// The packet at a position of those from in front of the segment.
    Preroll(usize),
    /// The packet at a position of those of the segment.
    Main(usize),
}

/// An audio packet and the time by which it is ordered.
#[derive(Debug, Clone, Copy, PartialEq, Eq, Structural)]
pub struct AudioItem {
    pub source: AudioSource,
    pub time: i64,
}

/// By what a packet is told apart: its decode time, or else its presentation time.
pub open spec fn identity(pts: Option<i64>, dts: Option<i64>) -> i64 {
    match dts {
        Some(t) => t,
        None => match pts {
            Some(t) => t,
            None => i64::MIN,
        },
    }
}

fn find_identity(pts: Option<i64>, dts: Option<i64>) -> (t: i64)
    ensures
        t == identity(pts, dts),
{
    match dts {
        Some(t) => t,
        None => match pts {
            Some(t) => t,
            None => i64::MIN,
        },
    }
}

/// A packet is among those from in front of the segment.
pub open spec fn is_known(preroll: Seq<Stamp>, p: PacketInfo) -> bool {
    exists|i: int|
        0 <= i < preroll.len() && identity((#[trigger] preroll[i]).pts, preroll[i].dts) == identity(
            p.pts,
            p.dts,
        )
}

/// `x` put behind the packets that are not later.
pub open spec fn placed(sorted: Seq<AudioItem>, x: AudioItem) -> Seq<AudioItem>
    decreases sorted.len(),
{
    if sorted.len() == 0 || sorted.last().time <= x.time {
        sorted.push(x)
    } else {
        placed(sorted.drop_last(), x).push(sorted.last())
    }
}

/// The packets from in front of the segment, in order of time.
pub open spec fn preroll_items(preroll: Seq<Stamp>) -> Seq<AudioItem>
    decreases preroll.len(),
{
    if preroll.len() == 0 {
        Seq::empty()
    } else {
        let p = preroll.last();
        placed(
            preroll_items(preroll.drop_last()),
            AudioItem {
                source: AudioSource::Preroll((preroll.len() - 1) as usize),
                time: shown_at(p.dts, p.pts),
            },
        )
    }
}

/// All audio packets, in order of time; of packets with one time, those that came first are
/// first. A packet of the segment that came with those in front of it is left out.
pub open spec fn merged(preroll: Seq<Stamp>, packets: Seq<PacketInfo>, track: usize) -> Seq<
    AudioItem,
>
    decreases packets.len(),
{
    if packets.len() == 0 {
        preroll_items(preroll)
    } else {
        let before = merged(preroll, packets.drop_last(), track);
        let p = packets.last();
        if p.stream_id == track && !is_known(preroll, p) {
            placed(
                before,
                AudioItem {
                    source: AudioSource::Main((packets.len() - 1) as usize),
                    time: shown_at(p.dts, p.pts),
                },
            )
        } else {
            before
        }
    }
}

proof fn lemma_placed_at(sorted: Seq<AudioItem>, x: AudioItem, pos: int)
    requires
        0 <= pos <= sorted.len(),
        forall|k: int| pos <= k < sorted.len() ==> (#[trigger] sorted[k]).time > x.time,
        pos > 0 ==> sorted[pos - 1].time <= x.time,
    ensures
        placed(sorted, x) == sorted.insert(pos, x),
    decreases sorted.len(),
{
    if pos == sorted.len() {
        assert(sorted.push(x) =~= sorted.insert(pos, x));
    } else {
        let rest = sorted.drop_last();
        assert forall|k: int| pos <= k < rest.len() implies (#[trigger] rest[k]).time > x.time by {
            assert(rest[k] == sorted[k]);
        }
        lemma_placed_at(rest, x, pos);
        assert(rest.insert(pos, x).push(sorted.last()) =~= sorted.insert(pos, x));
    }
}

fn place(sorted: &mut Vec<AudioItem>, x: AudioItem)
    ensures
        final(sorted)@ == placed(old(sorted)@, x),
{
    let mut pos: usize = sorted.len();
    while pos > 0 && sorted[pos - 1].time > x.time
        invariant
            pos <= sorted@.len(),
            sorted@ == old(sorted)@,
            forall|k: int| pos <= k < sorted@.len() ==> (#[trigger] sorted@[k]).time > x.time,
        decreases pos,
    {
        pos -= 1;
    }
    proof {
        lemma_placed_at(sorted@, x, pos as int);
    }
    sorted.insert(pos, x);
}

fn is_in_preroll(preroll: &[Stamp], p: &PacketInfo) -> (b: bool)
    ensures
        b == is_known(preroll@, *p),
{
    let own: i64 = find_identity(p.pts, p.dts);
    let mut i: usize = 0;
    while i < preroll.len()
        invariant
            i <= preroll@.len(),
            own == identity(p.pts, p.dts),
            forall|j: int|
                0 <= j < i ==> identity((#[trigger] preroll@[j]).pts, preroll@[j].dts) != own,
        decreases preroll.len() - i,
    {
        if find_identity(preroll[i].pts, preroll[i].dts) == own {
            assert(identity(preroll@[i as int].pts, preroll@[i as int].dts) == own);
            return true;
        }
        i += 1;
    }
    false
}

/// Joins the audio packets of a segment with those from in front of it, without repeats and
/// in order of time.
pub fn merge_audio(preroll: &[Stamp], packets: &[PacketInfo], track: usize) -> (out: Vec<
    AudioItem,
>)
    ensures
        out@ == merged(preroll@, packets@, track),
{
    let mut out: Vec<AudioItem> = Vec::new();
    let mut i: usize = 0;
    while i < preroll.len()
        invariant
            i <= preroll@.len(),
            out@ == preroll_items(preroll@.take(i as int)),
        decreases preroll.len() - i,
    {
        assert(preroll@.take(i + 1).drop_last() =~= preroll@.take(i as int));
        let p: Stamp = preroll[i];
        place(
            &mut out,
            AudioItem { source: AudioSource::Preroll(i), time: shown_time(p.dts, p.pts) },
        );
        i += 1;
    }
    assert(preroll@.take(preroll@.len() as int) =~= preroll@);
    assert(out@ == merged(preroll@, packets@.take(0), track));
    let mut i: usize = 0;
    while i < packets.len()
        invariant
            i <= packets@.len(),
            out@ == merged(preroll@, packets@.take(i as int), track),
        decreases packets.len() - i,
    {
        assert(packets@.take(i + 1).drop_last() =~= packets@.take(i as int));
        let p: &PacketInfo = &packets[i];
        if p.stream_id == track && !is_in_preroll(preroll, p) {
            place(
                &mut out,
                AudioItem { source: AudioSource::Main(i), time: shown_time(p.dts, p.pts) },
            );
        }
        i += 1;
    }
    assert(packets@.take(packets@.len() as int) =~= packets@);
    out
}

/// No packet is earlier than the one in front of it.
pub open spec fn is_ordered(list: Seq<AudioItem>) -> bool {
    forall|i: int, j: int| 0 <= i <= j < list.len() ==> list[i].time <= list[j].time
}

proof fn lemma_placed_ordered(sorted: Seq<AudioItem>, x: AudioItem)
    requires
        is_ordered(sorted),
    ensures
        is_ordered(placed(sorted, x)),
        placed(sorted, x).len() == sorted.len() + 1,
        forall|i: int|
            0 <= i < placed(sorted, x).len() ==> #[trigger] placed(sorted, x)[i] == x
                || sorted.contains(placed(sorted, x)[i]),
    decreases sorted.len(),
{
    if sorted.len() > 0 && sorted.last().time > x.time {
        let rest = sorted.drop_last();
        lemma_placed_ordered(rest, x);
        let part = placed(rest, x);
        let out = placed(sorted, x);
        assert forall|i: int| 0 <= i < out.len() implies #[trigger] out[i] == x
            || sorted.contains(out[i]) by {
            if i < part.len() {
                assert(out[i] == part[i]);
                if part[i] != x {
                    let k = rest.index_of(part[i]);
                    assert(sorted[k] == part[i]);
                }
            } else {
                assert(out[i] == sorted[sorted.len() - 1]);
            }
        }
        assert forall|i: int, j: int| 0 <= i <= j < out.len() implies out[i].time
            <= out[j].time by {
            if j < part.len() {
                assert(part[i].time <= part[j].time);
            } else if i < part.len() {
                assert(part[i] == x || rest.contains(part[i]));
                if part[i] != x {
                    let k = rest.index_of(part[i]);
                    assert(sorted[k].time <= sorted[sorted.len() - 1].time);
                }
            }
        }
    } else {
        let out = placed(sorted, x);
        assert forall|i: int, j: int| 0 <= i <= j < out.len() implies out[i].time
            <= out[j].time by {
            if sorted.len() > 0 && i < sorted.len() {
                assert(sorted[i].time <= sorted[sorted.len() - 1].time);
            }
        }
        assert forall|i: int| 0 <= i < out.len() implies #[trigger] out[i] == x
            || sorted.contains(out[i]) by {
            if i < sorted.len() {
                assert(sorted[i] == out[i]);
            }
        }
    }
}

proof fn lemma_preroll_ordered(preroll: Seq<Stamp>)
    ensures
        is_ordered(preroll_items(preroll)),
    decreases preroll.len(),
{
    if preroll.len() > 0 {
        lemma_preroll_ordered(preroll.drop_last());
        let p = preroll.last();
        lemma_placed_ordered(
            preroll_items(preroll.drop_last()),
            AudioItem {
                source: AudioSource::Preroll((preroll.len() - 1) as usize),
                time: shown_at(p.dts, p.pts),
            },
        );
    }
}

/// The audio packets for a decoder come in order of time.
pub proof fn law_merged_is_ordered(preroll: Seq<Stamp>, packets: Seq<PacketInfo>, track: usize)
    ensures
        is_ordered(merged(preroll, packets, track)),
    decreases packets.len(),
{
    if packets.len() == 0 {
        lemma_preroll_ordered(preroll);
    } else {
        let before = packets.drop_last();
        law_merged_is_ordered(preroll, before, track);
        let p = packets.last();
        lemma_placed_ordered(
            merged(preroll, before, track),
            AudioItem {
                source: AudioSource::Main((packets.len() - 1) as usize),
                time: shown_at(p.dts, p.pts),
            },
        );
    }
}

} // verus!
