//! Which audio a transcoded segment is made of, said of the packets themselves.

use vstd::prelude::*;
use super::audio_merge::{
    identity, is_known, merged, placed, preroll_items, AudioItem, AudioSource,
};
use super::mux_plan::Stamp;
use super::packets::{shown_at, PacketInfo};

verus! {

/// What packets are told apart by: when they are decoded, or else when they are shown.
pub open spec fn mark_of(pts: Option<i64>, dts: Option<i64>) -> i64 {
    match (dts, pts) {
        (Some(t), _) => t,
        (None, Some(t)) => t,
        (None, None) => i64::MIN,
    }
}

/// When a packet is decoded, or else shown, or else 0.
pub open spec fn order_of(pts: Option<i64>, dts: Option<i64>) -> i64 {
    match (dts, pts) {
        (Some(t), _) => t,
        (None, Some(t)) => t,
        (None, None) => 0,
    }
}

/// A packet of the segment is audio of the track that was not read in front of it.
pub open spec fn is_new(
    preroll: Seq<Stamp>,
    packets: Seq<PacketInfo>,
    track: usize,
    j: int,
) -> bool {
    packets[j].stream_id == track && forall|i: int|
        0 <= i < preroll.len() ==> mark_of((#[trigger] preroll[i]).pts, preroll[i].dts) != mark_of(
            packets[j].pts,
            packets[j].dts,
        )
}

/// An item stands for its packet, with the time of that.
pub open spec fn stands_for(
    preroll: Seq<Stamp>,
    packets: Seq<PacketInfo>,
    track: usize,
    x: AudioItem,
) -> bool {
    match x.source {
        AudioSource::Preroll(i) => i < preroll.len() && x.time == order_of(
            preroll[i as int].pts,
            preroll[i as int].dts,
        ),
        AudioSource::Main(j) => j < packets.len() && is_new(preroll, packets, track, j as int)
            && x.time == order_of(packets[j as int].pts, packets[j as int].dts),
    }
}

/// An item comes from further back: what was read in front of the segment comes before the
/// segment, and all in the order of the file.
pub open spec fn is_from_before(a: AudioSource, b: AudioSource) -> bool {
    match (a, b) {
        (AudioSource::Preroll(i), AudioSource::Preroll(j)) => i < j,
        (AudioSource::Preroll(_), AudioSource::Main(_)) => true,
        (AudioSource::Main(i), AudioSource::Main(j)) => i < j,
        (AudioSource::Main(_), AudioSource::Preroll(_)) => false,
    }
}

/// The items are in the order of their times, and with one time in that of the file.
pub open spec fn are_sorted(list: Seq<AudioItem>) -> bool {
    forall|a: int, b: int|
        0 <= a < b < list.len() ==> (#[trigger] list[a]).time < (#[trigger] list[b]).time || (
        list[a].time == list[b].time && is_from_before(list[a].source, list[b].source))
}

/// An item is in a list.
pub open spec fn has_source(list: Seq<AudioItem>, source: AudioSource) -> bool {
    exists|n: int| 0 <= n < list.len() && (#[trigger] list[n]).source == source
}

proof fn lemma_placed(list: Seq<AudioItem>, x: AudioItem)
    requires
        are_sorted(list),
        forall|n: int| 0 <= n < list.len() ==> is_from_before((#[trigger] list[n]).source, x.source),
    ensures
        are_sorted(placed(list, x)),
        placed(list, x).len() == list.len() + 1,
        has_source(placed(list, x), x.source),
        forall|n: int| 0 <= n < list.len() ==> has_source(placed(list, x), (#[trigger] list[n]).source),
        forall|n: int|
            0 <= n < placed(list, x).len() ==> (#[trigger] placed(list, x)[n]) == x
                || list.contains(placed(list, x)[n]),
    decreases list.len(),
{
    let out = placed(list, x);
    if list.len() == 0 || list.last().time <= x.time {
        assert(out[list.len() as int] == x);
        assert forall|n: int| 0 <= n < list.len() implies has_source(
            out,
            (#[trigger] list[n]).source,
        ) by {
            assert(out[n] == list[n]);
        }
        assert forall|n: int| 0 <= n < out.len() implies (#[trigger] out[n]) == x || list.contains(
            out[n],
        ) by {
            if n < list.len() {
                assert(list[n] == out[n]);
            }
        }
        assert forall|a: int, b: int| 0 <= a < b < out.len() implies (#[trigger] out[a]).time < (
        #[trigger] out[b]).time || (out[a].time == out[b].time && is_from_before(
            out[a].source,
            out[b].source,
        )) by {
            if b < list.len() {
                assert(out[a] == list[a] && out[b] == list[b]);
            } else {
                assert(out[a] == list[a]);
                let l = list.len() - 1;
                if a < l {
                    assert(list[a].time <= list[l].time);
                }
            }
        }
    } else {
        let rest = list.drop_last();
        let last = list.last();
        let l = list.len() - 1;
        assert forall|a: int, b: int| 0 <= a < b < rest.len() implies (#[trigger] rest[a]).time < (
        #[trigger] rest[b]).time || (rest[a].time == rest[b].time && is_from_before(
            rest[a].source,
            rest[b].source,
        )) by {
            assert(rest[a] == list[a] && rest[b] == list[b]);
        }
        assert forall|n: int| 0 <= n < rest.len() implies is_from_before(
            (#[trigger] rest[n]).source,
            x.source,
        ) by {
            assert(rest[n] == list[n]);
        }
        lemma_placed(rest, x);
        let part = placed(rest, x);
        assert forall|n: int| 0 <= n < part.len() implies out[n] == #[trigger] part[n] by {}
        assert(out[part.len() as int] == last);
        assert(list[l] == last);
        let m = choose|m: int| 0 <= m < part.len() && (#[trigger] part[m]).source == x.source;
        assert(out[m].source == x.source);
        assert forall|n: int| 0 <= n < list.len() implies has_source(
            out,
            (#[trigger] list[n]).source,
        ) by {
            if n < l {
                assert(rest[n] == list[n]);
                let k = choose|k: int|
                    0 <= k < part.len() && (#[trigger] part[k]).source == rest[n].source;
                assert(out[k].source == list[n].source);
            } else {
                assert(out[part.len() as int].source == list[n].source);
            }
        }
        assert forall|n: int| 0 <= n < out.len() implies (#[trigger] out[n]) == x || list.contains(
            out[n],
        ) by {
            if n < part.len() {
                assert(part[n] == x || rest.contains(part[n]));
                if rest.contains(part[n]) {
                    let k = rest.index_of(part[n]);
                    assert(list[k] == out[n]);
                }
            }
        }
        assert forall|a: int, b: int| 0 <= a < b < out.len() implies (#[trigger] out[a]).time < (
        #[trigger] out[b]).time || (out[a].time == out[b].time && is_from_before(
            out[a].source,
            out[b].source,
        )) by {
            if b < part.len() {
                assert(out[a] == part[a] && out[b] == part[b]);
            } else {
                assert(out[a] == part[a]);
                if part[a] != x {
                    assert(rest.contains(part[a]));
                    let k = rest.index_of(part[a]);
                    assert(list[k] == out[a]);
                    assert(k < l);
                }
            }
        }
    }
}

spec fn are_prerolls(list: Seq<AudioItem>, preroll: Seq<Stamp>, n: int) -> bool {
    &&& are_sorted(list)
    &&& forall|k: int|
        0 <= k < list.len() ==> ((#[trigger] list[k]).source matches AudioSource::Preroll(i) && i < n
            && list[k].time == order_of(preroll[i as int].pts, preroll[i as int].dts))
    &&& forall|i: int|
        0 <= i < n ==> #[trigger] has_source(list, AudioSource::Preroll(i as usize))
}

proof fn lemma_prerolls(preroll: Seq<Stamp>, n: int)
    requires
        0 <= n <= preroll.len() <= usize::MAX,
    ensures
        are_prerolls(preroll_items(preroll.take(n)), preroll, n),
    decreases n,
{
    let head = preroll.take(n);
    let out = preroll_items(head);
    if n > 0 {
        lemma_prerolls(preroll, n - 1);
        assert(head.drop_last() =~= preroll.take(n - 1));
        assert(head.last() == preroll[n - 1]);
        let before = preroll_items(head.drop_last());
        let p = preroll[n - 1];
        let x = AudioItem {
            source: AudioSource::Preroll((n - 1) as usize),
            time: shown_at(p.dts, p.pts),
        };
        lemma_placed(before, x);
        assert forall|k: int| 0 <= k < out.len() implies (
        (#[trigger] out[k]).source matches AudioSource::Preroll(i) && i < n && out[k].time
            == order_of(preroll[i as int].pts, preroll[i as int].dts)) by {
            if out[k] != x {
                assert(before.contains(out[k]));
                let m = before.index_of(out[k]);
                assert(before[m] == out[k]);
            }
        }
        assert forall|i: int| 0 <= i < n implies #[trigger] has_source(
            out,
            AudioSource::Preroll(i as usize),
        ) by {
            if i < n - 1 {
                assert(has_source(before, AudioSource::Preroll(i as usize)));
                let m = choose|m: int|
                    0 <= m < before.len() && (#[trigger] before[m]).source == AudioSource::Preroll(
                        i as usize,
                    );
                assert(has_source(out, before[m].source));
            }
        }
    }
}

proof fn lemma_known(preroll: Seq<Stamp>, packets: Seq<PacketInfo>, track: usize, j: int)
    ensures
        is_new(preroll, packets, track, j) == (packets[j].stream_id == track && !is_known(
            preroll,
            packets[j],
        )),
{
    let p = packets[j];
    assert forall|i: int| 0 <= i < preroll.len() implies mark_of(
        (#[trigger] preroll[i]).pts,
        preroll[i].dts,
    ) == identity(preroll[i].pts, preroll[i].dts) by {}
    if is_known(preroll, p) {
        let i = choose|i: int|
            0 <= i < preroll.len() && identity((#[trigger] preroll[i]).pts, preroll[i].dts)
                == identity(p.pts, p.dts);
        assert(mark_of(preroll[i].pts, preroll[i].dts) == mark_of(p.pts, p.dts));
    }
}

/// The audio of a transcoded segment is everything that was read in front of it and all audio of
/// its track that was not, each once, in the order in which it is decoded.
pub proof fn law_merged_audio(preroll: Seq<Stamp>, packets: Seq<PacketInfo>, track: usize)
    requires
        preroll.len() <= usize::MAX,
        packets.len() <= usize::MAX,
    ensures
        ({
            let out = merged(preroll, packets, track);
            &&& are_sorted(out)
            &&& forall|n: int|
                0 <= n < out.len() ==> stands_for(preroll, packets, track, #[trigger] out[n])
            &&& forall|i: int|
                0 <= i < preroll.len() ==> #[trigger] has_source(
                    out,
                    AudioSource::Preroll(i as usize),
                )
            &&& forall|j: int|
                0 <= j < packets.len() && #[trigger] is_new(preroll, packets, track, j)
                    ==> has_source(out, AudioSource::Main(j as usize))
        }),
    decreases packets.len(),
{
    let out = merged(preroll, packets, track);
    if packets.len() == 0 {
        assert(preroll.take(preroll.len() as int) =~= preroll);
        lemma_prerolls(preroll, preroll.len() as int);
    } else {
        let rest = packets.drop_last();
        let l = packets.len() - 1;
        let p = packets[l];
        let before = merged(preroll, rest, track);
        assert(p == packets.last());
        law_merged_audio(preroll, rest, track);
        lemma_known(preroll, packets, track, l);
        assert forall|n: int| 0 <= n < before.len() implies stands_for(
            preroll,
            packets,
            track,
            #[trigger] before[n],
        ) by {
            assert(stands_for(preroll, rest, track, before[n]));
            if let AudioSource::Main(j) = before[n].source {
                assert(rest[j as int] == packets[j as int]);
            }
        }
        if is_new(preroll, packets, track, l) {
            let x = AudioItem {
                source: AudioSource::Main(l as usize),
                time: shown_at(p.dts, p.pts),
            };
            assert forall|n: int| 0 <= n < before.len() implies is_from_before(
                (#[trigger] before[n]).source,
                x.source,
            ) by {
                assert(stands_for(preroll, rest, track, before[n]));
            }
            lemma_placed(before, x);
            assert forall|n: int| 0 <= n < out.len() implies stands_for(
                preroll,
                packets,
                track,
                #[trigger] out[n],
            ) by {
                if out[n] != x {
                    assert(before.contains(out[n]));
                    let m = before.index_of(out[n]);
                    assert(before[m] == out[n]);
                }
            }
        }
        assert forall|i: int| 0 <= i < preroll.len() implies #[trigger] has_source(
            out,
            AudioSource::Preroll(i as usize),
        ) by {
            assert(has_source(before, AudioSource::Preroll(i as usize)));
            let m = choose|m: int|
                0 <= m < before.len() && (#[trigger] before[m]).source == AudioSource::Preroll(
                    i as usize,
                );
            assert(has_source(out, before[m].source));
        }
        assert forall|j: int| 0 <= j < packets.len() && #[trigger] is_new(
            preroll,
            packets,
            track,
            j,
        ) implies has_source(out, AudioSource::Main(j as usize)) by {
            if j < l {
                assert(rest[j] == packets[j]);
                assert(is_new(preroll, rest, track, j));
                let m = choose|m: int|
                    0 <= m < before.len() && (#[trigger] before[m]).source == AudioSource::Main(
                        j as usize,
                    );
                assert(has_source(out, before[m].source));
            }
        }
    }
}

} // verus!
