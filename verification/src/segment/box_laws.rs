//! What patching does to a segment, seen as the list of its boxes.

use vstd::prelude::*;
use crate::big_endian::{be32, lemma_be32_reads_back, lemma_be64_reads_back};
use super::isobmff::{
    after_first, decode_time, delta_for, first_payload, first_type, fourcc, fragment_containers,
    has_decode_time, is_listed, lemma_walk_keeps_length, next_seq, plus64, starts_with_box,
    tfdt_patch, track_tfdt_patch, trex_fixed, trex_fixed_per_track, walked, with_decode_time,
    BoxVisitor, TfdtPatch, TrackTfdtPatch, TrackTrexFix, TrexFix,
};

verus! {

/// A box that is no container: its type and its payload.
pub struct Leaf {
    pub btype: Seq<u8>,
    pub payload: Seq<u8>,
}

/// The boxes that a traversal of `data` meets, in its order, without the containers
/// that it enters.
pub open spec fn leaves(data: Seq<u8>, containers: Seq<[u8; 4]>) -> Seq<Leaf>
    decreases data.len(),
{
    if starts_with_box(data) {
        let first = if is_listed(containers, first_type(data)) {
            leaves(first_payload(data), containers)
        } else {
            seq![Leaf { btype: first_type(data), payload: first_payload(data) }]
        };
        first + leaves(after_first(data), containers)
    } else {
        Seq::empty()
    }
}

/// The visitor and the boxes after a visit of each box of a list in turn.
pub open spec fn visited_all<V: BoxVisitor>(visitor: V, boxes: Seq<Leaf>) -> (V, Seq<Leaf>)
    decreases boxes.len(),
{
    if boxes.len() == 0 {
        (visitor, Seq::empty())
    } else {
        let (v, out) = visited_all(visitor, boxes.drop_last());
        let (w, payload) = v.visited(boxes.last().btype, boxes.last().payload);
        (w, out.push(Leaf { btype: boxes.last().btype, payload }))
    }
}

/// The visitor does nothing at the containers it enters.
pub open spec fn leaves_alone<V: BoxVisitor>(containers: Seq<[u8; 4]>) -> bool {
    forall|v: V, btype: Seq<u8>, payload: Seq<u8>|
        is_listed(containers, btype) ==> #[trigger] v.visited(btype, payload) == (v, payload)
}

proof fn lemma_visited_all_concat<V: BoxVisitor>(visitor: V, a: Seq<Leaf>, b: Seq<Leaf>)
    ensures
        visited_all(visitor, a + b).0 == visited_all(visited_all(visitor, a).0, b).0,
        visited_all(visitor, a + b).1 == visited_all(visitor, a).1 + visited_all(
            visited_all(visitor, a).0,
            b,
        ).1,
    decreases b.len(),
{
    if b.len() == 0 {
        assert(a + b =~= a);
        assert(visited_all(visitor, a).1 + Seq::<Leaf>::empty() =~= visited_all(visitor, a).1);
    } else {
        assert((a + b).drop_last() =~= a + b.drop_last());
        lemma_visited_all_concat(visitor, a, b.drop_last());
        assert(visited_all(visitor, a + b).1 =~= visited_all(visitor, a).1 + visited_all(
            visited_all(visitor, a).0,
            b,
        ).1);
    }
}

/// A traversal whose visitor does nothing at the containers rewrites the boxes one by
/// one: the boxes of its result are the old ones, visited in order, of the same types.
pub proof fn lemma_walk_visits_leaves<V: BoxVisitor>(
    visitor: V,
    data: Seq<u8>,
    containers: Seq<[u8; 4]>,
)
    requires
        leaves_alone::<V>(containers),
    ensures
        walked(visitor, data, containers).0 == visited_all(visitor, leaves(data, containers)).0,
        leaves(walked(visitor, data, containers).1, containers) == visited_all(
            visitor,
            leaves(data, containers),
        ).1,
    decreases data.len(),
{
    if starts_with_box(data) {
        let btype = first_type(data);
        let (seen, payload) = visitor.visited(btype, first_payload(data));
        visitor.lemma_visited_keeps_length(btype, first_payload(data));
        let (inside, inner) = if is_listed(containers, btype) {
            walked(seen, payload, containers)
        } else {
            (seen, payload)
        };
        if is_listed(containers, btype) {
            lemma_walk_keeps_length(seen, payload, containers);
            lemma_walk_visits_leaves(visitor, first_payload(data), containers);
        }
        let rest = walked(inside, after_first(data), containers).1;
        lemma_walk_keeps_length(inside, after_first(data), containers);
        lemma_walk_visits_leaves(inside, after_first(data), containers);
        let out = walked(visitor, data, containers).1;
        assert(out == data.subrange(0, 8) + inner + rest);
        assert(be32(out, 0) == be32(data, 0));
        assert(first_type(out) =~= btype);
        assert(first_payload(out) =~= inner);
        assert(after_first(out) =~= rest);
        let head = if is_listed(containers, btype) {
            leaves(first_payload(data), containers)
        } else {
            seq![Leaf { btype, payload: first_payload(data) }]
        };
        let head_out = if is_listed(containers, btype) {
            leaves(inner, containers)
        } else {
            seq![Leaf { btype, payload: inner }]
        };
        if !is_listed(containers, btype) {
            assert(head.drop_last() =~= Seq::<Leaf>::empty());
            assert(visited_all(visitor, head.drop_last()) == (visitor, Seq::<Leaf>::empty()));
            assert(visited_all(visitor, head).1 =~= head_out);
        }
        assert(visited_all(visitor, head) == (inside, head_out));
        lemma_visited_all_concat(visitor, head, leaves(after_first(data), containers));
    }
}

/// What becomes of the box at `i` depends on the boxes before it and itself.
proof fn lemma_visited_at<V: BoxVisitor>(visitor: V, boxes: Seq<Leaf>, i: int)
    requires
        0 <= i < boxes.len(),
    ensures
        visited_all(visitor, boxes).1.len() == boxes.len(),
        visited_all(visitor, boxes).1[i].btype == boxes[i].btype,
        visited_all(visitor, boxes).1[i].payload == visited_all(visitor, boxes.take(i)).0.visited(
            boxes[i].btype,
            boxes[i].payload,
        ).1,
    decreases boxes.len(),
{
    lemma_visited_all_length(visitor, boxes.drop_last());
    if i == boxes.len() - 1 {
        assert(boxes.take(i) =~= boxes.drop_last());
    } else {
        lemma_visited_at(visitor, boxes.drop_last(), i);
        assert(boxes.drop_last().take(i) =~= boxes.take(i));
    }
}

proof fn lemma_visited_all_length<V: BoxVisitor>(visitor: V, boxes: Seq<Leaf>)
    ensures
        visited_all(visitor, boxes).1.len() == boxes.len(),
    decreases boxes.len(),
{
    if boxes.len() > 0 {
        lemma_visited_all_length(visitor, boxes.drop_last());
    }
}

/// A `tfdt` box with a decode time.
pub open spec fn is_timed(leaf: Leaf) -> bool {
    leaf.btype == fourcc('t', 'f', 'd', 't')@ && has_decode_time(leaf.payload)
}

/// The decode time of the first `tfdt` box of a list.
pub open spec fn first_time(boxes: Seq<Leaf>) -> Option<nat>
    decreases boxes.len(),
{
    if boxes.len() == 0 {
        None
    } else if first_time(boxes.drop_last()) is Some {
        first_time(boxes.drop_last())
    } else if is_timed(boxes.last()) {
        Some(decode_time(boxes.last().payload))
    } else {
        None
    }
}

/// The number of `mfhd` boxes in a list.
pub open spec fn fragment_count(boxes: Seq<Leaf>) -> nat {
    boxes.filter(|leaf: Leaf| leaf.btype == fourcc('m', 'f', 'h', 'd')@).len()
}

/// A decode time moved by `distance`, at the width of the box that holds it.
pub open spec fn moved_time(payload: Seq<u8>, distance: int) -> nat {
    ((decode_time(payload) + distance) % (if payload[0] == 1 {
        0x1_0000_0000_0000_0000
    } else {
        0x1_0000_0000
    })) as nat
}

/// Equal but for the bytes from `at` up to `end`.
pub open spec fn differs_only_in(a: Seq<u8>, b: Seq<u8>, at: int, end: int) -> bool {
    a.len() == b.len() && forall|i: int| 0 <= i < a.len() && !(at <= i < end) ==> a[i] == b[i]
}

#[verifier::rlimit(30)]
proof fn lemma_tfdt_patch_state(target: u64, seq: u32, boxes: Seq<Leaf>)
    ensures
        ({
            let v = visited_all(tfdt_patch(target, seq), boxes).0;
            &&& v.target_time == target
            &&& v.next_seq == (seq + fragment_count(boxes)) % 0x1_0000_0000
            &&& v.delta == match first_time(boxes) {
                Some(t) => Some(plus64(target as int, -t)),
                None => None,
            }
        }),
    decreases boxes.len(),
{
    reveal(Seq::filter);
    if boxes.len() > 0 {
        lemma_tfdt_patch_state(target, seq, boxes.drop_last());
    }
}

proof fn lemma_moved(t: int, first: int, target: u64, distance: u64)
    requires
        distance == plus64(target as int, -first),
    ensures
        plus64(t, distance as int) == (t + (target - first)) % 0x1_0000_0000_0000_0000,
        plus64(t, distance as int) % 0x1_0000_0000 == (t + (target - first)) % 0x1_0000_0000,
{
    vstd::arithmetic::div_mod::lemma_add_mod_noop_right(
        t,
        target - first,
        0x1_0000_0000_0000_0000,
    );
}

#[verifier::spinoff_prover]
proof fn lemma_retimed(payload: Seq<u8>, first: int, target: u64, distance: u64)
    requires
        has_decode_time(payload),
        distance == plus64(target as int, -first),
    ensures
        ({
            let out = with_decode_time(
                payload,
                plus64(decode_time(payload) as int, distance as int),
            );
            &&& has_decode_time(out)
            &&& decode_time(out) == moved_time(payload, target - first)
            &&& differs_only_in(payload, out, 4, if payload[0] == 1 {
                12
            } else {
                8
            })
        }),
{
    let time = plus64(decode_time(payload) as int, distance as int);
    lemma_moved(decode_time(payload) as int, first, target, distance);
    if payload[0] == 1 {
        lemma_be64_reads_back(payload, 4, time);
    } else {
        lemma_be32_reads_back(payload, 4, (time % 0x1_0000_0000) as u32);
    }
}

/// Patching moves every decode time by the distance that brings the first one to the
/// target, numbers the fragments consecutively, and changes nothing else.
pub proof fn law_patch_tfdts(data: Seq<u8>, target: u64, seq: u32, i: int)
    requires
        0 <= i < leaves(data, fragment_containers()).len(),
    ensures
        ({
            let before = leaves(data, fragment_containers());
            let after = leaves(
                walked(tfdt_patch(target, seq), data, fragment_containers()).1,
                fragment_containers(),
            );
            let (a, b) = (after[i], before[i]);
            &&& after.len() == before.len()
            &&& a.btype == b.btype
            &&& if is_timed(b) {
                &&& first_time(before) is Some
                &&& has_decode_time(a.payload)
                &&& decode_time(a.payload) == moved_time(
                    b.payload,
                    target - first_time(before)->Some_0,
                )
                &&& differs_only_in(b.payload, a.payload, 4, if b.payload[0] == 1 {
                    12
                } else {
                    8
                })
            } else if b.btype == fourcc('m', 'f', 'h', 'd')@ && b.payload.len() >= 8 {
                &&& be32(a.payload, 4) == (seq + fragment_count(before.take(i))) % 0x1_0000_0000
                &&& differs_only_in(b.payload, a.payload, 4, 8)
            } else {
                a.payload == b.payload
            }
        }),
{
    let c = fragment_containers();
    let v = tfdt_patch(target, seq);
    let before = leaves(data, c);
    lemma_leaves_alone_fragments();
    lemma_walk_visits_leaves(v, data, c);
    lemma_visited_at(v, before, i);
    lemma_tfdt_patch_state(target, seq, before.take(i));
    let b = before[i];
    let state = visited_all(v, before.take(i)).0;
    if is_timed(b) {
        lemma_first_time_prefix(before, i);
        let first = first_time(before)->Some_0;
        lemma_retimed(b.payload, first as int, target, delta_for(state.delta, b.payload, target));
    } else if b.btype == fourcc('m', 'f', 'h', 'd')@ && b.payload.len() >= 8 {
        lemma_be32_reads_back(b.payload, 4, state.next_seq);
    }
}

/// The first decode time of a list that has one up to `i`.
proof fn lemma_first_time_prefix(boxes: Seq<Leaf>, i: int)
    requires
        0 <= i < boxes.len(),
        is_timed(boxes[i]),
    ensures
        first_time(boxes) == match first_time(boxes.take(i)) {
            Some(t) => Some(t),
            None => Some(decode_time(boxes[i].payload)),
        },
    decreases boxes.len(),
{
    if i == boxes.len() - 1 {
        assert(boxes.take(i) =~= boxes.drop_last());
    } else {
        lemma_first_time_prefix(boxes.drop_last(), i);
        assert(boxes.drop_last().take(i) =~= boxes.take(i));
    }
}

proof fn lemma_leaves_alone_fragments()
    ensures
        leaves_alone::<TfdtPatch>(fragment_containers()),
        leaves_alone::<TrackTfdtPatch>(fragment_containers()),
{
    assert forall|btype: Seq<u8>| is_listed(fragment_containers(), btype) implies btype[0]
        == 'm' as u8 && btype[1] == 'o' as u8 || btype[0] == 't' as u8 && btype[1] == 'r' as u8 by {
        let k = choose|k: int|
            0 <= k < fragment_containers().len() && #[trigger] fragment_containers()[k]@ == btype;
        assert(k == 0 || k == 1);
    }
    assert(fourcc('m', 'f', 'h', 'd')@[1] == 'f' as u8);
    assert(fourcc('t', 'f', 'd', 't')@[1] == 'f' as u8);
    assert(fourcc('t', 'f', 'h', 'd')@[1] == 'f' as u8);
    assert forall|v: TfdtPatch, btype: Seq<u8>, payload: Seq<u8>|
        is_listed(fragment_containers(), btype) implies #[trigger] v.visited(btype, payload) == (
        v,
        payload,
    ) by {}
    assert forall|v: TrackTfdtPatch, btype: Seq<u8>, payload: Seq<u8>|
        is_listed(fragment_containers(), btype) implies #[trigger] v.visited(btype, payload) == (
        v,
        payload,
    ) by {}
}

/// Patching sets the first decode time to the target (cut to 32 bits in a box of
/// that width).
pub proof fn law_first_time_is_target(data: Seq<u8>, target: u64, seq: u32, i: int)
    requires
        0 <= i < leaves(data, fragment_containers()).len(),
        is_timed(leaves(data, fragment_containers())[i]),
        first_time(leaves(data, fragment_containers()).take(i)) is None,
    ensures
        ({
            let after = leaves(
                walked(tfdt_patch(target, seq), data, fragment_containers()).1,
                fragment_containers(),
            );
            decode_time(after[i].payload) == if leaves(data, fragment_containers())[i].payload[0]
                == 1 {
                target as nat
            } else {
                target as nat % 0x1_0000_0000
            }
        }),
{
    law_patch_tfdts(data, target, seq, i);
    lemma_first_time_prefix(leaves(data, fragment_containers()), i);
}

/// The track of the last `tfhd` box of a list; 0 before the first.
pub open spec fn current_track(boxes: Seq<Leaf>) -> nat
    decreases boxes.len(),
{
    if boxes.len() == 0 {
        0
    } else if boxes.last().btype == fourcc('t', 'f', 'h', 'd')@ && boxes.last().payload.len()
        >= 8 {
        be32(boxes.last().payload, 4)
    } else {
        current_track(boxes.drop_last())
    }
}

/// The decode time of the first `tfdt` box of a track.
pub open spec fn first_track_time(boxes: Seq<Leaf>, track: nat) -> Option<nat>
    decreases boxes.len(),
{
    if boxes.len() == 0 {
        None
    } else if first_track_time(boxes.drop_last(), track) is Some {
        first_track_time(boxes.drop_last(), track)
    } else if is_timed(boxes.last()) && current_track(boxes.drop_last()) == track {
        Some(decode_time(boxes.last().payload))
    } else {
        None
    }
}

/// The number of `mfhd` boxes in a list that have room for a number.
pub open spec fn numbered_count(boxes: Seq<Leaf>) -> nat {
    boxes.filter(
        |leaf: Leaf| leaf.btype == fourcc('m', 'f', 'h', 'd')@ && leaf.payload.len() >= 8,
    ).len()
}

#[verifier::spinoff_prover]
#[verifier::rlimit(40)]
proof fn lemma_track_patch_state(
    seq: u32,
    video: u32,
    audio: u32,
    video_target: u64,
    audio_target: u64,
    boxes: Seq<Leaf>,
)
    ensures
        ({
            let v = visited_all(
                track_tfdt_patch(seq, video, audio, video_target, audio_target),
                boxes,
            ).0;
            &&& v.video_track == video
            &&& v.audio_track == audio
            &&& v.video_target == video_target
            &&& v.audio_target == audio_target
            &&& v.current_track == current_track(boxes)
            &&& v.next_seq == (seq + numbered_count(boxes)) % 0x1_0000_0000
            &&& v.video_delta == match first_track_time(boxes, video as nat) {
                Some(t) => Some(plus64(video_target as int, -t)),
                None => None,
            }
            &&& video != audio ==> v.audio_delta == match first_track_time(boxes, audio as nat) {
                Some(t) => Some(plus64(audio_target as int, -t)),
                None => None,
            }
        }),
    decreases boxes.len(),
{
    reveal(Seq::filter);
    if boxes.len() > 0 {
        let start = track_tfdt_patch(seq, video, audio, video_target, audio_target);
        let before = boxes.drop_last();
        lemma_track_patch_state(seq, video, audio, video_target, audio_target, before);
        let last = boxes.last();
        let v = visited_all(start, before).0;
        let w = v.visited(last.btype, last.payload).0;
        assert(visited_all(start, boxes).0 == w);
        lemma_box_names_differ();
        if last.btype == fourcc('m', 'f', 'h', 'd')@ {
            assert(!is_timed(last));
            assert(w.video_delta == v.video_delta && w.audio_delta == v.audio_delta);
            assert(w.current_track == v.current_track);
        } else if last.btype == fourcc('t', 'f', 'h', 'd')@ {
            assert(!is_timed(last));
            assert(w.video_delta == v.video_delta && w.audio_delta == v.audio_delta);
            if last.payload.len() >= 8 {
                assert(be32(last.payload, 4) < 0x1_0000_0000);
            }
        } else if last.btype == fourcc('t', 'f', 'd', 't')@ {
            assert(w.current_track == v.current_track && w.next_seq == v.next_seq);
        } else {
            assert(w == v);
        }
    }
}

proof fn lemma_box_names_differ()
    ensures
        fourcc('t', 'f', 'h', 'd')@ != fourcc('t', 'f', 'd', 't')@,
        fourcc('m', 'f', 'h', 'd')@ != fourcc('t', 'f', 'd', 't')@,
        fourcc('m', 'f', 'h', 'd')@ != fourcc('t', 'f', 'h', 'd')@,
{
    assert(fourcc('t', 'f', 'h', 'd')@[2] == 'h' as u8);
    assert(fourcc('t', 'f', 'd', 't')@[2] == 'd' as u8);
    assert(fourcc('m', 'f', 'h', 'd')@[0] == 'm' as u8);
    assert(fourcc('t', 'f', 'd', 't')@[0] == 't' as u8);
    assert(fourcc('t', 'f', 'h', 'd')@[0] == 't' as u8);
}

proof fn lemma_first_track_time_prefix(boxes: Seq<Leaf>, track: nat, i: int)
    requires
        0 <= i < boxes.len(),
        is_timed(boxes[i]),
        current_track(boxes.take(i)) == track,
    ensures
        first_track_time(boxes, track) == match first_track_time(boxes.take(i), track) {
            Some(t) => Some(t),
            None => Some(decode_time(boxes[i].payload)),
        },
    decreases boxes.len(),
{
    if i == boxes.len() - 1 {
        assert(boxes.take(i) =~= boxes.drop_last());
    } else {
        assert(boxes.drop_last().take(i) =~= boxes.take(i));
        lemma_first_track_time_prefix(boxes.drop_last(), track, i);
    }
}

/// Patching two tracks moves every decode time of either by the distance that brings
/// the track's first one to the track's target, numbers the fragments consecutively,
/// and changes nothing else.
pub proof fn law_patch_tfdts_per_track(
    data: Seq<u8>,
    seq: u32,
    video: u32,
    audio: u32,
    video_target: u64,
    audio_target: u64,
    i: int,
)
    requires
        video != audio,
        0 <= i < leaves(data, fragment_containers()).len(),
    ensures
        ({
            let before = leaves(data, fragment_containers());
            let after = leaves(
                walked(
                    track_tfdt_patch(seq, video, audio, video_target, audio_target),
                    data,
                    fragment_containers(),
                ).1,
                fragment_containers(),
            );
            let (a, b) = (after[i], before[i]);
            let track = current_track(before.take(i));
            let width = if b.payload[0] == 1 {
                12int
            } else {
                8int
            };
            &&& after.len() == before.len()
            &&& a.btype == b.btype
            &&& if is_timed(b) && (track == video || track == audio) {
                let target = if track == video {
                    video_target
                } else {
                    audio_target
                };
                &&& first_track_time(before, track) is Some
                &&& has_decode_time(a.payload)
                &&& decode_time(a.payload) == moved_time(
                    b.payload,
                    target - first_track_time(before, track)->Some_0,
                )
                &&& differs_only_in(b.payload, a.payload, 4, width)
            } else if b.btype == fourcc('m', 'f', 'h', 'd')@ && b.payload.len() >= 8 {
                &&& be32(a.payload, 4) == (seq + numbered_count(before.take(i))) % 0x1_0000_0000
                &&& differs_only_in(b.payload, a.payload, 4, 8)
            } else {
                a.payload == b.payload
            }
        }),
{
    let c = fragment_containers();
    let v = track_tfdt_patch(seq, video, audio, video_target, audio_target);
    let before = leaves(data, c);
    lemma_leaves_alone_fragments();
    lemma_walk_visits_leaves(v, data, c);
    lemma_visited_at(v, before, i);
    lemma_track_patch_state(seq, video, audio, video_target, audio_target, before.take(i));
    let b = before[i];
    let track = current_track(before.take(i));
    let state = visited_all(v, before.take(i)).0;
    assert(fourcc('t', 'f', 'h', 'd')@[2] == 'h' as u8);
    assert(fourcc('t', 'f', 'd', 't')@[2] == 'd' as u8);
    assert(fourcc('m', 'f', 'h', 'd')@[0] == 'm' as u8);
    assert(fourcc('t', 'f', 'd', 't')@[0] == 't' as u8);
    if is_timed(b) && (track == video || track == audio) {
        lemma_first_track_time_prefix(before, track, i);
        let first = first_track_time(before, track)->Some_0;
        if track == video {
            lemma_retimed(
                b.payload,
                first as int,
                video_target,
                delta_for(state.video_delta, b.payload, video_target),
            );
        } else {
            lemma_retimed(
                b.payload,
                first as int,
                audio_target,
                delta_for(state.audio_delta, b.payload, audio_target),
            );
        }
    } else if b.btype == fourcc('m', 'f', 'h', 'd')@ && b.payload.len() >= 8 {
        lemma_be32_reads_back(b.payload, 4, state.next_seq);
    }
}

/// Two visitors that make the same of every box leave the same bytes.
proof fn lemma_same_boxes_same_bytes<V: BoxVisitor, W: BoxVisitor>(
    v: V,
    w: W,
    data: Seq<u8>,
    containers: Seq<[u8; 4]>,
)
    requires
        leaves_alone::<V>(containers),
        leaves_alone::<W>(containers),
        visited_all(v, leaves(data, containers)).1 == visited_all(w, leaves(data, containers)).1,
    ensures
        walked(v, data, containers).1 == walked(w, data, containers).1,
    decreases data.len(),
{
    if starts_with_box(data) {
        let btype = first_type(data);
        let content = first_payload(data);
        let rest = after_first(data);
        let behind = leaves(rest, containers);
        if is_listed(containers, btype) {
            let inside = leaves(content, containers);
            assert(leaves(data, containers) == inside + behind);
            lemma_same_parts(v, w, inside, behind);
            assert(v.visited(btype, content) == (v, content));
            assert(w.visited(btype, content) == (w, content));
            lemma_same_boxes_same_bytes(v, w, content, containers);
            lemma_walk_visits_leaves(v, content, containers);
            lemma_walk_visits_leaves(w, content, containers);
            lemma_same_boxes_same_bytes(
                walked(v, content, containers).0,
                walked(w, content, containers).0,
                rest,
                containers,
            );
        } else {
            let own = seq![Leaf { btype, payload: content }];
            assert(leaves(data, containers) == own + behind);
            lemma_same_parts(v, w, own, behind);
            assert(own.drop_last() =~= Seq::<Leaf>::empty());
            assert(visited_all(v, own.drop_last()) == (v, Seq::<Leaf>::empty()));
            assert(visited_all(w, own.drop_last()) == (w, Seq::<Leaf>::empty()));
            assert(visited_all(v, own).1[0].payload == v.visited(btype, content).1);
            assert(visited_all(w, own).1[0].payload == w.visited(btype, content).1);
            lemma_same_boxes_same_bytes(
                v.visited(btype, content).0,
                w.visited(btype, content).0,
                rest,
                containers,
            );
        }
    }
}

/// Visitors that make the same of two lists together make the same of each.
proof fn lemma_same_parts<V: BoxVisitor, W: BoxVisitor>(v: V, w: W, a: Seq<Leaf>, b: Seq<Leaf>)
    requires
        visited_all(v, a + b).1 == visited_all(w, a + b).1,
    ensures
        visited_all(v, a).1 == visited_all(w, a).1,
        visited_all(visited_all(v, a).0, b).1 == visited_all(visited_all(w, a).0, b).1,
{
    let (x, y) = (visited_all(v, a).0, visited_all(w, a).0);
    lemma_visited_all_concat(v, a, b);
    lemma_visited_all_concat(w, a, b);
    lemma_visited_all_length(v, a);
    lemma_visited_all_length(w, a);
    lemma_visited_all_length(x, b);
    lemma_visited_all_length(y, b);
    let whole = visited_all(v, a + b).1;
    assert(visited_all(v, a).1 =~= whole.take(a.len() as int));
    assert(visited_all(w, a).1 =~= whole.take(a.len() as int));
    assert(visited_all(x, b).1 =~= whole.skip(a.len() as int));
    assert(visited_all(y, b).1 =~= whole.skip(a.len() as int));
}

/// Every `tfdt` box of a list belongs to one track, and every `mfhd` box has room for its
/// number.
pub open spec fn is_single_track(boxes: Seq<Leaf>, track: nat) -> bool {
    forall|i: int|
        0 <= i < boxes.len() ==> {
            let b = #[trigger] boxes[i];
            &&& b.btype == fourcc('t', 'f', 'd', 't')@ ==> current_track(boxes.take(i)) == track
            &&& b.btype == fourcc('m', 'f', 'h', 'd')@ ==> b.payload.len() >= 8
        }
}

proof fn lemma_single_track_state(
    seq: u32,
    video: u32,
    audio: u32,
    video_target: u64,
    audio_target: u64,
    boxes: Seq<Leaf>,
)
    requires
        is_single_track(boxes, video as nat),
    ensures
        ({
            let (v, v_out) = visited_all(tfdt_patch(video_target, seq), boxes);
            let (w, w_out) = visited_all(
                track_tfdt_patch(seq, video, audio, video_target, audio_target),
                boxes,
            );
            &&& v_out == w_out
            &&& v.target_time == video_target
            &&& w.video_target == video_target
            &&& w.video_track == video
            &&& w.current_track == current_track(boxes)
            &&& w.next_seq == v.next_seq
            &&& w.video_delta == v.delta
            &&& w.truncated == v.truncated
        }),
    decreases boxes.len(),
{
    if boxes.len() > 0 {
        let before = boxes.drop_last();
        let last = boxes[boxes.len() - 1];
        assert(before =~= boxes.take(boxes.len() - 1));
        assert forall|i: int| 0 <= i < before.len() implies {
            let b = #[trigger] before[i];
            &&& b.btype == fourcc('t', 'f', 'd', 't')@ ==> current_track(before.take(i))
                == video as nat
            &&& b.btype == fourcc('m', 'f', 'h', 'd')@ ==> b.payload.len() >= 8
        } by {
            assert(before[i] == boxes[i]);
            assert(before.take(i) =~= boxes.take(i));
        }
        lemma_single_track_state(seq, video, audio, video_target, audio_target, before);
        lemma_box_names_differ();
        if last.btype == fourcc('t', 'f', 'h', 'd')@ && last.payload.len() >= 8 {
            assert(be32(last.payload, 4) < 0x1_0000_0000);
        }
    }
}

/// On a segment whose only track is the video track, patching two tracks leaves what patching
/// one leaves, whatever the audio track and its target are.
pub proof fn law_single_track_is_patched_alike(
    data: Seq<u8>,
    seq: u32,
    video: u32,
    audio: u32,
    video_target: u64,
    audio_target: u64,
)
    requires
        is_single_track(leaves(data, fragment_containers()), video as nat),
    ensures
        ({
            let c = fragment_containers();
            let one = walked(tfdt_patch(video_target, seq), data, c);
            let two = walked(
                track_tfdt_patch(seq, video, audio, video_target, audio_target),
                data,
                c,
            );
            &&& two.1 == one.1
            &&& two.0.truncated == one.0.truncated
        }),
{
    let c = fragment_containers();
    let v = tfdt_patch(video_target, seq);
    let w = track_tfdt_patch(seq, video, audio, video_target, audio_target);
    lemma_leaves_alone_fragments();
    lemma_single_track_state(seq, video, audio, video_target, audio_target, leaves(data, c));
    lemma_same_boxes_same_bytes(v, w, data, c);
    lemma_walk_visits_leaves(v, data, c);
    lemma_walk_visits_leaves(w, data, c);
}

proof fn lemma_current_track(boxes: Seq<Leaf>, track: nat, n: int)
    requires
        0 <= n <= boxes.len(),
        forall|i: int|
            0 <= i < boxes.len() && (#[trigger] boxes[i]).btype == fourcc('t', 'f', 'h', 'd')@
                ==> boxes[i].payload.len() >= 8 && be32(boxes[i].payload, 4) == track,
        exists|i: int| 0 <= i < n && (#[trigger] boxes[i]).btype == fourcc('t', 'f', 'h', 'd')@,
    ensures
        current_track(boxes.take(n)) == track,
    decreases n,
{
    let last = boxes[n - 1];
    assert(boxes.take(n).last() == last);
    assert(boxes.take(n).drop_last() =~= boxes.take(n - 1));
    if last.btype != fourcc('t', 'f', 'h', 'd')@ {
        let i = choose|i: int|
            0 <= i < n && (#[trigger] boxes[i]).btype == fourcc('t', 'f', 'h', 'd')@;
        assert(i < n - 1);
        lemma_current_track(boxes, track, n - 1);
    }
}

/// A list has a single track if every `tfdt` box comes behind a `tfhd` box and all of those
/// name the track.
pub proof fn law_named_track_is_single(boxes: Seq<Leaf>, track: nat)
    requires
        forall|i: int|
            0 <= i < boxes.len() && (#[trigger] boxes[i]).btype == fourcc('t', 'f', 'h', 'd')@
                ==> boxes[i].payload.len() >= 8 && be32(boxes[i].payload, 4) == track,
        forall|i: int|
            0 <= i < boxes.len() && (#[trigger] boxes[i]).btype == fourcc('t', 'f', 'd', 't')@
                ==> exists|j: int|
                0 <= j < i && (#[trigger] boxes[j]).btype == fourcc('t', 'f', 'h', 'd')@,
        forall|i: int|
            0 <= i < boxes.len() && (#[trigger] boxes[i]).btype == fourcc('m', 'f', 'h', 'd')@
                ==> boxes[i].payload.len() >= 8,
    ensures
        is_single_track(boxes, track),
{
    assert forall|i: int| 0 <= i < boxes.len() implies {
        let b = #[trigger] boxes[i];
        &&& b.btype == fourcc('t', 'f', 'd', 't')@ ==> current_track(boxes.take(i)) == track
        &&& b.btype == fourcc('m', 'f', 'h', 'd')@ ==> b.payload.len() >= 8
    } by {
        if boxes[i].btype == fourcc('t', 'f', 'd', 't')@ {
            lemma_current_track(boxes, track, i);
        }
    }
}

/// The boxes that hold the track defaults.
pub open spec fn trex_containers() -> Seq<[u8; 4]> {
    seq![fourcc('m', 'o', 'o', 'v'), fourcc('m', 'v', 'e', 'x')]
}

proof fn lemma_leaves_alone_trex()
    ensures
        leaves_alone::<TrexFix>(trex_containers()),
{
    assert(fourcc('t', 'r', 'e', 'x')@[0] == 't' as u8);
    assert forall|v: TrexFix, btype: Seq<u8>, payload: Seq<u8>|
        is_listed(trex_containers(), btype) implies #[trigger] v.visited(btype, payload) == (
        v,
        payload,
    ) by {
        let k = choose|k: int|
            0 <= k < trex_containers().len() && #[trigger] trex_containers()[k]@ == btype;
        assert(k == 0 || k == 1);
        assert(btype[0] == 'm' as u8);
    }
}

/// Fixing the track defaults sets the default sample duration of every `trex` box
/// under `moov`/`mvex` and changes nothing else.
pub proof fn law_fix_trex_durations(data: Seq<u8>, duration: u32, i: int)
    requires
        0 <= i < leaves(data, trex_containers()).len(),
    ensures
        ({
            let before = leaves(data, trex_containers());
            let after = leaves(trex_fixed(data, duration), trex_containers());
            let (a, b) = (after[i], before[i]);
            &&& after.len() == before.len()
            &&& a.btype == b.btype
            &&& if b.btype == fourcc('t', 'r', 'e', 'x')@ && b.payload.len() >= 16 {
                &&& be32(a.payload, 12) == duration
                &&& differs_only_in(b.payload, a.payload, 12, 16)
            } else {
                a.payload == b.payload
            }
        }),
{
    let v = TrexFix { duration };
    let before = leaves(data, trex_containers());
    lemma_leaves_alone_trex();
    lemma_walk_visits_leaves(v, data, trex_containers());
    lemma_visited_at(v, before, i);
    lemma_trex_state(v, before.take(i));
    if before[i].payload.len() >= 16 {
        lemma_be32_reads_back(before[i].payload, 12, duration);
    }
}

proof fn lemma_trex_state(v: TrexFix, boxes: Seq<Leaf>)
    ensures
        visited_all(v, boxes).0 == v,
    decreases boxes.len(),
{
    if boxes.len() > 0 {
        lemma_trex_state(v, boxes.drop_last());
    }
}

/// The last fix of the track defaults is the one that counts.
#[verifier::rlimit(30)]
pub proof fn law_fix_trex_last_wins(data: Seq<u8>, first: u32, last: u32)
    ensures
        trex_fixed(trex_fixed(data, first), last) == trex_fixed(data, last),
    decreases data.len(),
{
    let c = trex_containers();
    let v = TrexFix { duration: first };
    let w = TrexFix { duration: last };
    lemma_trex_walk_state(v, data);
    lemma_trex_walk_state(w, data);
    if starts_with_box(data) {
        let btype = first_type(data);
        let payload = first_payload(data);
        lemma_leaves_alone_trex();
        let (vp, wp) = (v.visited(btype, payload).1, w.visited(btype, payload).1);
        v.lemma_visited_keeps_length(btype, payload);
        w.lemma_visited_keeps_length(btype, payload);
        let inner = if is_listed(c, btype) {
            walked(v, vp, c).1
        } else {
            vp
        };
        if is_listed(c, btype) {
            lemma_walk_keeps_length(v, vp, c);
            lemma_trex_walk_state(v, payload);
            lemma_trex_walk_state(w, payload);
            law_fix_trex_last_wins(payload, first, last);
        } else {
            assert(w.visited(btype, vp).1 =~= wp);
        }
        lemma_walk_keeps_length(v, after_first(data), c);
        lemma_trex_walk_state(v, after_first(data));
        lemma_trex_walk_state(w, after_first(data));
        law_fix_trex_last_wins(after_first(data), first, last);
        let rest = walked(v, after_first(data), c).1;
        let once = walked(v, data, c).1;
        assert(once == data.subrange(0, 8) + inner + rest);
        assert(be32(once, 0) == be32(data, 0));
        assert(first_type(once) =~= btype);
        assert(first_payload(once) =~= inner);
        assert(after_first(once) =~= rest);
        assert(once.subrange(0, 8) =~= data.subrange(0, 8));
        w.lemma_visited_keeps_length(btype, inner);
        lemma_trex_walk_state(w, inner);
    }
}

proof fn lemma_trex_walk_state(v: TrexFix, data: Seq<u8>)
    ensures
        walked(v, data, trex_containers()).0 == v,
    decreases data.len(),
{
    lemma_leaves_alone_trex();
    lemma_walk_visits_leaves(v, data, trex_containers());
    lemma_trex_state(v, leaves(data, trex_containers()));
}

/// Fixing the defaults of two tracks sets the default sample duration of every `trex` box
/// of either track and changes nothing else.
pub proof fn law_fix_trex_durations_per_track(
    data: Seq<u8>,
    first: u32,
    first_duration: u32,
    second: u32,
    second_duration: u32,
    i: int,
)
    requires
        first != second,
        0 <= i < leaves(data, trex_containers()).len(),
    ensures
        ({
            let before = leaves(data, trex_containers());
            let after = leaves(
                trex_fixed_per_track(data, first, first_duration, second, second_duration),
                trex_containers(),
            );
            let (a, b) = (after[i], before[i]);
            let is_trex = b.btype == fourcc('t', 'r', 'e', 'x')@ && b.payload.len() >= 16;
            &&& after.len() == before.len()
            &&& a.btype == b.btype
            &&& if is_trex && be32(b.payload, 4) == first {
                be32(a.payload, 12) == first_duration && differs_only_in(
                    b.payload,
                    a.payload,
                    12,
                    16,
                )
            } else if is_trex && be32(b.payload, 4) == second {
                be32(a.payload, 12) == second_duration && differs_only_in(
                    b.payload,
                    a.payload,
                    12,
                    16,
                )
            } else {
                a.payload == b.payload
            }
        }),
{
    let v = TrackTrexFix {
        first_track: first,
        first_duration,
        second_track: second,
        second_duration,
    };
    let before = leaves(data, trex_containers());
    assert(fourcc('t', 'r', 'e', 'x')@[0] == 't' as u8);
    assert forall|v: TrackTrexFix, btype: Seq<u8>, payload: Seq<u8>|
        is_listed(trex_containers(), btype) implies #[trigger] v.visited(btype, payload) == (
        v,
        payload,
    ) by {
        let k = choose|k: int|
            0 <= k < trex_containers().len() && #[trigger] trex_containers()[k]@ == btype;
        assert(k == 0 || k == 1);
        assert(btype[0] == 'm' as u8);
    }
    lemma_walk_visits_leaves(v, data, trex_containers());
    lemma_visited_at(v, before, i);
    lemma_track_trex_state(v, before.take(i));
    if before[i].payload.len() >= 16 {
        lemma_be32_reads_back(before[i].payload, 12, first_duration);
        lemma_be32_reads_back(before[i].payload, 12, second_duration);
    }
}

proof fn lemma_track_trex_state(v: TrackTrexFix, boxes: Seq<Leaf>)
    ensures
        visited_all(v, boxes).0 == v,
    decreases boxes.len(),
{
    if boxes.len() > 0 {
        lemma_track_trex_state(v, boxes.drop_last());
    }
}

} // verus!
