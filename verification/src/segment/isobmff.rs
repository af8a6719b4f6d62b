//! Traversal and patching of ISO base media (MP4) boxes in memory.
//!
//! A box is a 32-bit big-endian size that counts the whole box, a four-byte type
//! and the payload.

use vstd::prelude::*;
use crate::big_endian::{
    be32, be32_bytes, be64, be64_bytes, overwritten, read_u32_be, read_u64_be, write_u32_be,
    write_u64_be,
};

verus! {

/// The box type spelled by four ASCII characters.
pub open spec fn spec_fourcc(a: char, b: char, c: char, d: char) -> [u8; 4] {
    [a as u8, b as u8, c as u8, d as u8]
}

/// The box type spelled by four ASCII characters.
#[verifier::when_used_as_spec(spec_fourcc)]
pub fn fourcc(a: char, b: char, c: char, d: char) -> (btype: [u8; 4])
    ensures
        btype == spec_fourcc(a, b, c, d),
{
    [a as u8, b as u8, c as u8, d as u8]
}

/// What a traversal does at each box: it may rewrite the payload in place and keep
/// a state of its own from box to box.
pub trait BoxVisitor: Sized {
    /// The visitor and the payload as they are after the visit of one box.
    spec fn visited(self, btype: Seq<u8>, payload: Seq<u8>) -> (Self, Seq<u8>);

    /// A visit never changes the length of a payload.
    proof fn lemma_visited_keeps_length(self, btype: Seq<u8>, payload: Seq<u8>)
        ensures
            self.visited(btype, payload).1.len() == payload.len(),
    ;

    /// Visits one box.
    fn visit(&mut self, btype: &[u8; 4], payload: &mut [u8])
        ensures
            (*final(self), final(payload)@) == old(self).visited(btype@, old(payload)@),
    ;
}

/// A complete box starts `data`: its size covers the header and lies within `data`.
pub open spec fn starts_with_box(data: Seq<u8>) -> bool {
    data.len() >= 8 && 8 <= be32(data, 0) <= data.len()
}

/// The type of the box that starts `data`.
pub open spec fn first_type(data: Seq<u8>) -> Seq<u8> {
    data.subrange(4, 8)
}

/// The payload of the box that starts `data`.
pub open spec fn first_payload(data: Seq<u8>) -> Seq<u8> {
    data.subrange(8, be32(data, 0) as int)
}

/// What follows the box that starts `data`.
pub open spec fn after_first(data: Seq<u8>) -> Seq<u8> {
    data.subrange(be32(data, 0) as int, data.len() as int)
}

/// `containers` lists the type `btype`.
pub open spec fn is_listed(containers: Seq<[u8; 4]>, btype: Seq<u8>) -> bool {
    exists|i: int| 0 <= i < containers.len() && #[trigger] containers[i]@ == btype
}

/// The visitor and the bytes after a pre-order traversal of `data`: each box is
/// visited, then, if its type is listed, the boxes in its payload, then the boxes
/// behind it. The traversal ends where no complete box starts.
pub open spec fn walked<V: BoxVisitor>(
    visitor: V,
    data: Seq<u8>,
    containers: Seq<[u8; 4]>,
) -> (V, Seq<u8>)
    decreases data.len(),
{
    if starts_with_box(data) {
        let (seen, payload) = visitor.visited(first_type(data), first_payload(data));
        let (inside, inner) = if is_listed(containers, first_type(data)) && payload.len()
            < data.len() {
            walked(seen, payload, containers)
        } else {
            (seen, payload)
        };
        let (done, rest) = walked(inside, after_first(data), containers);
        (done, data.subrange(0, 8) + inner + rest)
    } else {
        (visitor, data)
    }
}

/// A traversal never changes the length of the bytes.
pub proof fn lemma_walk_keeps_length<V: BoxVisitor>(
    visitor: V,
    data: Seq<u8>,
    containers: Seq<[u8; 4]>,
)
    ensures
        walked(visitor, data, containers).1.len() == data.len(),
    decreases data.len(),
{
    if starts_with_box(data) {
        let (seen, payload) = visitor.visited(first_type(data), first_payload(data));
        visitor.lemma_visited_keeps_length(first_type(data), first_payload(data));
        let (inside, inner) = if is_listed(containers, first_type(data)) && payload.len()
            < data.len() {
            walked(seen, payload, containers)
        } else {
            (seen, payload)
        };
        if is_listed(containers, first_type(data)) {
            lemma_walk_keeps_length(seen, payload, containers);
        }
        lemma_walk_keeps_length(inside, after_first(data), containers);
    }
}

fn same_type(a: &[u8; 4], b: &[u8; 4]) -> (same: bool)
    ensures
        same == (a@ == b@),
{
    let same: bool = a[0] == b[0] && a[1] == b[1] && a[2] == b[2] && a[3] == b[3];
    assert(same ==> a@ =~= b@);
    same
}

fn listed(containers: &[[u8; 4]], btype: &[u8; 4]) -> (found: bool)
    ensures
        found == is_listed(containers@, btype@),
{
    let mut i: usize = 0;
    while i < containers.len()
        invariant
            i <= containers.len(),
            forall|j: int| 0 <= j < i ==> #[trigger] containers@[j]@ != btype@,
        decreases containers.len() - i,
    {
        if same_type(&containers[i], btype) {
            return true;
        }
        i += 1;
    }
    false
}

/// One step of a traversal, in terms of what became of the first box.
proof fn lemma_walk_step<V: BoxVisitor>(
    start: V,
    data: Seq<u8>,
    containers: Seq<[u8; 4]>,
    after: V,
    inner: Seq<u8>,
)
    requires
        starts_with_box(data),
        ({
            let (seen, p) = start.visited(first_type(data), first_payload(data));
            (after, inner) == if is_listed(containers, first_type(data)) {
                walked(seen, p, containers)
            } else {
                (seen, p)
            }
        }),
    ensures
        walked(start, data, containers).0 == walked(after, after_first(data), containers).0,
        walked(start, data, containers).1 == data.subrange(0, 8) + inner + walked(
            after,
            after_first(data),
            containers,
        ).1,
{
    start.lemma_visited_keeps_length(first_type(data), first_payload(data));
}

/// The bytes of a traversal, taken apart behind the box at `pos`.
proof fn lemma_rejoin(
    before: Seq<u8>,
    stepped: Seq<u8>,
    joined: Seq<u8>,
    pos: int,
    size: int,
    inner: Seq<u8>,
    behind: Seq<u8>,
)
    requires
        0 <= pos,
        8 <= size,
        pos + size <= stepped.len(),
        before.len() == stepped.len(),
        inner.len() == size - 8,
        stepped.subrange(pos, stepped.len() as int) == before.subrange(pos, before.len() as int),
        joined == stepped.subrange(0, pos + 8) + (inner + stepped.subrange(pos + 8, stepped.len() as int).subrange(size - 8, stepped.len() - pos - 8)),
    ensures
        joined.len() == stepped.len(),
        joined.subrange(pos + size, joined.len() as int) == before.subrange(
            pos + size,
            before.len() as int,
        ),
        before.subrange(pos, before.len() as int).subrange(size, before.len() - pos)
            == before.subrange(pos + size, before.len() as int),
        stepped.subrange(0, pos) + (before.subrange(pos, before.len() as int).subrange(0, 8)
            + inner + behind) == joined.subrange(0, pos + size) + behind,
{
    let tail = before.subrange(pos, before.len() as int);
    assert forall|i: int| pos <= i < stepped.len() implies stepped[i] == before[i] by {
        assert(stepped.subrange(pos, stepped.len() as int)[i - pos] == tail[i - pos]);
    }
    assert(joined.subrange(pos + size, joined.len() as int) =~= before.subrange(
        pos + size,
        before.len() as int,
    ));
    assert(tail.subrange(size, before.len() - pos) =~= before.subrange(
        pos + size,
        before.len() as int,
    ));
    assert(stepped.subrange(0, pos) + (tail.subrange(0, 8) + inner + behind) =~= joined.subrange(
        0,
        pos + size,
    ) + behind);
}

/// Visits one box and, if its type is listed, the boxes inside it.
fn walk_payload<V: BoxVisitor>(
    btype: &[u8; 4],
    payload: &mut [u8],
    containers: &[[u8; 4]],
    visitor: &mut V,
)
    ensures
        ({
            let (seen, p) = old(visitor).visited(btype@, old(payload)@);
            (*final(visitor), final(payload)@) == if is_listed(containers@, btype@) {
                walked(seen, p, containers@)
            } else {
                (seen, p)
            }
        }),
        final(payload)@.len() == old(payload)@.len(),
    decreases old(payload)@.len(), 1int,
{
    proof {
        visitor.lemma_visited_keeps_length(btype@, payload@);
    }
    visitor.visit(btype, payload);
    if listed(containers, btype) {
        proof {
            lemma_walk_keeps_length(*visitor, payload@, containers@);
        }
        walk_boxes_mut(payload, containers, visitor);
    }
}

/// Walks the boxes of `data` in pre-order, and those inside the boxes whose type is
/// among `containers`, and lets `visitor` see, and rewrite, each payload.
pub fn walk_boxes_mut<V: BoxVisitor>(data: &mut [u8], containers: &[[u8; 4]], visitor: &mut V)
    ensures
        (*final(visitor), final(data)@) == walked(*old(visitor), old(data)@, containers@),
    decreases old(data)@.len(), 0int,
{
    let mut pos: usize = 0;
    let len: usize = data.len();
    let ghost before = data@;
    let ghost whole = walked(*visitor, data@, containers@);
    assert(before.subrange(0, len as int) =~= before);
    assert(data@.subrange(0, 0) + whole.1 =~= whole.1);
    while len - pos >= 8
        invariant
            len == before.len(),
            before == old(data)@,
            data@.len() == len,
            pos <= len,
            data@.subrange(pos as int, len as int) == before.subrange(pos as int, len as int),
            whole.0 == walked(
                *visitor,
                before.subrange(pos as int, len as int),
                containers@,
            ).0,
            whole.1 == data@.subrange(0, pos as int) + walked(
                *visitor,
                before.subrange(pos as int, len as int),
                containers@,
            ).1,
        ensures
            !starts_with_box(before.subrange(pos as int, len as int)),
        decreases len - pos,
    {
        let ghost here = before.subrange(pos as int, len as int);
        let ghost stepped = data@;
        let ghost start = *visitor;
        let size: usize = read_u32_be(data, pos) as usize;
        assert(here == data@.subrange(pos as int, len as int));
        assert(be32(here, 0) == size);
        if size < 8 || size > len - pos {
            break;
        }
        let btype: [u8; 4] = [data[pos + 4], data[pos + 5], data[pos + 6], data[pos + 7]];
        assert(btype@ =~= first_type(here));

        let (head, tail) = data.split_at_mut(pos + 8);
        let (payload, rest) = tail.split_at_mut(size - 8);
        assert(payload@ =~= first_payload(here));
        walk_payload(&btype, payload, containers, visitor);
        let ghost inner = payload@;
        proof {
            lemma_walk_step(start, here, containers@, *visitor, inner);
            lemma_rejoin(
                before,
                stepped,
                data@,
                pos as int,
                size as int,
                inner,
                walked(*visitor, after_first(here), containers@).1,
            );
        }
        pos += size;
    }
    assert(data@.subrange(0, pos as int) + before.subrange(pos as int, len as int) =~= data@);
}

/// Sets the default sample duration of each `trex` box.
pub struct TrexFix {
    pub duration: u32,
}

impl BoxVisitor for TrexFix {
    open spec fn visited(self, btype: Seq<u8>, payload: Seq<u8>) -> (Self, Seq<u8>) {
        (
            self,
            if btype == fourcc('t', 'r', 'e', 'x')@ && payload.len() >= 16 {
                overwritten(payload, 12, be32_bytes(self.duration))
            } else {
                payload
            },
        )
    }

    proof fn lemma_visited_keeps_length(self, btype: Seq<u8>, payload: Seq<u8>) {
    }

    fn visit(&mut self, btype: &[u8; 4], payload: &mut [u8]) {
        if same_type(btype, &fourcc('t', 'r', 'e', 'x')) && payload.len() >= 16 {
            write_u32_be(payload, 12, self.duration);
        }
    }
}

/// `data` with the default sample duration of each `trex` box under `moov`/`mvex`
/// set to `duration`.
pub open spec fn trex_fixed(data: Seq<u8>, duration: u32) -> Seq<u8> {
    walked(
        TrexFix { duration },
        data,
        seq![fourcc('m', 'o', 'o', 'v'), fourcc('m', 'v', 'e', 'x')],
    ).1
}

/// Sets the default sample duration in the `trex` boxes.
pub fn fix_trex_durations(data: &mut Vec<u8>, duration: u32)
    ensures
        final(data)@ == trex_fixed(old(data)@, duration),
{
    let containers: [[u8; 4]; 2] = [fourcc('m', 'o', 'o', 'v'), fourcc('m', 'v', 'e', 'x')];
    assert(containers@ =~= seq![fourcc('m', 'o', 'o', 'v'), fourcc('m', 'v', 'e', 'x')]);
    let mut fix = TrexFix { duration };
    walk_boxes_mut(data.as_mut_slice(), containers.as_slice(), &mut fix);
}

/// Sets the default sample duration of the `trex` boxes of two tracks.
pub struct TrackTrexFix {
    pub first_track: u32,
    pub first_duration: u32,
    pub second_track: u32,
    pub second_duration: u32,
}

impl BoxVisitor for TrackTrexFix {
    open spec fn visited(self, btype: Seq<u8>, payload: Seq<u8>) -> (Self, Seq<u8>) {
        (
            self,
            if btype == fourcc('t', 'r', 'e', 'x')@ && payload.len() >= 16 {
                if be32(payload, 4) == self.first_track {
                    overwritten(payload, 12, be32_bytes(self.first_duration))
                } else if be32(payload, 4) == self.second_track {
                    overwritten(payload, 12, be32_bytes(self.second_duration))
                } else {
                    payload
                }
            } else {
                payload
            },
        )
    }

    proof fn lemma_visited_keeps_length(self, btype: Seq<u8>, payload: Seq<u8>) {
    }

    fn visit(&mut self, btype: &[u8; 4], payload: &mut [u8]) {
        if same_type(btype, &fourcc('t', 'r', 'e', 'x')) && payload.len() >= 16 {
            let track: u32 = read_u32_be(payload, 4);
            if track == self.first_track {
                write_u32_be(payload, 12, self.first_duration);
            } else if track == self.second_track {
                write_u32_be(payload, 12, self.second_duration);
            }
        }
    }
}

/// `data` with the default sample durations of two tracks set.
pub open spec fn trex_fixed_per_track(
    data: Seq<u8>,
    first_track: u32,
    first_duration: u32,
    second_track: u32,
    second_duration: u32,
) -> Seq<u8> {
    walked(
        TrackTrexFix { first_track, first_duration, second_track, second_duration },
        data,
        seq![fourcc('m', 'o', 'o', 'v'), fourcc('m', 'v', 'e', 'x')],
    ).1
}

/// Sets the default sample duration in the `trex` boxes of two tracks.
pub fn fix_trex_durations_per_track(
    data: &mut Vec<u8>,
    first_track: u32,
    first_duration: u32,
    second_track: u32,
    second_duration: u32,
)
    ensures
        final(data)@ == trex_fixed_per_track(
            old(data)@,
            first_track,
            first_duration,
            second_track,
            second_duration,
        ),
{
    let containers: [[u8; 4]; 2] = [fourcc('m', 'o', 'o', 'v'), fourcc('m', 'v', 'e', 'x')];
    assert(containers@ =~= seq![fourcc('m', 'o', 'o', 'v'), fourcc('m', 'v', 'e', 'x')]);
    let mut fix = TrackTrexFix { first_track, first_duration, second_track, second_duration };
    walk_boxes_mut(data.as_mut_slice(), containers.as_slice(), &mut fix);
}

/// A `tfdt` payload that holds a decode time: 64 bits wide in version 1, 32 bits
/// wide in any other.
pub open spec fn has_decode_time(payload: Seq<u8>) -> bool {
    payload.len() >= 8 && (payload[0] == 1 ==> payload.len() >= 12)
}

/// A version 1 `tfdt` payload that ends inside its decode time.
pub open spec fn is_truncated_tfdt(payload: Seq<u8>) -> bool {
    8 <= payload.len() < 12 && payload[0] == 1
}

/// The decode time in a `tfdt` payload.
pub open spec fn decode_time(payload: Seq<u8>) -> nat {
    if payload[0] == 1 {
        be64(payload, 4)
    } else {
        be32(payload, 4)
    }
}

/// A `tfdt` payload with its decode time replaced, cut to the width of its version.
pub open spec fn with_decode_time(payload: Seq<u8>, time: u64) -> Seq<u8> {
    if payload[0] == 1 {
        overwritten(payload, 4, be64_bytes(time))
    } else {
        overwritten(payload, 4, be32_bytes((time % 0x1_0000_0000) as u32))
    }
}

/// `a` plus `b`, modulo 2^64.
pub open spec fn plus64(a: int, b: int) -> u64 {
    ((a + b) % 0x1_0000_0000_0000_0000) as u64
}

/// The distance from the decode time of the first box to `target`, modulo 2^64.
pub open spec fn delta_for(delta: Option<u64>, payload: Seq<u8>, target: u64) -> u64 {
    match delta {
        Some(d) => d,
        None => plus64(target as int, -decode_time(payload)),
    }
}

/// A `tfdt` payload moved by the distance that brings the first one to `target`.
pub open spec fn retimed(delta: Option<u64>, payload: Seq<u8>, target: u64) -> Seq<u8> {
    with_decode_time(
        payload,
        plus64(decode_time(payload) as int, delta_for(delta, payload, target) as int),
    )
}

fn wrapped_sum(a: u64, b: u64) -> (sum: u64)
    ensures
        sum == plus64(a as int, b as int),
{
    a.wrapping_add(b)
}

fn wrapped_difference(a: u64, b: u64) -> (difference: u64)
    ensures
        difference == plus64(a as int, -b),
{
    a.wrapping_sub(b)
}

/// Moves the decode time of a `tfdt` payload; returns the distance.
fn retime(delta: Option<u64>, payload: &mut [u8], target: u64) -> (distance: u64)
    requires
        has_decode_time(old(payload)@),
    ensures
        distance == delta_for(delta, old(payload)@, target),
        final(payload)@ == retimed(delta, old(payload)@, target),
{
    let wide: bool = payload[0] == 1;
    let current: u64 = if wide {
        read_u64_be(payload, 4)
    } else {
        read_u32_be(payload, 4) as u64
    };
    let distance: u64 = match delta {
        Some(d) => d,
        None => wrapped_difference(target, current),
    };
    let time: u64 = wrapped_sum(current, distance);
    if wide {
        write_u64_be(payload, 4, time);
    } else {
        write_u32_be(payload, 4, (time % 0x1_0000_0000) as u32);
    }
    distance
}

/// Numbers the fragments and moves all decode times by one distance.
pub struct TfdtPatch {
    /// The decode time that the first `tfdt` box gets.
    pub target_time: u64,
    /// The number that the next `mfhd` box gets.
    pub next_seq: u32,
    /// The distance, once the first `tfdt` box is known.
    pub delta: Option<u64>,
    /// A truncated `tfdt` box was met (and left as it is).
    pub truncated: bool,
}

impl BoxVisitor for TfdtPatch {
    open spec fn visited(self, btype: Seq<u8>, payload: Seq<u8>) -> (Self, Seq<u8>) {
        if btype == fourcc('m', 'f', 'h', 'd')@ {
            (
                TfdtPatch { next_seq: next_seq(self.next_seq), ..self },
                if payload.len() >= 8 {
                    overwritten(payload, 4, be32_bytes(self.next_seq))
                } else {
                    payload
                },
            )
        } else if btype == fourcc('t', 'f', 'd', 't')@ && has_decode_time(payload) {
            (
                TfdtPatch {
                    delta: Some(delta_for(self.delta, payload, self.target_time)),
                    ..self
                },
                retimed(self.delta, payload, self.target_time),
            )
        } else if btype == fourcc('t', 'f', 'd', 't')@ && is_truncated_tfdt(payload) {
            (TfdtPatch { truncated: true, ..self }, payload)
        } else {
            (self, payload)
        }
    }

    proof fn lemma_visited_keeps_length(self, btype: Seq<u8>, payload: Seq<u8>) {
    }

    fn visit(&mut self, btype: &[u8; 4], payload: &mut [u8]) {
        if same_type(btype, &fourcc('m', 'f', 'h', 'd')) {
            if payload.len() >= 8 {
                write_u32_be(payload, 4, self.next_seq);
            }
            self.next_seq = self.next_seq.wrapping_add(1);
        } else if same_type(btype, &fourcc('t', 'f', 'd', 't')) && payload.len() >= 8 {
            if payload[0] == 1 && payload.len() < 12 {
                self.truncated = true;
            } else {
                let distance: u64 = retime(self.delta, payload, self.target_time);
                self.delta = Some(distance);
            }
        }
    }
}

/// The fragment number after `seq`, modulo 2^32.
pub open spec fn next_seq(seq: u32) -> u32 {
    ((seq + 1) % 0x1_0000_0000) as u32
}

/// The boxes that hold the fragment headers.
pub open spec fn fragment_containers() -> Seq<[u8; 4]> {
    seq![fourcc('m', 'o', 'o', 'f'), fourcc('t', 'r', 'a', 'f')]
}

/// The patch as it starts out.
pub open spec fn tfdt_patch(target_time: u64, start_frag_seq: u32) -> TfdtPatch {
    TfdtPatch { target_time, next_seq: start_frag_seq, delta: None, truncated: false }
}

/// Patches the decode times and fragment numbers of a media segment, and tells
/// whether every decode time could be patched: it could not in a truncated `tfdt`
/// box, which stays as it is.
pub fn try_patch_tfdts(media_data: &mut Vec<u8>, target_time: u64, start_frag_seq: u32) -> (done:
    bool)
    ensures
        ({
            let (patch, bytes) = walked(
                tfdt_patch(target_time, start_frag_seq),
                old(media_data)@,
                fragment_containers(),
            );
            done == !patch.truncated && final(media_data)@ == bytes
        }),
{
    let containers: [[u8; 4]; 2] = [fourcc('m', 'o', 'o', 'f'), fourcc('t', 'r', 'a', 'f')];
    assert(containers@ =~= fragment_containers());
    let mut patch = TfdtPatch {
        target_time,
        next_seq: start_frag_seq,
        delta: None,
        truncated: false,
    };
    walk_boxes_mut(media_data.as_mut_slice(), containers.as_slice(), &mut patch);
    !patch.truncated
}

/// Sets the decode time of the first `tfdt` box to `target_time`, moves the others by
/// the same distance, and numbers the `mfhd` boxes from `start_frag_seq` on.
pub fn patch_tfdts(media_data: &mut Vec<u8>, target_time: u64, start_frag_seq: u32)
    requires
        !walked(
            tfdt_patch(target_time, start_frag_seq),
            old(media_data)@,
            fragment_containers(),
        ).0.truncated,
    ensures
        final(media_data)@ == walked(
            tfdt_patch(target_time, start_frag_seq),
            old(media_data)@,
            fragment_containers(),
        ).1,
{
    let _done: bool = try_patch_tfdts(media_data, target_time, start_frag_seq);
}

/// Numbers the fragments and moves the decode times of two tracks, each by a
/// distance of its own.
pub struct TrackTfdtPatch {
    pub next_seq: u32,
    /// The track of the last `tfhd` box.
    pub current_track: u32,
    pub video_track: u32,
    pub audio_track: u32,
    pub video_target: u64,
    pub audio_target: u64,
    pub video_delta: Option<u64>,
    pub audio_delta: Option<u64>,
    /// A truncated `tfdt` box of either track was met (and left as it is).
    pub truncated: bool,
}

impl BoxVisitor for TrackTfdtPatch {
    open spec fn visited(self, btype: Seq<u8>, payload: Seq<u8>) -> (Self, Seq<u8>) {
        if btype == fourcc('m', 'f', 'h', 'd')@ && payload.len() >= 8 {
            (
                TrackTfdtPatch { next_seq: next_seq(self.next_seq), ..self },
                overwritten(payload, 4, be32_bytes(self.next_seq)),
            )
        } else if btype == fourcc('t', 'f', 'h', 'd')@ && payload.len() >= 8 {
            (TrackTfdtPatch { current_track: be32(payload, 4) as u32, ..self }, payload)
        } else if btype == fourcc('t', 'f', 'd', 't')@ && (self.current_track == self.video_track
            || self.current_track == self.audio_track) {
            if is_truncated_tfdt(payload) {
                (TrackTfdtPatch { truncated: true, ..self }, payload)
            } else if !has_decode_time(payload) {
                (self, payload)
            } else if self.current_track == self.video_track {
                (
                    TrackTfdtPatch {
                        video_delta: Some(delta_for(self.video_delta, payload, self.video_target)),
                        ..self
                    },
                    retimed(self.video_delta, payload, self.video_target),
                )
            } else {
                (
                    TrackTfdtPatch {
                        audio_delta: Some(delta_for(self.audio_delta, payload, self.audio_target)),
                        ..self
                    },
                    retimed(self.audio_delta, payload, self.audio_target),
                )
            }
        } else {
            (self, payload)
        }
    }

    proof fn lemma_visited_keeps_length(self, btype: Seq<u8>, payload: Seq<u8>) {
    }

    fn visit(&mut self, btype: &[u8; 4], payload: &mut [u8]) {
        if payload.len() < 8 {
            return;
        }
        if same_type(btype, &fourcc('m', 'f', 'h', 'd')) {
            write_u32_be(payload, 4, self.next_seq);
            self.next_seq = self.next_seq.wrapping_add(1);
        } else if same_type(btype, &fourcc('t', 'f', 'h', 'd')) {
            self.current_track = read_u32_be(payload, 4);
        } else if same_type(btype, &fourcc('t', 'f', 'd', 't')) && (self.current_track
            == self.video_track || self.current_track == self.audio_track) {
            if payload[0] == 1 && payload.len() < 12 {
                self.truncated = true;
            } else if self.current_track == self.video_track {
                let distance: u64 = retime(self.video_delta, payload, self.video_target);
                self.video_delta = Some(distance);
            } else {
                let distance: u64 = retime(self.audio_delta, payload, self.audio_target);
                self.audio_delta = Some(distance);
            }
        }
    }
}

/// The patch of two tracks as it starts out.
pub open spec fn track_tfdt_patch(
    start_frag_seq: u32,
    video_track: u32,
    audio_track: u32,
    video_target: u64,
    audio_target: u64,
) -> TrackTfdtPatch {
    TrackTfdtPatch {
        next_seq: start_frag_seq,
        current_track: 0,
        video_track,
        audio_track,
        video_target,
        audio_target,
        video_delta: None,
        audio_delta: None,
        truncated: false,
    }
}

/// Patches the decode times of two tracks and the fragment numbers of a media
/// segment, and tells whether every decode time of the two could be patched.
pub fn try_patch_tfdts_per_track(
    media_data: &mut Vec<u8>,
    start_frag_seq: u32,
    video_track_id: u32,
    audio_track_id: u32,
    video_target_tfdt: u64,
    audio_target_tfdt: u64,
) -> (done: bool)
    ensures
        ({
            let (patch, bytes) = walked(
                track_tfdt_patch(
                    start_frag_seq,
                    video_track_id,
                    audio_track_id,
                    video_target_tfdt,
                    audio_target_tfdt,
                ),
                old(media_data)@,
                fragment_containers(),
            );
            done == !patch.truncated && final(media_data)@ == bytes
        }),
{
    let containers: [[u8; 4]; 2] = [fourcc('m', 'o', 'o', 'f'), fourcc('t', 'r', 'a', 'f')];
    assert(containers@ =~= fragment_containers());
    let mut patch = TrackTfdtPatch {
        next_seq: start_frag_seq,
        current_track: 0,
        video_track: video_track_id,
        audio_track: audio_track_id,
        video_target: video_target_tfdt,
        audio_target: audio_target_tfdt,
        video_delta: None,
        audio_delta: None,
        truncated: false,
    };
    walk_boxes_mut(media_data.as_mut_slice(), containers.as_slice(), &mut patch);
    !patch.truncated
}

/// Sets the decode time of the first `tfdt` box of each of the two tracks to that
/// track's target, moves the track's others by the same distance, leaves other tracks
/// alone, and numbers the `mfhd` boxes from `start_frag_seq` on.
///
/// The track ids are those of the `tfhd` boxes, which count from 1.
pub fn patch_tfdts_per_track(
    media_data: &mut Vec<u8>,
    start_frag_seq: u32,
    video_track_id: u32,
    audio_track_id: u32,
    video_target_tfdt: u64,
    audio_target_tfdt: u64,
)
    requires
        !walked(
            track_tfdt_patch(
                start_frag_seq,
                video_track_id,
                audio_track_id,
                video_target_tfdt,
                audio_target_tfdt,
            ),
            old(media_data)@,
            fragment_containers(),
        ).0.truncated,
    ensures
        final(media_data)@ == walked(
            track_tfdt_patch(
                start_frag_seq,
                video_track_id,
                audio_track_id,
                video_target_tfdt,
                audio_target_tfdt,
            ),
            old(media_data)@,
            fragment_containers(),
        ).1,
{
    let _done: bool = try_patch_tfdts_per_track(
        media_data,
        start_frag_seq,
        video_track_id,
        audio_track_id,
        video_target_tfdt,
        audio_target_tfdt,
    );
}

} // verus!
