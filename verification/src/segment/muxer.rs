//! Inspection of fragmented MP4 data, and what a muxer is told.

use std::collections::HashMap;
use vstd::prelude::*;
use vstd::slice::slice_subrange;
use crate::big_endian::{
    be32, be32_bytes, be64, lemma_be32_reads_back, overwritten, read_u32_be, read_u64_be,
};
use super::isobmff::fourcc;

verus! {

/// The type of the box at `pos`.
pub open spec fn type_at(data: Seq<u8>, pos: int) -> Seq<u8> {
    data.subrange(pos + 4, pos + 8)
}

/// `data` has room for a box header at `pos`.
pub open spec fn header_at(data: Seq<u8>, pos: int) -> bool {
    0 <= pos && pos + 8 <= data.len()
}

fn type_is(data: &[u8], pos: usize, btype: &[u8]) -> (same: bool)
    requires
        header_at(data@, pos as int),
    ensures
        same == (type_at(data@, pos as int) == btype@),
{
    if btype.len() != 4 {
        assert(type_at(data@, pos as int).len() == 4);
        return false;
    }
    assert(pos + 8 <= data.len());
    let same: bool = data[pos + 4] == btype[0] && data[pos + 5] == btype[1] && data[pos + 6]
        == btype[2] && data[pos + 7] == btype[3];
    proof {
        let t = type_at(data@, pos as int);
        assert(t[0] == data@[pos + 4] && t[1] == data@[pos + 5] && t[2] == data@[pos + 6] && t[3]
            == data@[pos + 7]);
        assert(same ==> t =~= btype@);
    }
    same
}

/// The bytes start with a file type, movie or movie fragment box.
pub open spec fn looks_like_fmp4(data: Seq<u8>) -> bool {
    header_at(data, 0) && (type_at(data, 0) == fourcc('f', 't', 'y', 'p')@ || type_at(data, 0)
        == fourcc('m', 'o', 'o', 'v')@ || type_at(data, 0) == fourcc('m', 'o', 'o', 'f')@)
}

/// Whether the bytes start like fragmented MP4 data.
pub fn validate_fmp4(data: &[u8]) -> (valid: bool)
    ensures
        valid == looks_like_fmp4(data@),
{
    data.len() >= 8 && (type_is(data, 0, fourcc('f', 't', 'y', 'p').as_slice()) || type_is(
        data,
        0,
        fourcc('m', 'o', 'o', 'v').as_slice(),
    ) || type_is(data, 0, fourcc('m', 'o', 'o', 'f').as_slice()))
}

/// The position of the first top-level box of a type, at `pos` or behind it; a box
/// whose size is below that of its header ends the search.
pub open spec fn box_from(data: Seq<u8>, pos: int, btype: Seq<u8>) -> Option<int>
    decreases data.len() - pos,
{
    if !header_at(data, pos) || be32(data, pos) < 8 {
        None
    } else if type_at(data, pos) == btype {
        Some(pos)
    } else if pos + be32(data, pos) > data.len() {
        None
    } else {
        box_from(data, pos + be32(data, pos), btype)
    }
}

/// Finds the first top-level box of a type.
pub fn find_box(data: &[u8], box_type: &[u8]) -> (found: Option<usize>)
    ensures
        match found {
            Some(pos) => box_from(data@, 0, box_type@) == Some(pos as int),
            None => box_from(data@, 0, box_type@) is None,
        },
{
    let len: usize = data.len();
    let mut pos: usize = 0;
    while len - pos >= 8
        invariant
            len == data@.len(),
            pos <= len,
            box_from(data@, pos as int, box_type@) == box_from(data@, 0, box_type@),
        decreases len - pos,
    {
        let size: usize = read_u32_be(data, pos) as usize;
        if size < 8 {
            return None;
        }
        if type_is(data, pos, box_type) {
            return Some(pos);
        }
        if size > len - pos {
            return None;
        }
        pos += size;
    }
    None
}

/// A box type that opens a media segment.
pub open spec fn opens_media_segment(btype: Seq<u8>) -> bool {
    btype == fourcc('s', 't', 'y', 'p')@ || btype == fourcc('m', 'o', 'o', 'f')@ || btype
        == fourcc('p', 'r', 'f', 't')@
}

/// The position of the first top-level box, at `pos` or behind it, that opens a media
/// segment; a box that is not complete ends the search.
pub open spec fn media_from(data: Seq<u8>, pos: int) -> Option<int>
    decreases data.len() - pos,
{
    if !header_at(data, pos) {
        None
    } else if opens_media_segment(type_at(data, pos)) {
        Some(pos)
    } else if be32(data, pos) < 8 || pos + be32(data, pos) > data.len() {
        None
    } else {
        media_from(data, pos + be32(data, pos))
    }
}

/// Finds where the media segment starts behind the initialization boxes.
pub fn find_media_segment_offset(data: &[u8]) -> (found: Option<usize>)
    ensures
        match found {
            Some(pos) => media_from(data@, 0) == Some(pos as int) && pos + 8 <= data@.len(),
            None => media_from(data@, 0) is None,
        },
{
    let len: usize = data.len();
    let mut pos: usize = 0;
    while len - pos >= 8
        invariant
            len == data@.len(),
            pos <= len,
            media_from(data@, pos as int) == media_from(data@, 0),
        decreases len - pos,
    {
        if type_is(data, pos, fourcc('s', 't', 'y', 'p').as_slice()) || type_is(
            data,
            pos,
            fourcc('m', 'o', 'o', 'f').as_slice(),
        ) || type_is(data, pos, fourcc('p', 'r', 'f', 't').as_slice()) {
            return Some(pos);
        }
        let size: usize = read_u32_be(data, pos) as usize;
        if size < 8 || size > len - pos {
            return None;
        }
        pos += size;
    }
    None
}

/// The bytes in front of the first media segment; all of them where there is none.
pub open spec fn init_part(data: Seq<u8>) -> Seq<u8> {
    match media_from(data, 0) {
        Some(pos) => data.subrange(0, pos),
        None => data,
    }
}

/// Cuts what a muxer wrote down to the initialization segment.
pub fn init_segment_of(mut full_data: Vec<u8>) -> (init: Vec<u8>)
    ensures
        init@ == init_part(full_data@),
{
    if let Some(offset) = find_media_segment_offset(full_data.as_slice()) {
        full_data.truncate(offset);
    }
    full_data
}

/// A 64-bit number read as two's complement.
pub open spec fn signed64(v: nat) -> int {
    if v < 0x8000_0000_0000_0000 {
        v as int
    } else {
        v - 0x1_0000_0000_0000_0000
    }
}

/// A 32-bit number read as two's complement.
pub open spec fn signed32(v: nat) -> int {
    if v < 0x8000_0000 {
        v as int
    } else {
        v - 0x1_0000_0000
    }
}

/// The media time of the first entry of an `elst` payload.
pub open spec fn first_edit(content: Seq<u8>) -> Option<int> {
    if content.len() < 16 || be32(content, 4) == 0 {
        None
    } else if content[0] != 1 {
        Some(signed32(be32(content, 12)))
    } else if content.len() < 24 {
        None
    } else {
        Some(signed64(be64(content, 16)))
    }
}

/// A box type whose payload may hold, at some depth, an edit list.
pub open spec fn may_hold_edits(btype: Seq<u8>) -> bool {
    btype == fourcc('m', 'o', 'o', 'v')@ || btype == fourcc('t', 'r', 'a', 'k')@ || btype
        == fourcc('e', 'd', 't', 's')@ || btype == fourcc('m', 'd', 'i', 'a')@ || btype
        == fourcc('m', 'i', 'n', 'f')@ || btype == fourcc('s', 't', 'b', 'l')@
}

/// The size of the box that starts `data`; size 0 stands for all that is left.
pub open spec fn first_size(data: Seq<u8>) -> int {
    if be32(data, 0) == 0 {
        data.len() as int
    } else {
        be32(data, 0) as int
    }
}

/// The media time of the first edit list entry, in pre-order. An edit list without an
/// entry, like a box that is not complete, ends the search at its level.
pub open spec fn edit_media_time(data: Seq<u8>) -> Option<int>
    decreases data.len(),
{
    if data.len() < 8 || first_size(data) < 8 || first_size(data) > data.len() {
        None
    } else {
        let content = data.subrange(8, first_size(data));
        let rest = data.subrange(first_size(data), data.len() as int);
        if may_hold_edits(type_at(data, 0)) {
            match edit_media_time(content) {
                Some(time) => Some(time),
                None => edit_media_time(rest),
            }
        } else if type_at(data, 0) == fourcc('e', 'l', 's', 't')@ {
            first_edit(content)
        } else {
            edit_media_time(rest)
        }
    }
}

fn may_hold_edits_at(data: &[u8], pos: usize) -> (held: bool)
    requires
        header_at(data@, pos as int),
    ensures
        held == may_hold_edits(type_at(data@, pos as int)),
{
    type_is(data, pos, fourcc('m', 'o', 'o', 'v').as_slice()) || type_is(
        data,
        pos,
        fourcc('t', 'r', 'a', 'k').as_slice(),
    ) || type_is(data, pos, fourcc('e', 'd', 't', 's').as_slice()) || type_is(
        data,
        pos,
        fourcc('m', 'd', 'i', 'a').as_slice(),
    ) || type_is(data, pos, fourcc('m', 'i', 'n', 'f').as_slice()) || type_is(
        data,
        pos,
        fourcc('s', 't', 'b', 'l').as_slice(),
    )
}

fn to_signed64(v: u64) -> (s: i64)
    ensures
        s == signed64(v as nat),
{
    if v < 0x8000_0000_0000_0000 {
        v as i64
    } else {
        -1 - ((0xffff_ffff_ffff_ffff - v) as i64)
    }
}

fn to_signed32(v: u32) -> (s: i64)
    ensures
        s == signed32(v as nat),
{
    if v < 0x8000_0000 {
        v as i64
    } else {
        v as i64 - 0x1_0000_0000
    }
}

fn parse_first_edit(content: &[u8]) -> (time: Option<i64>)
    ensures
        match time {
            Some(t) => first_edit(content@) == Some(t as int),
            None => first_edit(content@) is None,
        },
{
    if content.len() < 16 || read_u32_be(content, 4) == 0 {
        return None;
    }
    if content[0] != 1 {
        return Some(to_signed32(read_u32_be(content, 12)));
    }
    if content.len() < 24 {
        return None;
    }
    Some(to_signed64(read_u64_be(content, 16)))
}

fn parse_elst_in_boxes(data: &[u8]) -> (time: Option<i64>)
    ensures
        match time {
            Some(t) => edit_media_time(data@) == Some(t as int),
            None => edit_media_time(data@) is None,
        },
    decreases data@.len(),
{
    let len: usize = data.len();
    let mut pos: usize = 0;
    assert(data@.subrange(0, len as int) =~= data@);
    while len - pos >= 8
        invariant
            len == data@.len(),
            pos <= len,
            edit_media_time(data@.subrange(pos as int, len as int)) == edit_media_time(data@),
        decreases len - pos,
    {
        let ghost here = data@.subrange(pos as int, len as int);
        let declared: usize = read_u32_be(data, pos) as usize;
        assert(be32(here, 0) == declared);
        assert(type_at(here, 0) =~= type_at(data@, pos as int));
        let size: usize = if declared == 0 {
            len - pos
        } else {
            declared
        };
        if size < 8 || size > len - pos {
            return None;
        }
        let content: &[u8] = slice_subrange(data, pos + 8, pos + size);
        assert(content@ =~= here.subrange(8, first_size(here)));
        if may_hold_edits_at(data, pos) {
            if let Some(time) = parse_elst_in_boxes(content) {
                return Some(time);
            }
        } else if type_is(data, pos, fourcc('e', 'l', 's', 't').as_slice()) {
            return parse_first_edit(content);
        }
        assert(here.subrange(first_size(here), here.len() as int) =~= data@.subrange(
            (pos + size) as int,
            len as int,
        ));
        pos += size;
    }
    None
}

/// Reads the media time of the first edit list entry of an initialization segment.
///
/// A muxer writes it where a stream starts with an encoder delay; a player subtracts
/// it from every decode time.
pub fn parse_elst_media_time(data: &[u8]) -> (time: Option<i64>)
    ensures
        match time {
            Some(t) => edit_media_time(data@) == Some(t as int),
            None => edit_media_time(data@) is None,
        },
{
    parse_elst_in_boxes(data)
}

/// A box that was found is where it was said to be.
pub proof fn law_found_box_has_type(data: Seq<u8>, pos: int, btype: Seq<u8>)
    ensures
        box_from(data, pos, btype) matches Some(found) ==> pos <= found && header_at(data, found)
            && type_at(data, found) == btype,
    decreases data.len() - pos,
{
    if header_at(data, pos) && be32(data, pos) >= 8 && pos + be32(data, pos) <= data.len() {
        law_found_box_has_type(data, pos + be32(data, pos), btype);
    }
}

/// Where a media segment was found stands a box that opens one.
pub proof fn law_media_segment_starts(data: Seq<u8>, pos: int)
    ensures
        media_from(data, pos) matches Some(found) ==> pos <= found && header_at(data, found)
            && opens_media_segment(type_at(data, found)),
    decreases data.len() - pos,
{
    if header_at(data, pos) && !opens_media_segment(type_at(data, pos)) && be32(data, pos) >= 8
        && pos + be32(data, pos) <= data.len() {
        law_media_segment_starts(data, pos + be32(data, pos));
    }
}

/// A box of a type, as it is written.
pub open spec fn written_box(btype: Seq<u8>, payload: Seq<u8>) -> Seq<u8> {
    be32_bytes((8 + payload.len()) as u32) + btype + payload
}

proof fn lemma_written_box(btype: Seq<u8>, payload: Seq<u8>, rest: Seq<u8>)
    requires
        btype.len() == 4,
        payload.len() + 8 < 0x1_0000_0000,
    ensures
        ({
            let data = written_box(btype, payload) + rest;
            &&& data.len() == 8 + payload.len() + rest.len()
            &&& first_size(data) == 8 + payload.len()
            &&& type_at(data, 0) == btype
            &&& data.subrange(8, first_size(data)) == payload
            &&& data.subrange(first_size(data), data.len() as int) == rest
        }),
{
    let data = written_box(btype, payload) + rest;
    let size = (8 + payload.len()) as u32;
    assert(be32(data, 0) == be32(be32_bytes(size), 0));
    lemma_be32_reads_back(seq![0u8, 0, 0, 0], 0, size);
    assert(overwritten(seq![0u8, 0, 0, 0], 0, be32_bytes(size)) =~= be32_bytes(size));
    assert(type_at(data, 0) =~= btype);
    assert(data.subrange(8, 8 + payload.len() as int) =~= payload);
    assert(data.subrange(8 + payload.len() as int, data.len() as int) =~= rest);
}

/// A container has the edit that its payload has.
pub proof fn law_container_has_edit_of_payload(btype: Seq<u8>, payload: Seq<u8>)
    requires
        may_hold_edits(btype),
        payload.len() + 8 < 0x1_0000_0000,
    ensures
        edit_media_time(written_box(btype, payload)) == edit_media_time(payload),
{
    let none: Seq<u8> = seq![];
    law_first_edit_wins(btype, payload, none);
    assert(written_box(btype, payload) + none =~= written_box(btype, payload));
}

/// A box that is neither a container nor an edit list is passed over.
pub proof fn law_other_box_is_passed_over(btype: Seq<u8>, payload: Seq<u8>, rest: Seq<u8>)
    requires
        btype.len() == 4,
        !may_hold_edits(btype),
        btype != fourcc('e', 'l', 's', 't')@,
        payload.len() + 8 < 0x1_0000_0000,
    ensures
        edit_media_time(written_box(btype, payload) + rest) == edit_media_time(rest),
{
    lemma_written_box(btype, payload, rest);
}

/// The edit of a container comes before those behind it; without one, the search goes on.
pub proof fn law_first_edit_wins(btype: Seq<u8>, payload: Seq<u8>, rest: Seq<u8>)
    requires
        may_hold_edits(btype),
        payload.len() + 8 < 0x1_0000_0000,
    ensures
        edit_media_time(written_box(btype, payload) + rest) == match edit_media_time(payload) {
            Some(time) => Some(time),
            None => edit_media_time(rest),
        },
{
    lemma_written_box(btype, payload, rest);
}

/// Options under which a muxer writes the initialization boxes.
pub fn movflags(delay_moov: bool) -> (flags: &'static str)
    ensures
        flags@ == if delay_moov {
            "empty_moov+default_base_moof+delay_moov+negative_cts_offsets"@
        } else {
            "empty_moov+default_base_moof+negative_cts_offsets"@
        },
{
    if delay_moov {
        "empty_moov+default_base_moof+delay_moov+negative_cts_offsets"
    } else {
        "empty_moov+default_base_moof+negative_cts_offsets"
    }
}

/// Which output stream each input stream goes to.
pub struct StreamMap {
    streams: HashMap<usize, usize>,
}

impl View for StreamMap {
    type V = Map<usize, usize>;

    closed spec fn view(&self) -> Map<usize, usize> {
        self.streams@
    }
}

impl StreamMap {
    /// A map without streams.
    pub fn new() -> (map: Self)
        ensures
            map@ == Map::<usize, usize>::empty(),
    {
        broadcast use vstd::std_specs::hash::group_hash_axioms;

        StreamMap { streams: HashMap::new() }
    }

    /// Sends an input stream to an output stream.
    pub fn insert(&mut self, input_index: usize, output_index: usize)
        ensures
            final(self)@ == old(self)@.insert(input_index, output_index),
    {
        broadcast use vstd::std_specs::hash::group_hash_axioms;

        self.streams.insert(input_index, output_index);
    }

    /// The output stream of an input stream; a packet of a stream without one is
    /// not written.
    pub fn get(&self, input_index: usize) -> (output: Option<usize>)
        ensures
            output == if self@.dom().contains(input_index) {
                Some(self@[input_index])
            } else {
                None
            },
    {
        broadcast use vstd::std_specs::hash::group_hash_axioms;

        match self.streams.get(&input_index) {
            Some(output) => Some(*output),
            None => None,
        }
    }
}

} // verus!
