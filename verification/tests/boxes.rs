use hls_vod::segment::isobmff::{
    fix_trex_durations, fix_trex_durations_per_track, fourcc, patch_tfdts, patch_tfdts_per_track,
    try_patch_tfdts, try_patch_tfdts_per_track, walk_boxes_mut, TrexFix,
};
use hls_vod::segment::muxer::{
    find_box, find_media_segment_offset, init_segment_of, movflags, parse_elst_media_time,
    validate_fmp4, StreamMap,
};

fn boxed(btype: &[u8; 4], payload: &[u8]) -> Vec<u8> {
    let mut out = ((payload.len() + 8) as u32).to_be_bytes().to_vec();
    out.extend_from_slice(btype);
    out.extend_from_slice(payload);
    out
}

fn tfdt0(time: u32) -> Vec<u8> {
    let mut p = vec![0, 0, 0, 0];
    p.extend_from_slice(&time.to_be_bytes());
    boxed(b"tfdt", &p)
}

fn tfdt1(time: u64) -> Vec<u8> {
    let mut p = vec![1, 0, 0, 0];
    p.extend_from_slice(&time.to_be_bytes());
    boxed(b"tfdt", &p)
}

fn tfhd(track: u32) -> Vec<u8> {
    let mut p = vec![0, 0, 0, 0];
    p.extend_from_slice(&track.to_be_bytes());
    boxed(b"tfhd", &p)
}

fn mfhd(seq: u32) -> Vec<u8> {
    let mut p = vec![0, 0, 0, 0];
    p.extend_from_slice(&seq.to_be_bytes());
    boxed(b"mfhd", &p)
}

fn moof(seq: u32, trafs: &[Vec<u8>]) -> Vec<u8> {
    let mut p = mfhd(seq);
    for t in trafs {
        p.extend_from_slice(&boxed(b"traf", t));
    }
    boxed(b"moof", &p)
}

fn trex(track: u32, duration: u32) -> Vec<u8> {
    let mut p = vec![0, 0, 0, 0];
    p.extend_from_slice(&track.to_be_bytes());
    p.extend_from_slice(&1u32.to_be_bytes());
    p.extend_from_slice(&duration.to_be_bytes());
    p.extend_from_slice(&[0; 8]);
    boxed(b"trex", &p)
}

#[test]
fn test_validate_fmp4() {
    let data = vec![0, 0, 0, 24, b'f', b't', b'y', b'p'];
    assert!(validate_fmp4(&data));

    let data = vec![0, 0, 0, 8, b'm', b'o', b'o', b'v'];
    assert!(validate_fmp4(&data));
}

#[test]
fn other_starts_are_not_fmp4() {
    assert!(validate_fmp4(&boxed(b"moof", &[])));
    assert!(!validate_fmp4(&boxed(b"mdat", &[])));
    assert!(!validate_fmp4(&[0, 0, 0, 8, b'm', b'o', b'o']));
    assert!(!validate_fmp4(&[]));
}

#[test]
fn boxes_are_found_at_the_top_level() {
    let mut data = boxed(b"ftyp", &[1, 2, 3]);
    data.extend_from_slice(&boxed(b"moov", &boxed(b"trak", &[])));
    data.extend_from_slice(&boxed(b"mdat", &[9]));
    assert_eq!(find_box(&data, b"ftyp"), Some(0));
    assert_eq!(find_box(&data, b"moov"), Some(11));
    assert_eq!(find_box(&data, b"mdat"), Some(27));
    assert_eq!(find_box(&data, b"trak"), None);
    assert_eq!(find_box(&data, b"mda"), None);
    assert_eq!(find_box(&[0, 0, 0, 7, b'f', b't', b'y', b'p'], b"ftyp"), None);
    assert_eq!(find_box(&[0, 0, 1, 0, b'f', b't', b'y', b'p'], b"ftyp"), Some(0));
}

#[test]
fn the_media_segment_starts_behind_the_init_boxes() {
    let mut data = boxed(b"ftyp", &[0; 4]);
    data.extend_from_slice(&boxed(b"moov", &[0; 10]));
    let init = data.clone();
    data.extend_from_slice(&moof(1, &[]));
    assert_eq!(find_media_segment_offset(&data), Some(init.len()));
    assert_eq!(init_segment_of(data), init.clone());
    assert_eq!(find_media_segment_offset(&init), None);
    assert_eq!(init_segment_of(init.clone()), init);
    // The type counts even where the size is wrong.
    assert_eq!(find_media_segment_offset(&[0, 0, 0, 0, b's', b't', b'y', b'p']), Some(0));
    assert_eq!(find_media_segment_offset(&[0, 0, 0, 0, b'f', b't', b'y', b'p']), None);
}

#[test]
fn the_first_decode_time_becomes_the_target() {
    let mut data = moof(7, &[tfdt1(1000)]);
    data.extend_from_slice(&boxed(b"mdat", &[1, 2, 3]));
    data.extend_from_slice(&moof(9, &[tfdt1(1500)]));
    let mut expected = moof(3, &[tfdt1(90000)]);
    expected.extend_from_slice(&boxed(b"mdat", &[1, 2, 3]));
    expected.extend_from_slice(&moof(4, &[tfdt1(90500)]));
    patch_tfdts(&mut data, 90000, 3);
    assert_eq!(data, expected);
}

#[test]
fn narrow_decode_times_are_cut() {
    let mut data = moof(0, &[tfdt0(10), tfdt0(30)]);
    patch_tfdts(&mut data, 0x1_0000_0005, 0xffff_ffff);
    assert_eq!(data, moof(0xffff_ffff, &[tfdt0(5), tfdt0(25)]));
}

#[test]
fn decode_times_may_move_back() {
    let mut data = moof(0, &[tfdt1(500), tfdt1(700)]);
    patch_tfdts(&mut data, 100, 1);
    assert_eq!(data, moof(1, &[tfdt1(100), tfdt1(300)]));
}

#[test]
fn a_truncated_decode_time_is_reported() {
    let cut = boxed(b"tfdt", &[1, 0, 0, 0, 0, 0, 0, 5]);
    let mut data = moof(0, &[cut.clone()]);
    assert!(!try_patch_tfdts(&mut data, 9, 2));
    assert_eq!(data, moof(2, &[cut.clone()]));
    // Of a track that is not patched it does not matter.
    let mut other = tfhd(3);
    other.extend_from_slice(&cut);
    let mut data = moof(0, &[other]);
    assert!(try_patch_tfdts_per_track(&mut data, 2, 1, 2, 5, 6));
}

#[test]
fn tracks_are_patched_apart() {
    let mut video = tfhd(1);
    video.extend_from_slice(&tfdt1(10));
    let mut audio = tfhd(2);
    audio.extend_from_slice(&tfdt1(20));
    let mut other = tfhd(3);
    other.extend_from_slice(&tfdt1(30));
    let mut data = moof(0, &[video.clone(), audio.clone(), other.clone()]);
    data.extend_from_slice(&moof(0, &[audio.clone(), video.clone()]));

    let mut video_out = tfhd(1);
    video_out.extend_from_slice(&tfdt1(1000));
    let mut audio_out = tfhd(2);
    audio_out.extend_from_slice(&tfdt1(2000));
    let mut expected = moof(5, &[video_out.clone(), audio_out.clone(), other]);
    expected.extend_from_slice(&moof(6, &[audio_out, video_out]));
    patch_tfdts_per_track(&mut data, 5, 1, 2, 1000, 2000);
    assert_eq!(data, expected);
}

#[test]
fn a_single_track_is_patched_alike() {
    let mut first = tfhd(7);
    first.extend_from_slice(&tfdt1(10));
    let mut second = tfhd(7);
    second.extend_from_slice(&tfdt0(25));
    let mut one = moof(0, &[first]);
    one.extend_from_slice(&moof(0, &[second]));
    let mut two = one.clone();
    let before = one.clone();
    patch_tfdts(&mut one, 1000, 4);
    patch_tfdts_per_track(&mut two, 4, 7, 8, 1000, 99);
    assert_eq!(one, two);
    assert_ne!(one, before);
    let mut same = before.clone();
    patch_tfdts_per_track(&mut same, 4, 7, 7, 1000, 99);
    assert_eq!(one, same);
}

#[test]
fn track_defaults_are_fixed() {
    let make = |a: u32, b: u32| {
        let mut mvex = trex(1, a);
        mvex.extend_from_slice(&trex(2, b));
        boxed(b"moov", &boxed(b"mvex", &mvex))
    };
    let mut data = make(1, 1);
    fix_trex_durations(&mut data, 3000);
    assert_eq!(data, make(3000, 3000));
    fix_trex_durations(&mut data, 1024);
    assert_eq!(data, make(1024, 1024));
    fix_trex_durations_per_track(&mut data, 1, 3003, 2, 512);
    assert_eq!(data, make(3003, 512));
    // Outside of moov/mvex nothing is touched.
    let mut data = trex(1, 1);
    data.extend_from_slice(&boxed(b"free", &trex(1, 1)));
    let before = data.clone();
    fix_trex_durations_per_track(&mut data, 7, 3003, 8, 512);
    assert_eq!(data, before);
}

#[test]
fn a_walk_enters_only_listed_boxes() {
    let mut data = boxed(b"wrap", &trex(1, 1));
    data.extend_from_slice(&boxed(b"skip", &trex(1, 1)));
    let mut fix = TrexFix { duration: 9 };
    walk_boxes_mut(&mut data, &[fourcc('w', 'r', 'a', 'p')], &mut fix);
    let mut expected = boxed(b"wrap", &trex(1, 9));
    expected.extend_from_slice(&boxed(b"skip", &trex(1, 1)));
    assert_eq!(data, expected);
}

fn elst(version: u8, entries: u32, fields: &[u8]) -> Vec<u8> {
    let mut p = vec![version, 0, 0, 0];
    p.extend_from_slice(&entries.to_be_bytes());
    p.extend_from_slice(fields);
    boxed(b"elst", &p)
}

#[test]
fn the_edit_list_is_found_at_any_depth() {
    let mut fields = 5u32.to_be_bytes().to_vec();
    fields.extend_from_slice(&1024i32.to_be_bytes());
    let list = elst(0, 1, &fields);
    let mut data = boxed(b"ftyp", &[]);
    data.extend_from_slice(&boxed(b"moov", &boxed(b"trak", &boxed(b"edts", &list))));
    assert_eq!(parse_elst_media_time(&data), Some(1024));

    let mut fields = 5u32.to_be_bytes().to_vec();
    fields.extend_from_slice(&(-1i32).to_be_bytes());
    assert_eq!(parse_elst_media_time(&elst(0, 1, &fields)), Some(-1));

    let mut fields = 5u64.to_be_bytes().to_vec();
    fields.extend_from_slice(&(-7i64).to_be_bytes());
    assert_eq!(parse_elst_media_time(&elst(1, 1, &fields)), Some(-7));
    assert_eq!(parse_elst_media_time(&elst(1, 1, &fields[..15])), None);
    assert_eq!(parse_elst_media_time(&elst(1, 0, &fields)), None);
    // A size of zero stands for all that is left.
    let mut open = elst(1, 1, &fields);
    open[3] = 0;
    assert_eq!(parse_elst_media_time(&open), Some(-7));
    assert_eq!(parse_elst_media_time(&boxed(b"free", &open)), None);
}

#[test]
fn the_first_edit_list_wins() {
    let edit = |time: i32| {
        let mut fields = 5u32.to_be_bytes().to_vec();
        fields.extend_from_slice(&time.to_be_bytes());
        elst(0, 1, &fields)
    };
    for container in [b"moov", b"trak", b"edts", b"mdia", b"minf", b"stbl"] {
        let held = boxed(container, &edit(3));
        assert_eq!(parse_elst_media_time(&held), Some(3));
        let both = [held, edit(4)].concat();
        assert_eq!(parse_elst_media_time(&both), Some(3));
        let empty = [boxed(container, &[]), edit(4)].concat();
        assert_eq!(parse_elst_media_time(&empty), Some(4));
    }
    let behind = [boxed(b"free", &edit(3)), edit(4)].concat();
    assert_eq!(parse_elst_media_time(&behind), Some(4));
}

#[test]
fn packets_go_to_the_stream_they_are_mapped_to() {
    let mut map = StreamMap::new();
    assert_eq!(map.get(4), None);
    map.insert(4, 0);
    map.insert(2, 1);
    assert_eq!(map.get(4), Some(0));
    assert_eq!(map.get(2), Some(1));
    assert_eq!(movflags(false), "empty_moov+default_base_moof+negative_cts_offsets");
    assert_eq!(
        movflags(true),
        "empty_moov+default_base_moof+delay_moov+negative_cts_offsets"
    );
}
