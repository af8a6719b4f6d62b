//! What the playlist of a track says, line by line.

use vstd::prelude::*;
use crate::media::SegmentInfo;
use crate::text::{
    decimal, half_even, lemma_lined_concat, lemma_lined_one, lined, padded, rounded_millis,
    seconds3,
};
use super::timeline_laws::is_timeline;
use super::variant::{
    cluster_entries, cluster_entry, clustering, clusters, entries, entry, header, longest,
    longest_cluster, make_room, media_playlist, subtitle_playlist, subtitle_target, target_duration,
    Cluster,
};

verus! {

/// The least whole number of seconds, but at least six, that no segment is longer than.
pub open spec fn is_target(target: nat, segments: Seq<SegmentInfo>) -> bool {
    &&& target >= 6
    &&& forall|i: int|
        0 <= i < segments.len() ==> (#[trigger] segments[i]).duration_us <= target * 1_000_000
    &&& target > 6 ==> exists|i: int|
        0 <= i < segments.len() && (#[trigger] segments[i]).duration_us > (target - 1) * 1_000_000
}

proof fn lemma_longest_is(segments: Seq<SegmentInfo>)
    ensures
        forall|i: int|
            0 <= i < segments.len() ==> (#[trigger] segments[i]).duration_us <= longest(segments),
        longest(segments) > 0 ==> exists|i: int|
            0 <= i < segments.len() && (#[trigger] segments[i]).duration_us == longest(segments),
    decreases segments.len(),
{
    if segments.len() > 0 {
        let before = segments.drop_last();
        lemma_longest_is(before);
        let n = segments.len() - 1;
        assert(segments[n] == segments.last());
        assert forall|i: int| 0 <= i < segments.len() implies (#[trigger] segments[i]).duration_us
            <= longest(segments) by {
            if i < n {
                assert(segments[i] == before[i]);
            }
        }
        if longest(segments) > 0 && segments.last().duration_us != longest(segments) {
            let i = choose|i: int|
                0 <= i < before.len() && (#[trigger] before[i]).duration_us == longest(before);
            assert(segments[i] == before[i]);
        }
    }
}

/// The target duration is the least whole number of seconds, but at least six, that no segment
/// is longer than.
pub proof fn law_target_is_least(segments: Seq<SegmentInfo>)
    requires
        forall|i: int|
            0 <= i < segments.len() ==> (#[trigger] segments[i]).duration_us <= u32::MAX as nat
                * 1_000_000,
    ensures
        is_target(target_duration(segments), segments),
{
    lemma_longest_is(segments);
    let l = longest(segments);
    assert(l <= u32::MAX as nat * 1_000_000);
    let t = target_duration(segments);
    if t > 6 {
        let i = choose|i: int|
            0 <= i < segments.len() && (#[trigger] segments[i]).duration_us == l;
        assert(segments[i].duration_us > (t - 1) * 1_000_000);
    }
}

proof fn lemma_half_even(n: nat, d: nat)
    requires
        d > 0,
    ensures
        2 * (half_even(n, d) * d) <= 2 * n + d,
        2 * n <= 2 * (half_even(n, d) * d) + d,
{
    vstd::arithmetic::div_mod::lemma_fundamental_div_mod(n as int, d as int);
    let q = n / d;
    assert(d * q == q * d) by (nonlinear_arith);
    assert((q + 1) * d == q * d + d) by (nonlinear_arith);
    vstd::arithmetic::div_mod::lemma_mod_bound(n as int, d as int);
}

proof fn lemma_unit(n: nat, unit: nat, us: nat)
    requires
        n == us * unit,
        us > 0,
        unit > 0,
    ensures
        us * crate::text::binary_unit(n, unit) >= 0x10_0000_0000_0000 * 1_000_000,
        crate::text::binary_unit(n, unit) > 0,
    decreases 0x20_0000_0000_0000 * 1_000_000 - n,
{
    assert(us * unit > 0) by (nonlinear_arith)
        requires
            us > 0,
            unit > 0,
    ;
    if n < 0x10_0000_0000_0000 * 1_000_000 {
        assert(us * (2 * unit) == 2 * (us * unit)) by (nonlinear_arith);
        lemma_unit(2 * n, 2 * unit, us);
    }
}

/// A length in milliseconds is the nearest to that in microseconds.
pub proof fn law_millis_are_nearest(us: nat)
    requires
        us < 0x100_0000_0000,
    ensures
        1000 * rounded_millis(us) <= us + 500,
        us <= 1000 * rounded_millis(us) + 500,
{
    if us > 0 {
        let u = crate::text::binary_unit(us, 1);
        assert(us == us * 1);
        lemma_unit(us, 1, us);
        let q = half_even(us * u, 1_000_000);
        let ms = half_even(q * 1000, u);
        lemma_half_even(us * u, 1_000_000);
        lemma_half_even(q * 1000, u);
        assert(u > 1_000_000) by (nonlinear_arith)
            requires
                us * u >= 0x10_0000_0000_0000 * 1_000_000,
                0 < us < 0x100_0000_0000,
                u > 0,
        ;
        let (a, b) = (ms * u, us * u);
        assert(1000 * ms <= us + 500) by (nonlinear_arith)
            requires
                a == ms * u,
                b == us * u,
                2 * a <= 2 * (q * 1000) + u,
                2 * (q * 1_000_000) <= 2 * b + 1_000_000,
                u > 1_000_000,
        ;
        assert(us <= 1000 * ms + 500) by (nonlinear_arith)
            requires
                a == ms * u,
                b == us * u,
                2 * (q * 1000) <= 2 * a + u,
                2 * b <= 2 * (q * 1_000_000) + 1_000_000,
                u > 1_000_000,
        ;
    } else {
        assert(crate::text::binary_unit(0, 1) == 1);
        assert(half_even(0, 1_000_000) == 0);
        assert(half_even(0, 1) == 0);
    }
}

/// The length of a segment in seconds, with three decimals, for a number of milliseconds that is
/// the nearest to it.
pub open spec fn is_length(text: Seq<char>, us: nat) -> bool {
    exists|ms: nat|
        {
            &&& text == decimal(ms / 1000) + "."@ + #[trigger] padded(ms % 1000, 3)
            &&& us < 0x100_0000_0000 ==> 1000 * ms <= us + 500 && us <= 1000 * ms + 500
        }
}

proof fn lemma_length(us: nat)
    ensures
        is_length(seconds3(us), us),
{
    let ms = rounded_millis(us);
    if us < 0x100_0000_0000 {
        law_millis_are_nearest(us);
    }
    assert(seconds3(us) == decimal(ms / 1000) + "."@ + padded(ms % 1000, 3));
}

/// The line of the length of a segment.
pub open spec fn is_length_line(line: Seq<char>, us: nat) -> bool {
    exists|text: Seq<char>|
        line == "#EXTINF:"@ + text + ","@ && #[trigger] is_length(text, us)
}

/// The lines of the playlist of a track with an initialization segment: its head, where the
/// initialization segment is, two lines for each segment in order, its length and its name, and
/// the end.
pub open spec fn are_track_lines(
    lines: Seq<Seq<char>>,
    segments: Seq<SegmentInfo>,
    init: Seq<char>,
    name: spec_fn(usize) -> Seq<char>,
) -> bool {
    let n = segments.len() as int;
    &&& lines.len() == 9 + 2 * n
    &&& lines[0] == "#EXTM3U"@
    &&& lines[1] == "#EXT-X-VERSION:7"@
    &&& lines[2] == "#EXT-X-TARGETDURATION:"@ + decimal(target_duration(segments))
    &&& lines[3] == "#EXT-X-MEDIA-SEQUENCE:0"@
    &&& lines[4] == "#EXT-X-PLAYLIST-TYPE:VOD"@
    &&& lines[5] == "#EXT-X-INDEPENDENT-SEGMENTS"@
    &&& lines[6] == "#EXT-X-MAP:URI=\""@ + init + "\""@
    &&& lines[7] == ""@
    &&& forall|i: int|
        0 <= i < n ==> is_length_line(
            lines[8 + 2 * i],
            (#[trigger] segments[i]).duration_us as nat,
        ) && lines[9 + 2 * i] == name(segments[i].sequence)
    &&& lines[8 + 2 * n] == "#EXT-X-ENDLIST"@
}

proof fn lemma_two(a: Seq<char>, b: Seq<char>)
    ensures
        lined(seq![a, b]) == a + "\n"@ + b + "\n"@,
{
    lemma_lined_one(a);
    lemma_lined_one(b);
    lemma_lined_concat(seq![a], seq![b]);
    assert(seq![a] + seq![b] =~= seq![a, b]);
    assert(lined(seq![a, b]) =~= a + "\n"@ + b + "\n"@);
}

/// The lines of entries.
spec fn entry_lines(segments: Seq<SegmentInfo>, name: spec_fn(usize) -> Seq<char>) -> Seq<Seq<char>> {
    Seq::new(
        2 * segments.len(),
        |k: int|
            if k % 2 == 0 {
                "#EXTINF:"@ + seconds3(segments[k / 2].duration_us as nat) + ","@
            } else {
                name(segments[k / 2].sequence)
            },
    )
}

proof fn lemma_entries(segments: Seq<SegmentInfo>, name: spec_fn(usize) -> Seq<char>)
    ensures
        entries(segments, name) == lined(entry_lines(segments, name)),
    decreases segments.len(),
{
    let lines = entry_lines(segments, name);
    if segments.len() == 0 {
        assert(lines =~= Seq::<Seq<char>>::empty());
    } else {
        let rest = segments.drop_last();
        lemma_entries(rest, name);
        let before = entry_lines(rest, name);
        let s = segments.last();
        let two = seq![
            "#EXTINF:"@ + seconds3(s.duration_us as nat) + ","@,
            name(s.sequence),
        ];
        assert(lines =~= before + two) by {
            assert forall|k: int| 0 <= k < lines.len() implies lines[k] == (before + two)[k] by {
                if k < before.len() {
                    assert(rest[k / 2] == segments[k / 2]);
                }
            }
        }
        lemma_lined_concat(before, two);
        lemma_two(two[0], two[1]);
        assert(seq![two[0], two[1]] =~= two);
        reveal_strlit(",\n");
        reveal_strlit(",");
        reveal_strlit("\n");
        assert(",\n"@ =~= ","@ + "\n"@);
        assert(entry(s.duration_us, name(s.sequence)) =~= lined(two));
    }
}

/// The lines that open every playlist of a track.
spec fn head_lines(target: nat) -> Seq<Seq<char>> {
    seq![
        "#EXTM3U"@,
        "#EXT-X-VERSION:7"@,
        "#EXT-X-TARGETDURATION:"@ + decimal(target),
        "#EXT-X-MEDIA-SEQUENCE:0"@,
        "#EXT-X-PLAYLIST-TYPE:VOD"@,
    ]
}

#[verifier::rlimit(40)]
proof fn lemma_head(target: nat)
    ensures
        lined(head_lines(target)) == header(target),
{
    let t = "#EXT-X-TARGETDURATION:"@ + decimal(target);
    lemma_two("#EXTM3U"@, "#EXT-X-VERSION:7"@);
    lemma_two("#EXT-X-MEDIA-SEQUENCE:0"@, "#EXT-X-PLAYLIST-TYPE:VOD"@);
    lemma_lined_one(t);
    let a = seq!["#EXTM3U"@, "#EXT-X-VERSION:7"@];
    let c = seq!["#EXT-X-MEDIA-SEQUENCE:0"@, "#EXT-X-PLAYLIST-TYPE:VOD"@];
    lemma_lined_concat(a, seq![t]);
    lemma_lined_concat(a + seq![t], c);
    assert(a + seq![t] + c =~= head_lines(target));
    let first = "#EXTM3U\n#EXT-X-VERSION:7\n#EXT-X-TARGETDURATION:"@;
    let second = "\n#EXT-X-MEDIA-SEQUENCE:0\n#EXT-X-PLAYLIST-TYPE:VOD\n"@;
    assert(first =~= "#EXTM3U"@ + "\n"@ + "#EXT-X-VERSION:7"@ + "\n"@ + "#EXT-X-TARGETDURATION:"@) by {
        reveal_strlit("\n");
        reveal_strlit("#EXTM3U");
        reveal_strlit("#EXT-X-VERSION:7");
        reveal_strlit("#EXT-X-TARGETDURATION:");
        reveal_strlit("#EXTM3U\n#EXT-X-VERSION:7\n#EXT-X-TARGETDURATION:");
    }
    assert(second =~= "\n"@ + "#EXT-X-MEDIA-SEQUENCE:0"@ + "\n"@ + "#EXT-X-PLAYLIST-TYPE:VOD"@
        + "\n"@) by {
        reveal_strlit("\n");
        reveal_strlit("#EXT-X-MEDIA-SEQUENCE:0");
        reveal_strlit("#EXT-X-PLAYLIST-TYPE:VOD");
        reveal_strlit("\n#EXT-X-MEDIA-SEQUENCE:0\n#EXT-X-PLAYLIST-TYPE:VOD\n");
    }
    assert(header(target) == first + decimal(target) + second);
    assert(lined(head_lines(target)) =~= first + decimal(target) + second);
}

proof fn lemma_end()
    ensures
        lined(seq!["#EXT-X-ENDLIST"@]) == "#EXT-X-ENDLIST\n"@,
{
    lemma_lined_one("#EXT-X-ENDLIST"@);
    reveal_strlit("#EXT-X-ENDLIST");
    reveal_strlit("#EXT-X-ENDLIST\n");
    reveal_strlit("\n");
    assert("#EXT-X-ENDLIST\n"@ =~= "#EXT-X-ENDLIST"@ + "\n"@);
}

/// The lines between the head and the entries.
spec fn map_lines(init: Seq<char>) -> Seq<Seq<char>> {
    seq!["#EXT-X-INDEPENDENT-SEGMENTS"@, "#EXT-X-MAP:URI=\""@ + init + "\""@, ""@]
}

proof fn lemma_map(init: Seq<char>)
    ensures
        lined(map_lines(init)) == "#EXT-X-INDEPENDENT-SEGMENTS\n#EXT-X-MAP:URI=\""@ + init
            + "\"\n\n"@,
{
    let m = "#EXT-X-MAP:URI=\""@ + init + "\""@;
    lemma_two("#EXT-X-INDEPENDENT-SEGMENTS"@, m);
    lemma_lined_one(""@);
    lemma_lined_concat(seq!["#EXT-X-INDEPENDENT-SEGMENTS"@, m], seq![""@]);
    assert(seq!["#EXT-X-INDEPENDENT-SEGMENTS"@, m] + seq![""@] =~= map_lines(init));
    assert("#EXT-X-INDEPENDENT-SEGMENTS\n#EXT-X-MAP:URI=\""@ =~= "#EXT-X-INDEPENDENT-SEGMENTS"@
        + "\n"@ + "#EXT-X-MAP:URI=\""@) by {
        reveal_strlit("\n");
        reveal_strlit("#EXT-X-INDEPENDENT-SEGMENTS");
        reveal_strlit("#EXT-X-MAP:URI=\"");
        reveal_strlit("#EXT-X-INDEPENDENT-SEGMENTS\n#EXT-X-MAP:URI=\"");
    }
    assert("\"\n\n"@ =~= "\""@ + "\n"@ + ""@ + "\n"@) by {
        reveal_strlit("\n");
        reveal_strlit("\"");
        reveal_strlit("");
        reveal_strlit("\"\n\n");
    }
    assert(lined(map_lines(init)) =~= "#EXT-X-INDEPENDENT-SEGMENTS\n#EXT-X-MAP:URI=\""@ + init
        + "\"\n\n"@);
}

/// The playlist of a track consists of these lines and no others.
pub proof fn law_track_playlist_lines(
    segments: Seq<SegmentInfo>,
    init: Seq<char>,
    name: spec_fn(usize) -> Seq<char>,
)
    ensures
        exists|lines: Seq<Seq<char>>|
            media_playlist(segments, init, name) == lined(lines) && #[trigger] are_track_lines(
                lines,
                segments,
                init,
                name,
            ),
{
    let head = head_lines(target_duration(segments));
    let map = map_lines(init);
    let body = entry_lines(segments, name);
    let end = seq!["#EXT-X-ENDLIST"@];
    lemma_head(target_duration(segments));
    lemma_map(init);
    lemma_entries(segments, name);
    lemma_end();
    lemma_lined_concat(head, map);
    lemma_lined_concat(head + map, body);
    lemma_lined_concat(head + map + body, end);
    let lines = head + map + body + end;
    assert(media_playlist(segments, init, name) =~= lined(lines));
    assert forall|i: int| 0 <= i < segments.len() implies is_length_line(
        lines[8 + 2 * i],
        (#[trigger] segments[i]).duration_us as nat,
    ) && lines[9 + 2 * i] == name(segments[i].sequence) by {
        assert((2 * i) / 2 == i && (2 * i) % 2 == 0);
        assert((2 * i + 1) / 2 == i && (2 * i + 1) % 2 == 1);
        assert(lines[8 + 2 * i] == body[2 * i]);
        assert(lines[9 + 2 * i] == body[2 * i + 1]);
        lemma_length(segments[i].duration_us as nat);
        assert(is_length(seconds3(segments[i].duration_us as nat), segments[i].duration_us as nat));
    }
    assert(are_track_lines(lines, segments, init, name));
}

/// The lines of the playlist of a subtitle track: its head, two lines for each entry, its length
/// in microseconds and the segments that it stands for, and the end.
pub open spec fn are_subtitle_lines(
    lines: Seq<Seq<char>>,
    target: nat,
    track: usize,
    list: Seq<Cluster>,
) -> bool {
    let n = list.len() as int;
    &&& lines.len() == 7 + 2 * n
    &&& lines[0] == "#EXTM3U"@
    &&& lines[1] == "#EXT-X-VERSION:7"@
    &&& lines[2] == "#EXT-X-TARGETDURATION:"@ + decimal(target)
    &&& lines[3] == "#EXT-X-MEDIA-SEQUENCE:0"@
    &&& lines[4] == "#EXT-X-PLAYLIST-TYPE:VOD"@
    &&& lines[5] == ""@
    &&& forall|k: int|
        0 <= k < n ==> lines[6 + 2 * k] == "#EXTINF:"@ + decimal(
            (#[trigger] list[k]).length_us as nat / 1_000_000,
        ) + "."@ + padded(list[k].length_us as nat % 1_000_000, 6) + ","@ && lines[7 + 2 * k]
            == "s/"@ + decimal(track as nat) + "."@ + decimal(list[k].first as nat) + "-"@
            + decimal(list[k].last as nat) + ".vtt"@
    &&& lines[6 + 2 * n] == "#EXT-X-ENDLIST"@
}

spec fn cluster_length(c: Cluster) -> Seq<char> {
    "#EXTINF:"@ + decimal(c.length_us as nat / 1_000_000) + "."@ + padded(
        c.length_us as nat % 1_000_000,
        6,
    ) + ","@
}

spec fn cluster_name(track: usize, c: Cluster) -> Seq<char> {
    "s/"@ + decimal(track as nat) + "."@ + decimal(c.first as nat) + "-"@ + decimal(c.last as nat)
        + ".vtt"@
}

spec fn cluster_lines(track: usize, list: Seq<Cluster>) -> Seq<Seq<char>> {
    Seq::new(
        2 * list.len(),
        |k: int|
            if k % 2 == 0 {
                cluster_length(list[k / 2])
            } else {
                cluster_name(track, list[k / 2])
            },
    )
}

proof fn lemma_cluster_entries(track: usize, list: Seq<Cluster>)
    ensures
        cluster_entries(track, list) == lined(cluster_lines(track, list)),
    decreases list.len(),
{
    let lines = cluster_lines(track, list);
    if list.len() == 0 {
        assert(lines =~= Seq::<Seq<char>>::empty());
    } else {
        let rest = list.drop_last();
        lemma_cluster_entries(track, rest);
        let before = cluster_lines(track, rest);
        let c = list.last();
        let two = seq![cluster_length(c), cluster_name(track, c)];
        assert(lines =~= before + two) by {
            assert forall|k: int| 0 <= k < lines.len() implies lines[k] == (before + two)[k] by {
                if k < before.len() {
                    assert(rest[k / 2] == list[k / 2]);
                }
            }
        }
        lemma_lined_concat(before, two);
        lemma_two(two[0], two[1]);
        assert(seq![two[0], two[1]] =~= two);
        reveal_strlit(",\n");
        reveal_strlit(",");
        reveal_strlit("\n");
        assert(",\n"@ =~= ","@ + "\n"@);
        assert(cluster_entry(track, c) =~= lined(two));
    }
}

/// The playlist of a subtitle track consists of these lines and no others.
pub proof fn law_subtitle_playlist_lines(
    segments: Seq<SegmentInfo>,
    track: usize,
    list: Seq<Cluster>,
)
    ensures
        exists|lines: Seq<Seq<char>>|
            subtitle_playlist(segments, track, list) == lined(lines)
                && #[trigger] are_subtitle_lines(
                lines,
                subtitle_target(segments, list),
                track,
                list,
            ),
{
    let head = head_lines(subtitle_target(segments, list));
    let gap = seq![""@];
    let body = cluster_lines(track, list);
    let end = seq!["#EXT-X-ENDLIST"@];
    lemma_head(subtitle_target(segments, list));
    lemma_lined_one(""@);
    reveal_strlit("");
    lemma_cluster_entries(track, list);
    lemma_end();
    lemma_lined_concat(head, gap);
    lemma_lined_concat(head + gap, body);
    lemma_lined_concat(head + gap + body, end);
    let lines = head + gap + body + end;
    assert(subtitle_playlist(segments, track, list) =~= lined(lines));
    assert forall|k: int| 0 <= k < list.len() implies lines[6 + 2 * k] == cluster_length(
        #[trigger] list[k],
    ) && lines[7 + 2 * k] == cluster_name(track, list[k]) by {
        assert((2 * k) / 2 == k && (2 * k) % 2 == 0);
        assert((2 * k + 1) / 2 == k && (2 * k + 1) % 2 == 1);
        assert(lines[6 + 2 * k] == body[2 * k]);
        assert(lines[7 + 2 * k] == body[2 * k + 1]);
    }
    assert(are_subtitle_lines(lines, subtitle_target(segments, list), track, list));
}

proof fn lemma_longest_cluster_is(list: Seq<Cluster>)
    ensures
        forall|k: int|
            0 <= k < list.len() ==> (#[trigger] list[k]).length_us <= longest_cluster(list),
        longest_cluster(list) > 0 ==> exists|k: int|
            0 <= k < list.len() && (#[trigger] list[k]).length_us == longest_cluster(list),
    decreases list.len(),
{
    if list.len() > 0 {
        let before = list.drop_last();
        lemma_longest_cluster_is(before);
        let n = list.len() - 1;
        assert(list[n] == list.last());
        assert forall|k: int| 0 <= k < list.len() implies (#[trigger] list[k]).length_us
            <= longest_cluster(list) by {
            if k < n {
                assert(list[k] == before[k]);
            }
        }
        if longest_cluster(list) > 0 && list.last().length_us != longest_cluster(list) {
            let k = choose|k: int|
                0 <= k < before.len() && (#[trigger] before[k]).length_us == longest_cluster(before);
            assert(list[k] == before[k]);
        }
    }
}

/// The target duration of a subtitle playlist is the least whole number of seconds that none of
/// its entries is longer than, but at least that of the segments.
pub proof fn law_subtitle_target_is_least(segments: Seq<SegmentInfo>, list: Seq<Cluster>)
    requires
        forall|k: int|
            0 <= k < list.len() ==> (#[trigger] list[k]).length_us <= u32::MAX as nat * 1_000_000,
    ensures
        ({
            let t = subtitle_target(segments, list);
            &&& t >= target_duration(segments)
            &&& forall|k: int|
                0 <= k < list.len() ==> (#[trigger] list[k]).length_us <= t * 1_000_000
            &&& t > target_duration(segments) ==> exists|k: int|
                0 <= k < list.len() && (#[trigger] list[k]).length_us > (t - 1) * 1_000_000
        }),
{
    lemma_longest_cluster_is(list);
    let l = longest_cluster(list);
    let t = subtitle_target(segments, list);
    assert(l <= u32::MAX as nat * 1_000_000);
    if t > target_duration(segments) {
        let k = choose|k: int| 0 <= k < list.len() && (#[trigger] list[k]).length_us == l;
        assert(list[k].length_us > (t - 1) * 1_000_000);
    }
}

/// Nothing is shown in the segments of an entry in front of its last one. An entry ends with a
/// segment in which something is shown, or where the next segment would take it over the cap.
pub open spec fn is_well_ended(
    c: Cluster,
    segments: Seq<SegmentInfo>,
    silent: spec_fn(usize) -> bool,
) -> bool {
    &&& forall|i: int| c.first <= i < c.last ==> silent((#[trigger] segments[i]).sequence)
    &&& silent(segments[c.last as int].sequence) ==> c.last + 1 < segments.len() && c.length_us
        + segments[c.last + 1].duration_us > 30_000_000
}

proof fn lemma_well_ended(segments: Seq<SegmentInfo>, silent: spec_fn(usize) -> bool)
    requires
        is_timeline(segments),
    ensures
        ({
            let c = clustering(segments, silent);
            &&& forall|k: int|
                0 <= k < c.done.len() ==> (#[trigger] c.done[k]).last < segments.len()
                    && is_well_ended(c.done[k], segments, silent)
            &&& c.start matches Some(s) ==> s < segments.len() && forall|i: int|
                s <= i < segments.len() ==> silent((#[trigger] segments[i]).sequence)
            &&& c.start is None ==> c.length == 0
            &&& c.start is Some ==> c.length > 0
            &&& c.length <= u64::MAX
        }),
    decreases segments.len(),
{
    if segments.len() > 0 {
        let before = segments.drop_last();
        let n = before.len() as int;
        assert forall|i: int| 0 <= i < before.len() implies (#[trigger] before[i]).sequence == i
            && before[i].duration_us > 0 by {
            assert(before[i] == segments[i]);
        }
        lemma_well_ended(before, silent);
        let c = clustering(before, silent);
        let last = segments[n];
        assert(last == segments.last() && last.sequence == n);
        let room = make_room(c, last);
        let out = clustering(segments, silent);
        assert forall|k: int| 0 <= k < c.done.len() implies is_well_ended(
            #[trigger] c.done[k],
            segments,
            silent,
        ) by {
            let d = c.done[k];
            assert(is_well_ended(d, before, silent));
            assert forall|i: int| d.first <= i < d.last implies silent(
                (#[trigger] segments[i]).sequence,
            ) by {
                assert(before[i] == segments[i]);
            }
            assert(before[d.last as int] == segments[d.last as int]);
            if silent(segments[d.last as int].sequence) {
                assert(before[d.last + 1] == segments[d.last + 1]);
            }
        }
        if room.done.len() > c.done.len() {
            let d = room.done.last();
            assert(d.last + 1 == n);
            assert forall|i: int| d.first <= i < d.last implies silent(
                (#[trigger] segments[i]).sequence,
            ) by {
                assert(before[i] == segments[i]);
            }
            assert(is_well_ended(d, segments, silent));
        }
        assert forall|i: int| room.start->Some_0 <= i < n implies silent(
            (#[trigger] segments[i]).sequence,
        ) by {
            assert(before[i] == segments[i]);
        }
        assert forall|k: int| 0 <= k < room.done.len() implies (#[trigger] room.done[k]).last
            < segments.len() && is_well_ended(room.done[k], segments, silent) by {
            if k < c.done.len() {
                assert(room.done[k] == c.done[k]);
            }
        }
        if !silent(last.sequence) {
            let d = out.done.last();
            assert(is_well_ended(d, segments, silent));
            assert forall|k: int| 0 <= k < out.done.len() implies (#[trigger] out.done[k]).last
                < segments.len() && is_well_ended(out.done[k], segments, silent) by {
                if k < room.done.len() {
                    assert(out.done[k] == room.done[k]);
                }
            }
        }
    }
}

/// Entries are made as long as may be: each ends with a segment in which something is shown, or
/// where the next one would take it over thirty seconds, or with the timeline.
pub proof fn law_clusters_end_where_shown(
    segments: Seq<SegmentInfo>,
    silent: spec_fn(usize) -> bool,
    k: int,
)
    requires
        is_timeline(segments),
        0 <= k < clusters(segments, silent).len(),
    ensures
        ({
            let c = clusters(segments, silent)[k];
            &&& c.last < segments.len()
            &&& forall|i: int| c.first <= i < c.last ==> silent((#[trigger] segments[i]).sequence)
            &&& silent(segments[c.last as int].sequence) ==> c.last + 1 == segments.len()
                || c.length_us + segments[c.last + 1].duration_us > 30_000_000
        }),
{
    lemma_well_ended(segments, silent);
    let c = clustering(segments, silent);
    if segments.len() > 0 {
        assert(segments[segments.len() - 1].sequence == segments.len() - 1);
    }
    if k < c.done.len() {
        assert(clusters(segments, silent)[k] == c.done[k]);
    }
}

} // verus!
