//! What holds of every main playlist.

use vstd::prelude::*;
use crate::media::{AudioView, Id};
use crate::text::text_less;
use super::codec::codec_of_name;
use super::master::{
    accepts, enabled_audio, group_name, groups, in_order, inserted, is_first_of_group,
    listed_before, marked, marked_at, names_aac, selected_audio, supported,
};

verus! {

proof fn lemma_text_less_asymmetric(a: Seq<char>, b: Seq<char>)
    ensures
        !(text_less(a, b) && text_less(b, a)),
        a == b ==> !text_less(a, b),
    decreases a.len(),
{
    if a.len() > 0 && b.len() > 0 {
        lemma_text_less_asymmetric(a.drop_first(), b.drop_first());
    }
}

proof fn lemma_listed_before_asymmetric(a: AudioView, b: AudioView)
    ensures
        !(listed_before(a, b) && listed_before(b, a)),
{
    lemma_text_less_asymmetric(group_name(a), group_name(b));
    lemma_text_less_asymmetric(group_name(b), group_name(a));
}

/// No stream of a list is to be listed before the one in front of it.
pub open spec fn is_in_order(list: Seq<AudioView>) -> bool {
    forall|i: int| 0 < i < list.len() ==> !listed_before(#[trigger] list[i], list[i - 1])
}

proof fn lemma_inserted(sorted: Seq<AudioView>, x: AudioView)
    requires
        is_in_order(sorted),
    ensures
        is_in_order(inserted(sorted, x)),
        inserted(sorted, x).len() == sorted.len() + 1,
        inserted(sorted, x).last() == x || (sorted.len() > 0 && inserted(sorted, x).last()
            == sorted.last()),
        inserted(sorted, x).to_multiset() == sorted.to_multiset().insert(x),
    decreases sorted.len(),
{
    broadcast use vstd::seq_lib::group_to_multiset_ensures;

    if sorted.len() > 0 && listed_before(x, sorted.last()) {
        let rest = sorted.drop_last();
        let last = sorted.last();
        assert(is_in_order(rest)) by {
            assert forall|i: int| 0 < i < rest.len() implies !listed_before(
                #[trigger] rest[i],
                rest[i - 1],
            ) by {
                assert(!listed_before(sorted[i], sorted[i - 1]));
            }
        }
        lemma_inserted(rest, x);
        let part = inserted(rest, x);
        let out = part.push(last);
        assert forall|i: int| 0 < i < out.len() implies !listed_before(
            #[trigger] out[i],
            out[i - 1],
        ) by {
            if i < part.len() {
                assert(!listed_before(part[i], part[i - 1]));
            } else {
                assert(out[i - 1] == part.last());
                if part.last() == x {
                    lemma_listed_before_asymmetric(x, last);
                } else {
                    assert(!listed_before(sorted[sorted.len() - 1], sorted[sorted.len() - 2]));
                }
            }
        }
        assert(rest.push(last) =~= sorted);
        assert(out.to_multiset() =~= sorted.to_multiset().insert(x));
    } else {
        let out = sorted.push(x);
        assert forall|i: int| 0 < i < out.len() implies !listed_before(
            #[trigger] out[i],
            out[i - 1],
        ) by {
            if i < sorted.len() {
                assert(!listed_before(sorted[i], sorted[i - 1]));
            }
        }
    }
}

/// The audio tracks are listed by group and then by stream, each of them once.
pub proof fn law_audio_in_order(streams: Seq<AudioView>)
    ensures
        is_in_order(in_order(streams)),
        in_order(streams).to_multiset() == streams.to_multiset(),
    decreases streams.len(),
{
    broadcast use vstd::seq_lib::group_to_multiset_ensures;

    if streams.len() > 0 {
        law_audio_in_order(streams.drop_last());
        lemma_inserted(in_order(streams.drop_last()), streams.last());
        assert(streams.drop_last().push(streams.last()) =~= streams);
    }
}

/// Each group of audio streams has one variant: no group occurs twice, and the groups are
/// those of the streams.
pub proof fn law_groups_are_distinct(audio: Seq<AudioView>)
    ensures
        groups(audio).no_duplicates(),
        forall|i: int|
            0 <= i < audio.len() ==> groups(audio).contains(group_name(#[trigger] audio[i])),
        forall|g: Seq<char>|
            groups(audio).contains(g) ==> exists|i: int|
                0 <= i < audio.len() && group_name(#[trigger] audio[i]) == g,
    decreases audio.len(),
{
    if audio.len() > 0 {
        let before = audio.drop_last();
        let name = group_name(audio.last());
        law_groups_are_distinct(before);
        let list = groups(audio);
        assert(audio[audio.len() - 1] == audio.last());
        assert forall|g: Seq<char>| groups(before).contains(g) implies list.contains(g) by {
            let k = groups(before).index_of(g);
            assert(list[k] == g);
        }
        assert(list.contains(name)) by {
            if !groups(before).contains(name) {
                assert(list[list.len() - 1] == name);
            }
        }
        assert forall|i: int| 0 <= i < audio.len() implies list.contains(
            group_name(#[trigger] audio[i]),
        ) by {
            if i < before.len() {
                assert(before[i] == audio[i]);
            }
        }
        assert forall|g: Seq<char>| list.contains(g) implies exists|i: int|
            0 <= i < audio.len() && group_name(#[trigger] audio[i]) == g by {
            let k = list.index_of(g);
            assert(list[k] == g);
            if g == name {
                let n = audio.len() - 1;
                assert(0 <= n < audio.len() && group_name(audio[n]) == g);
            } else {
                assert(groups(before)[k] == g);
                assert(groups(before).contains(g));
                let i = choose|i: int|
                    0 <= i < before.len() && group_name(#[trigger] before[i]) == g;
                assert(group_name(audio[i]) == g);
            }
        }
    }
}

/// Exactly one audio track of each group is the default one.
pub proof fn law_one_default_per_group(sorted: Seq<AudioView>, i: int, j: int)
    requires
        0 <= i < sorted.len(),
        0 <= j < sorted.len(),
        group_name(sorted[i]) == group_name(sorted[j]),
    ensures
        is_first_of_group(sorted, i) && is_first_of_group(sorted, j) ==> i == j,
        exists|k: int|
            0 <= k <= i && group_name(#[trigger] sorted[k]) == group_name(sorted[i])
                && is_first_of_group(sorted, k),
{
    lemma_first_of_group_exists(sorted, i);
    if is_first_of_group(sorted, i) && is_first_of_group(sorted, j) {
        if i < j {
            assert(group_name(sorted[i]) != group_name(sorted[j]));
        } else if j < i {
            assert(group_name(sorted[j]) != group_name(sorted[i]));
        }
    }
}

proof fn lemma_first_of_group_exists(sorted: Seq<AudioView>, i: int)
    requires
        0 <= i < sorted.len(),
    ensures
        exists|k: int|
            0 <= k <= i && group_name(#[trigger] sorted[k]) == group_name(sorted[i])
                && is_first_of_group(sorted, k),
    decreases i,
{
    if is_first_of_group(sorted, i) {
        assert(group_name(sorted[i]) == group_name(sorted[i]));
    } else {
        let j = choose|j: int|
            0 <= j < i && group_name(#[trigger] sorted[j]) == group_name(sorted[i]);
        lemma_first_of_group_exists(sorted, j);
    }
}

proof fn lemma_filter_holds(s: Seq<AudioView>, p: spec_fn(AudioView) -> bool, i: int)
    requires
        0 <= i < s.filter(p).len(),
    ensures
        p(s.filter(p)[i]),
        s.contains(s.filter(p)[i]),
    decreases s.len(),
{
    reveal(Seq::filter);
    if s.len() > 0 {
        let rest = s.drop_last();
        if i < rest.filter(p).len() {
            lemma_filter_holds(rest, p, i);
            let k = rest.index_of(s.filter(p)[i]);
            assert(s[k] == s.filter(p)[i]);
        } else {
            assert(s[s.len() - 1] == s.filter(p)[i]);
        }
    }
}

/// Every audio track of a main playlist is enabled, and it is delivered in, or was recorded
/// in, a codec that is named, if any is.
pub proof fn law_selected_audio(
    streams: Seq<AudioView>,
    tracks: Set<usize>,
    transcode: Map<usize, String>,
    codecs: Seq<String>,
    i: int,
)
    requires
        0 <= i < selected_audio(streams, tracks, transcode, codecs).len(),
    ensures
        ({
            let a = selected_audio(streams, tracks, transcode, codecs)[i];
            tracks.contains(a.stream_index) && (codecs.len() > 0 ==> accepts(codecs, a))
        }),
{
    let enabled = enabled_audio(streams, tracks);
    let all = marked(enabled, transcode);
    let left = supported(all, codecs);
    let a = selected_audio(streams, tracks, transcode, codecs)[i];
    let is_enabled = |a: AudioView| tracks.contains(a.stream_index);
    if left.len() == 0 && names_aac(codecs) {
        let same = |a: AudioView| a.codec_id == enabled[0].codec_id;
        lemma_filter_holds(enabled, same, i);
        let source = enabled.filter(same)[i];
        let k = enabled.index_of(source);
        lemma_filter_holds(streams, is_enabled, k);
        let n = choose|n: int|
            0 <= n < codecs.len() && codec_of_name((#[trigger] codecs[n])@) == Some(Id::AAC);
        assert(codec_of_name(codecs[n]@) == Some(Id::AAC));
        assert(a.transcode_to == Some(Id::AAC));
    } else {
        let k = if codecs.len() == 0 {
            i
        } else {
            lemma_filter_holds(all, |a: AudioView| accepts(codecs, a), i);
            all.index_of(a)
        };
        assert(all[k] == a);
        assert(all[k] == marked_at(enabled, k, transcode));
        lemma_filter_holds(streams, is_enabled, k);
    }
}

} // verus!
