//! Which audio tracks a main playlist offers, said of the streams of the file.

use vstd::prelude::*;
use crate::media::{AudioView, Id};
use crate::search::{is_choice, lemma_filter_is_choice, lemma_first_index_none};
use super::codec::codec_of_name;
use super::master::{
    accepts, as_aac, enabled_audio, marked, marked_at, names_aac, selected_audio, supported,
};

verus! {

/// What is asked of a main playlist: the tracks, what some of them are transcoded to, and the
/// codecs that the player plays; none stands for all.
pub struct Request {
    pub tracks: Set<usize>,
    pub transcode: Map<usize, String>,
    pub codecs: Seq<String>,
}

impl Request {
    /// What a stream is transcoded to: what is asked for, or what it was to be before.
    pub open spec fn target(self, a: AudioView) -> Option<Id> {
        if self.transcode.dom().contains(a.stream_index) {
            codec_of_name(self.transcode[a.stream_index]@)
        } else {
            a.transcode_to
        }
    }

    /// The player plays a codec.
    pub open spec fn plays(self, id: Id) -> bool {
        exists|k: int|
            0 <= k < self.codecs.len() && codec_of_name((#[trigger] self.codecs[k])@) == Some(id)
    }

    /// A stream is asked for, and the player plays it as it is or as it is transcoded.
    pub open spec fn fits(self, a: AudioView) -> bool {
        self.tracks.contains(a.stream_index) && (self.codecs.len() == 0 || self.plays(a.codec_id)
            || (self.target(a) matches Some(id) && self.plays(id)))
    }

    /// A stream is asked for, and it comes in the codec of the first one that is.
    pub open spec fn is_like_first(self, streams: Seq<AudioView>, i: int) -> bool {
        self.tracks.contains(streams[i].stream_index) && forall|f: int|
            0 <= f <= i && #[trigger] self.is_first(streams, f) ==> streams[f].codec_id
                == streams[i].codec_id
    }

    /// The stream at `f` is the first one that is asked for.
    pub open spec fn is_first(self, streams: Seq<AudioView>, f: int) -> bool {
        self.tracks.contains(streams[f].stream_index) && forall|j: int|
            0 <= j < f ==> !self.tracks.contains((#[trigger] streams[j]).stream_index)
    }
}

/// The streams at the positions `from`, each once and in order.
pub open spec fn are_positions(from: Seq<int>, len: nat) -> bool {
    &&& forall|k: int| 0 <= k < from.len() ==> 0 <= #[trigger] from[k] < len
    &&& forall|k: int, l: int| 0 <= k < l < from.len() ==> from[k] < from[l]
}

proof fn lemma_accepts(r: Request, a: AudioView, m: AudioView)
    requires
        m == (AudioView { transcode_to: r.target(a), ..a }),
        r.codecs.len() > 0,
    ensures
        accepts(r.codecs, m) == (r.plays(a.codec_id) || (r.target(a) matches Some(id) && r.plays(
            id,
        ))),
{
    if accepts(r.codecs, m) {
        let k = choose|k: int|
            0 <= k < r.codecs.len() && (codec_of_name((#[trigger] r.codecs[k])@) matches Some(id)
                && (m.codec_id == id || m.transcode_to == Some(id)));
        let id = codec_of_name(r.codecs[k]@)->Some_0;
        assert(r.plays(id));
    }
    if r.plays(a.codec_id) {
        let k = choose|k: int|
            0 <= k < r.codecs.len() && codec_of_name((#[trigger] r.codecs[k])@) == Some(
                a.codec_id,
            );
        assert(codec_of_name(r.codecs[k]@) == Some(m.codec_id));
    }
    if let Some(id) = r.target(a) {
        if r.plays(id) {
            let k = choose|k: int|
                0 <= k < r.codecs.len() && codec_of_name((#[trigger] r.codecs[k])@) == Some(id);
            assert(codec_of_name(r.codecs[k]@) == m.transcode_to);
        }
    }
}

proof fn lemma_marked(r: Request, enabled: Seq<AudioView>)
    requires
        forall|i: int, j: int|
            0 <= i < j < enabled.len() ==> enabled[i].stream_index != enabled[j].stream_index,
    ensures
        forall|k: int|
            0 <= k < enabled.len() ==> #[trigger] marked(enabled, r.transcode)[k] == (AudioView {
                transcode_to: r.target(enabled[k]),
                ..enabled[k]
            }),
{
    assert forall|k: int| 0 <= k < enabled.len() implies #[trigger] marked(
        enabled,
        r.transcode,
    )[k] == (AudioView { transcode_to: r.target(enabled[k]), ..enabled[k] }) by {
        let p = |j: int| enabled[j].stream_index == enabled[k].stream_index;
        assert forall|j: int| 0 <= j < k implies !(#[trigger] p(j)) by {}
        lemma_first_index_none(k, p);
        assert(marked_at(enabled, k, r.transcode) == (AudioView {
            transcode_to: r.target(enabled[k]),
            ..enabled[k]
        }));
    }
}

/// The first positions of some, taken at other positions.
spec fn through(a: Seq<int>, b: Seq<int>) -> Seq<int> {
    Seq::new(b.len(), |k: int| a[b[k]])
}

/// The audio tracks of a main playlist are the streams that are asked for and that the player
/// plays, each once and in order, with what they are transcoded to. If there are none, and the
/// player plays AAC, they are the streams that are asked for in the codec of the first of them,
/// transcoded to AAC.
#[verifier::rlimit(60)]
pub proof fn law_audio_selection(streams: Seq<AudioView>, r: Request) -> (from: Seq<int>)
    requires
        forall|i: int, j: int|
            0 <= i < j < streams.len() ==> streams[i].stream_index != streams[j].stream_index,
    ensures
        ({
            let out = selected_audio(streams, r.tracks, r.transcode, r.codecs);
            let none = forall|i: int| 0 <= i < streams.len() ==> !r.fits(#[trigger] streams[i]);
            &&& from.len() == out.len()
            &&& are_positions(from, streams.len())
            &&& !(none && r.plays(Id::AAC)) ==> {
                &&& forall|i: int|
                    0 <= i < streams.len() ==> from.contains(i) == r.fits(#[trigger] streams[i])
                &&& forall|k: int|
                    0 <= k < out.len() ==> #[trigger] out[k] == (AudioView {
                        transcode_to: r.target(streams[from[k]]),
                        ..streams[from[k]]
                    })
            }
            &&& none && r.plays(Id::AAC) ==> {
                &&& forall|i: int|
                    0 <= i < streams.len() ==> from.contains(i) == #[trigger] r.is_like_first(
                        streams,
                        i,
                    )
                &&& forall|k: int|
                    0 <= k < out.len() ==> #[trigger] out[k] == (AudioView {
                        transcode_to: Some(Id::AAC),
                        ..streams[from[k]]
                    })
            }
        }),
{
    let out = selected_audio(streams, r.tracks, r.transcode, r.codecs);
    let enabled = enabled_audio(streams, r.tracks);
    let first = lemma_filter_is_choice(
        streams,
        |a: AudioView| r.tracks.contains(a.stream_index),
        |i: int| r.tracks.contains(streams[i].stream_index),
    );
    let is_enabled = |i: int| r.tracks.contains(streams[i].stream_index);
    assert(forall|i: int| 0 <= i < streams.len() ==> first.contains(i) == #[trigger] is_enabled(i));
    assert forall|i: int, j: int| 0 <= i < j < enabled.len() implies enabled[i].stream_index
        != enabled[j].stream_index by {
        assert(enabled[i] == streams[first[i]] && enabled[j] == streams[first[j]]);
    }
    lemma_marked(r, enabled);
    let all = marked(enabled, r.transcode);
    let left = supported(all, r.codecs);
    assert(names_aac(r.codecs) == r.plays(Id::AAC));
    // the supported ones
    let second = if r.codecs.len() == 0 {
        Seq::new(all.len(), |k: int| k)
    } else {
        lemma_filter_is_choice(
            all,
            |a: AudioView| accepts(r.codecs, a),
            |k: int| accepts(r.codecs, all[k]),
        )
    };
    let taken = through(first, second);
    assert(second.len() == left.len());
    assert forall|k: int| 0 <= k < second.len() implies 0 <= #[trigger] second[k] < all.len()
        && left[k] == all[second[k]] by {}
    assert forall|k: int| 0 <= k < taken.len() implies 0 <= #[trigger] taken[k] < streams.len() by {
        assert(0 <= second[k] < first.len());
        assert(enabled[second[k]] == streams[first[second[k]]]);
    }
    assert forall|k: int, l: int| 0 <= k < l < taken.len() implies taken[k] < taken[l] by {
        assert(second[k] < second[l]);
        assert(0 <= second[k] < first.len() && 0 <= second[l] < first.len());
    }
    assert forall|i: int| 0 <= i < streams.len() implies taken.contains(i) == r.fits(
        #[trigger] streams[i],
    ) by {
        assert(first.contains(i) == is_enabled(i));
        if first.contains(i) {
            let e = first.index_of(i);
            assert(enabled[e] == streams[i]);
            assert(all[e] == (AudioView { transcode_to: r.target(streams[i]), ..streams[i] }));
            if r.codecs.len() > 0 {
                lemma_accepts(r, streams[i], all[e]);
                let keeps = |k: int| accepts(r.codecs, all[k]);
                assert(second.contains(e) == keeps(e));
            } else {
                assert(second[e] == e);
            }
            if second.contains(e) {
                let k = second.index_of(e);
                assert(taken[k] == i);
            }
            if taken.contains(i) {
                let k = taken.index_of(i);
                assert(first[second[k]] == i);
                assert(second[k] == e) by {
                    let x = second[k];
                    assert(0 <= x < first.len());
                    if x < e {
                        assert(first[x] < first[e]);
                    } else if e < x {
                        assert(first[e] < first[x]);
                    }
                }
                assert(second[k] == e);
            }
        } else if taken.contains(i) {
            let k = taken.index_of(i);
            assert(0 <= second[k] < first.len());
            assert(first[second[k]] == i);
        }
    }
    let none = forall|i: int| 0 <= i < streams.len() ==> !r.fits(#[trigger] streams[i]);
    assert(none == (left.len() == 0)) by {
        if left.len() > 0 {
            let i = taken[0];
            assert(taken.contains(i));
            assert(r.fits(streams[i]));
        }
        if !none {
            let i = choose|i: int| 0 <= i < streams.len() && r.fits(#[trigger] streams[i]);
            assert(taken.contains(i));
        }
    }
    if none && r.plays(Id::AAC) {
        let same = |a: AudioView| a.codec_id == enabled[0].codec_id;
        let third = lemma_filter_is_choice(
            enabled,
            same,
            |k: int| enabled[k].codec_id == enabled[0].codec_id,
        );
        let p = |k: int| enabled[k].codec_id == enabled[0].codec_id;
        let like = through(first, third);
        assert(out == as_aac(enabled));
        let chosen = enabled.filter(|a: AudioView| a.codec_id == enabled[0].codec_id);
        assert(third.len() == chosen.len());
        assert forall|k: int| 0 <= k < out.len() implies #[trigger] out[k] == (AudioView {
            transcode_to: Some(Id::AAC),
            ..streams[like[k]]
        }) by {
            assert(0 <= third[k] < enabled.len() && chosen[k] == enabled[third[k]]);
            assert(enabled[third[k]] == streams[first[third[k]]]);
        }
        assert forall|k: int| 0 <= k < like.len() implies 0 <= #[trigger] like[k] < streams.len() by {
            assert(0 <= third[k] < first.len());
            assert(enabled[third[k]] == streams[first[third[k]]]);
        }
        assert forall|k: int, l: int| 0 <= k < l < like.len() implies like[k] < like[l] by {
            assert(third[k] < third[l]);
            assert(0 <= third[k] < first.len() && 0 <= third[l] < first.len());
        }
        assert forall|i: int| 0 <= i < streams.len() implies like.contains(i)
            == #[trigger] r.is_like_first(streams, i) by {
            assert(first.contains(i) == is_enabled(i));
            if enabled.len() > 0 {
                lemma_first(streams, r, first, enabled);
            }
            if first.contains(i) {
                let e = first.index_of(i);
                assert(enabled[e] == streams[i]);
                assert(third.contains(e) == p(e));
                assert(r.is_first(streams, first[0]));
                assert(first[0] <= i) by {
                    if e > 0 {
                        assert(first[0] < first[e]);
                    }
                }
                assert(r.is_like_first(streams, i) == (streams[first[0]].codec_id
                    == streams[i].codec_id)) by {
                    assert forall|f: int| 0 <= f <= i && #[trigger] r.is_first(streams, f) implies f
                        == first[0] by {
                        if f < first[0] {
                            assert(!r.tracks.contains(streams[f].stream_index));
                        } else if f > first[0] {
                            assert(!r.tracks.contains(streams[first[0]].stream_index));
                        }
                    }
                }
                assert(enabled[0] == streams[first[0]]);
                if third.contains(e) {
                    let k = third.index_of(e);
                    assert(like[k] == i);
                }
                if like.contains(i) {
                    let k = like.index_of(i);
                    let x = third[k];
                    assert(0 <= x < first.len());
                    assert(first[x] == i);
                    if x < e {
                        assert(first[x] < first[e]);
                    } else if e < x {
                        assert(first[e] < first[x]);
                    }
                    assert(third[k] == e);
                }
            } else if like.contains(i) {
                let k = like.index_of(i);
                assert(0 <= third[k] < first.len());
                assert(first[third[k]] == i);
            }
        }
        like
    } else {
        assert(out == left);
        assert forall|k: int| 0 <= k < out.len() implies #[trigger] out[k] == (AudioView {
            transcode_to: r.target(streams[taken[k]]),
            ..streams[taken[k]]
        }) by {
            assert(0 <= second[k] < all.len() && left[k] == all[second[k]]);
            assert(enabled[second[k]] == streams[first[second[k]]]);
        }
        taken
    }
}

proof fn lemma_first(
    streams: Seq<AudioView>,
    r: Request,
    first: Seq<int>,
    enabled: Seq<AudioView>,
)
    requires
        is_choice(
            streams,
            enabled,
            first,
            |i: int| r.tracks.contains(streams[i].stream_index),
        ),
        enabled.len() > 0,
    ensures
        r.is_first(streams, first[0]),
{
    let p = |i: int| r.tracks.contains(streams[i].stream_index);
    assert(first.contains(first[0]));
    assert(p(first[0]));
    assert forall|j: int| 0 <= j < first[0] implies !r.tracks.contains(
        (#[trigger] streams[j]).stream_index,
    ) by {
        if p(j) {
            assert(first.contains(j));
            let k = first.index_of(j);
            if k > 0 {
                assert(first[0] < first[k]);
            }
        }
    }
}

} // verus!
