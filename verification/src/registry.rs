//! The media files that are open.

use std::sync::Arc;
use vstd::prelude::*;
use dashmap::DashMap;
use crate::cache::{starts_with, total_size, without_prefix, EntryView, SegmentCache};
use crate::media::StreamIndex;

verus! {

/// An open file and when it was last asked for.
#[derive(Debug)]
pub struct StreamEntry {
    pub index: Arc<StreamIndex>,
    /// In seconds since the Unix epoch.
    pub last_accessed: u64,
}

impl StreamEntry {
    /// A second handle on the file.
    pub fn share(&self) -> (e: StreamEntry)
        ensures
            e == *self,
    {
        StreamEntry { index: self.index.clone(), last_accessed: self.last_accessed }
    }
}

/// What is told of an open file.
#[derive(Debug, Clone)]
pub struct ActiveStreamInfo {
    pub stream_id: String,
    pub path: String,
    /// How long the media is, in microseconds.
    pub duration_us: u64,
}

/// What is told of an open file, as a value.
pub struct ActiveView {
    pub stream_id: Seq<char>,
    pub path: Seq<char>,
    pub duration_us: u64,
}

impl View for ActiveStreamInfo {
    type V = ActiveView;

    open spec fn view(&self) -> ActiveView {
        ActiveView { stream_id: self.stream_id@, path: self.path@, duration_us: self.duration_us }
    }
}

/// What is told of an open file.
pub open spec fn told_of(index: StreamIndex) -> ActiveView {
    ActiveView {
        stream_id: index.stream_id@,
        path: index.source_path@,
        duration_us: index.duration_us,
    }
}

/// An open file and the key that it stands under.
#[derive(Debug)]
pub struct StreamListing {
    pub key: String,
    pub last_accessed: u64,
    pub info: ActiveStreamInfo,
}

impl StreamEntry {
    /// What is told of the file under `key`.
    pub fn listing(&self, key: &String) -> (l: StreamListing)
        ensures
            l.key@ == key@,
            l.last_accessed == self.last_accessed,
            l.info@ == told_of(*self.index),
    {
        StreamListing {
            key: key.clone(),
            last_accessed: self.last_accessed,
            info: ActiveStreamInfo {
                stream_id: self.index.stream_id.clone(),
                path: self.index.source_path.clone(),
                duration_us: self.index.duration_us,
            },
        }
    }
}

/// The files in a map, by key.
pub uninterp spec fn streams_in(map: DashMap<String, StreamEntry>) -> Map<Seq<char>, StreamEntry>;

/// No files.
pub open spec fn no_streams() -> Map<Seq<char>, StreamEntry> {
    Map::empty()
}

/// `DashMap::new`: a map without files.
#[verifier::external_body]
fn new_streams() -> (map: DashMap<String, StreamEntry>)
    ensures
        streams_in(map) == no_streams(),
{
    DashMap::new()
}

/// `DashMap::get`: a handle on the file under a key.
#[verifier::external_body]
fn find_stream(map: &DashMap<String, StreamEntry>, key: &str) -> (found: Option<StreamEntry>)
    ensures
        match found {
            Some(e) => streams_in(*map).dom().contains(key@) && e == streams_in(*map)[key@],
            None => !streams_in(*map).dom().contains(key@),
        },
{
    map.get(key).map(|r| r.value().share())
}

/// `DashMap::insert`: puts a file under a key, in place of the one that may be there.
#[verifier::external_body]
fn put_stream(map: &mut DashMap<String, StreamEntry>, key: String, entry: StreamEntry)
    ensures
        streams_in(*final(map)) == streams_in(*old(map)).insert(key@, entry),
{
    map.insert(key, entry);
}

/// `DashMap::remove`: takes the file under a key out, and tells whether there was one.
#[verifier::external_body]
fn drop_stream(map: &mut DashMap<String, StreamEntry>, key: &str) -> (found: bool)
    ensures
        found == streams_in(*old(map)).dom().contains(key@),
        streams_in(*final(map)) == streams_in(*old(map)).remove(key@),
{
    map.remove(key).is_some()
}

/// `list` names every file of `m` once.
pub open spec fn lists_streams(list: Seq<StreamListing>, m: Map<Seq<char>, StreamEntry>) -> bool {
    &&& list.len() == m.dom().len()
    &&& m.dom().finite()
    &&& forall|i: int| 0 <= i < list.len() ==> is_listed(#[trigger] list[i], m)
    &&& forall|i: int, j: int| 0 <= i < j < list.len() ==> list[i].key@ != list[j].key@
}

/// `l` tells of a file of `m`.
pub open spec fn is_listed(l: StreamListing, m: Map<Seq<char>, StreamEntry>) -> bool {
    &&& m.dom().contains(l.key@)
    &&& l.last_accessed == m[l.key@].last_accessed
    &&& l.info@ == told_of(*m[l.key@].index)
}

/// `DashMap::iter`: names every file once, in no particular order.
#[verifier::external_body]
fn list_streams(map: &DashMap<String, StreamEntry>) -> (list: Vec<StreamListing>)
    ensures
        lists_streams(list@, streams_in(*map)),
{
    map.iter().map(|r| r.value().listing(r.key())).collect()
}

proof fn lemma_streams_complete(
    list: Seq<StreamListing>,
    m: Map<Seq<char>, StreamEntry>,
    k: Seq<char>,
)
    requires
        lists_streams(list, m),
        m.dom().contains(k),
    ensures
        exists|i: int| 0 <= i < list.len() && (#[trigger] list[i]).key@ == k,
    decreases list.len(),
{
    if list.len() == 0 {
        vstd::set_lib::lemma_set_empty_equivalency_len(m.dom());
    } else {
        let last = list[list.len() - 1];
        assert(is_listed(last, m));
        if last.key@ != k {
            let rest = list.drop_last();
            let n = m.remove(last.key@);
            assert forall|i: int| 0 <= i < rest.len() implies is_listed(#[trigger] rest[i], n) by {
                assert(is_listed(list[i], m));
                assert(list[i].key@ != last.key@);
            }
            assert(lists_streams(rest, n));
            lemma_streams_complete(rest, n, k);
            let i = choose|i: int| 0 <= i < rest.len() && (#[trigger] rest[i]).key@ == k;
            assert(list[i].key@ == k);
        }
    }
}

/// The files that are open, by stream id.
pub struct StreamRegistry {
    streams: DashMap<String, StreamEntry>,
}

impl View for StreamRegistry {
    type V = Map<Seq<char>, StreamEntry>;

    closed spec fn view(&self) -> Map<Seq<char>, StreamEntry> {
        streams_in(self.streams)
    }
}

/// How long a file stays open without being asked for, in seconds.
pub const STREAM_TIMEOUT_SECS: u64 = 600;

/// A file was not asked for in a long time.
pub open spec fn is_idle(e: StreamEntry, now: u64) -> bool {
    now - e.last_accessed > STREAM_TIMEOUT_SECS
}

/// The cache once the segments under a stream id are forgotten.
pub open spec fn is_cache_without(
    before: Option<SegmentCache>,
    after: Option<SegmentCache>,
    id: Seq<char>,
) -> bool {
    match before {
        None => after is None,
        Some(c) => after matches Some(d) && d@.wf() && d@.config == c@.config && d@.entries
            == without_prefix(c@.entries, id) && d@.memory == total_size(d@.entries),
    }
}

impl StreamRegistry {
    /// A registry without files.
    pub fn new() -> (r: Self)
        ensures
            r@ == no_streams(),
    {
        StreamRegistry { streams: new_streams() }
    }

    /// The open file with a stream id.
    pub fn get_stream_by_id(&self, stream_id: &str) -> (found: Option<Arc<StreamIndex>>)
        ensures
            match found {
                Some(index) => self@.dom().contains(stream_id@) && index
                    == self@[stream_id@].index,
                None => !self@.dom().contains(stream_id@),
            },
    {
        match find_stream(&self.streams, stream_id) {
            Some(e) => Some(e.index),
            None => None,
        }
    }

    /// The open file with a stream id, asked for at `now`.
    pub fn touch(&mut self, stream_id: &str, now: u64) -> (found: Option<Arc<StreamIndex>>)
        ensures
            match found {
                Some(index) => old(self)@.dom().contains(stream_id@) && index
                    == old(self)@[stream_id@].index && final(self)@ == old(self)@.insert(
                    stream_id@,
                    StreamEntry { index, last_accessed: now },
                ),
                None => !old(self)@.dom().contains(stream_id@) && final(self)@ == old(self)@,
            },
    {
        match find_stream(&self.streams, stream_id) {
            Some(e) => {
                let index: Arc<StreamIndex> = e.index.clone();
                put_stream(
                    &mut self.streams,
                    stream_id.to_owned(),
                    StreamEntry { index: e.index, last_accessed: now },
                );
                Some(index)
            },
            None => None,
        }
    }

    /// Takes an opened file in, under the stream id that was asked for or else its own.
    pub fn register(&mut self, index: StreamIndex, stream_id: Option<String>) -> (media: Arc<
        StreamIndex,
    >)
        ensures
            *media == (match stream_id {
                Some(id) => StreamIndex { stream_id: id, ..index },
                None => index,
            }),
            final(self)@ == old(self)@.insert(
                media.stream_id@,
                StreamEntry { index: media, last_accessed: index.last_accessed },
            ),
    {
        let mut index: StreamIndex = index;
        if let Some(id) = stream_id {
            index.stream_id = id;
        }
        let key: String = index.stream_id.clone();
        let last_accessed: u64 = index.last_accessed;
        let media: Arc<StreamIndex> = Arc::new(index);
        put_stream(&mut self.streams, key, StreamEntry { index: media.clone(), last_accessed });
        media
    }

    /// Closes the file with a stream id and forgets its segments; tells whether there was one.
    pub fn remove_stream_by_id(
        &mut self,
        cache: &mut Option<SegmentCache>,
        stream_id: &str,
    ) -> (found: bool)
        requires
            *old(cache) matches Some(c) ==> c@.wf(),
        ensures
            found == old(self)@.dom().contains(stream_id@),
            final(self)@ == old(self)@.remove(stream_id@),
            if found {
                is_cache_without(*old(cache), *final(cache), stream_id@)
            } else {
                *final(cache) == *old(cache)
            },
    {
        let found: bool = drop_stream(&mut self.streams, stream_id);
        if found {
            if let Some(c) = cache {
                c.remove_stream(stream_id);
            }
        }
        found
    }

    /// What is told of the open files, in no particular order.
    pub fn active_streams(&self) -> (list: Vec<ActiveStreamInfo>)
        ensures
            exists|keys: Seq<Seq<char>>|
                {
                    &&& #[trigger] keys.no_duplicates()
                    &&& keys.to_set() == self@.dom()
                    &&& list@.len() == keys.len()
                    &&& forall|i: int|
                        0 <= i < list@.len() ==> (#[trigger] list@[i])@ == told_of(
                            *self@[keys[i]].index,
                        )
                },
    {
        let all: Vec<StreamListing> = list_streams(&self.streams);
        let ghost m = self@;
        let ghost keys = Seq::new(all@.len(), |i: int| all@[i].key@);
        let mut list: Vec<ActiveStreamInfo> = Vec::new();
        let mut i: usize = 0;
        while i < all.len()
            invariant
                i <= all@.len(),
                lists_streams(all@, m),
                list@.len() == i,
                forall|j: int|
                    0 <= j < i ==> (#[trigger] list@[j])@ == told_of(*m[all@[j].key@].index),
            decreases all.len() - i,
        {
            assert(is_listed(all@[i as int], m));
            let info: &ActiveStreamInfo = &all[i].info;
            list.push(
                ActiveStreamInfo {
                    stream_id: info.stream_id.clone(),
                    path: info.path.clone(),
                    duration_us: info.duration_us,
                },
            );
            i += 1;
        }
        proof {
            assert forall|a: int, b: int| 0 <= a < keys.len() && 0 <= b < keys.len() && a
                != b implies keys[a] != keys[b] by {
                if a < b {
                    assert(all@[a].key@ != all@[b].key@);
                } else {
                    assert(all@[b].key@ != all@[a].key@);
                }
            }
            assert(keys.no_duplicates());
            assert forall|k: Seq<char>| keys.to_set().contains(k) == m.dom().contains(k) by {
                if keys.contains(k) {
                    let i = keys.index_of(k);
                    assert(is_listed(all@[i], m));
                }
                if m.dom().contains(k) {
                    lemma_streams_complete(all@, m, k);
                    let i = choose|i: int| 0 <= i < all@.len() && (#[trigger] all@[i]).key@ == k;
                    assert(keys[i] == k);
                }
            }
            assert(keys.to_set() =~= m.dom());
        }
        list
    }
}

/// The ids of the files that were not asked for in a long time.
pub open spec fn idle_ids(m: Map<Seq<char>, StreamEntry>, now: u64) -> Set<Seq<char>> {
    m.dom().filter(|k: Seq<char>| is_idle(m[k], now))
}

/// The entries of a cache whose key starts with none of some ids.
pub open spec fn without_any(
    m: Map<Seq<char>, EntryView>,
    ids: Set<Seq<char>>,
) -> Map<Seq<char>, EntryView> {
    m.restrict(
        m.dom().filter(
            |k: Seq<char>| forall|id: Seq<char>| ids.contains(id) ==> !starts_with(k, id),
        ),
    )
}

/// The cache once the segments under several stream ids are forgotten.
pub open spec fn is_cache_without_any(
    before: Option<SegmentCache>,
    after: Option<SegmentCache>,
    ids: Set<Seq<char>>,
) -> bool {
    match before {
        None => after is None,
        Some(c) => after matches Some(d) && d@.wf() && d@.config == c@.config && d@.entries
            == without_any(c@.entries, ids) && d@.memory == total_size(d@.entries),
    }
}

/// The ids among the first of a list.
spec fn ids_upto(list: Seq<StreamListing>, n: int, now: u64) -> Set<Seq<char>> {
    Set::new(
        |k: Seq<char>|
            exists|i: int|
                0 <= i < n && (#[trigger] list[i]).key@ == k && now - list[i].last_accessed
                    > STREAM_TIMEOUT_SECS,
    )
}

proof fn lemma_without_one_more(
    m: Map<Seq<char>, EntryView>,
    ids: Set<Seq<char>>,
    id: Seq<char>,
)
    ensures
        without_prefix(without_any(m, ids), id) == without_any(m, ids.insert(id)),
{
    let a = without_prefix(without_any(m, ids), id);
    let b = without_any(m, ids.insert(id));
    assert forall|k: Seq<char>| a.dom().contains(k) == b.dom().contains(k) by {
        if a.dom().contains(k) {
            assert forall|x: Seq<char>| ids.insert(id).contains(x) implies !starts_with(
                k,
                x,
            ) by {
                if x != id {
                    assert(ids.contains(x));
                }
            }
        }
        if b.dom().contains(k) {
            assert(ids.insert(id).contains(id));
            assert forall|x: Seq<char>| ids.contains(x) implies !starts_with(k, x) by {
                assert(ids.insert(id).contains(x));
            }
        }
    }
    assert(a =~= b);
}

impl StreamRegistry {
    /// Closes the files that were not asked for in a long time and forgets their segments;
    /// tells how many there were.
    pub fn cleanup_expired_streams(&mut self, cache: &mut Option<SegmentCache>, now: u64) -> (count:
        usize)
        requires
            *old(cache) matches Some(c) ==> c@.wf(),
        ensures
            count == idle_ids(old(self)@, now).len(),
            final(self)@ == old(self)@.remove_keys(idle_ids(old(self)@, now)),
            count == 0 ==> *final(cache) == *old(cache),
            count > 0 ==> is_cache_without_any(
                *old(cache),
                *final(cache),
                idle_ids(old(self)@, now),
            ),
    {
        let list: Vec<StreamListing> = list_streams(&self.streams);
        let ghost m = self@;
        let ghost start = *cache;
        let mut count: usize = 0;
        let mut i: usize = 0;
        proof {
            let none = ids_upto(list@, 0, now);
            assert(none =~= Set::<Seq<char>>::empty());
            assert(m.remove_keys(none) =~= m);
        }
        while i < list.len()
            invariant
                i <= list@.len(),
                count <= i,
                lists_streams(list@, m),
                m == old(self)@,
                start == *old(cache),
                start matches Some(c) ==> c@.wf(),
                *cache matches Some(c) ==> c@.wf(),
                ids_upto(list@, i as int, now).finite(),
                count == ids_upto(list@, i as int, now).len(),
                self@ == m.remove_keys(ids_upto(list@, i as int, now)),
                count == 0 ==> *cache == start,
                count > 0 ==> is_cache_without_any(
                    start,
                    *cache,
                    ids_upto(list@, i as int, now),
                ),
            decreases list.len() - i,
        {
            let l: &StreamListing = &list[i];
            let ghost before = ids_upto(list@, i as int, now);
            let ghost after = ids_upto(list@, i + 1, now);
            let ghost held = *cache;
            proof {
                assert(is_listed(list@[i as int], m));
                assert(!before.contains(l.key@)) by {
                    if before.contains(l.key@) {
                        let j = choose|j: int|
                            0 <= j < i && (#[trigger] list@[j]).key@ == l.key@ && now
                                - list@[j].last_accessed > STREAM_TIMEOUT_SECS;
                        assert(list@[j].key@ != list@[i as int].key@);
                    }
                }
                assert forall|k: Seq<char>|
                    after.contains(k) == (before.contains(k) || (k == l.key@ && now
                        - l.last_accessed > STREAM_TIMEOUT_SECS)) by {
                    if before.contains(k) {
                        let j = choose|j: int|
                            0 <= j < i && (#[trigger] list@[j]).key@ == k && now
                                - list@[j].last_accessed > STREAM_TIMEOUT_SECS;
                        assert(list@[j].key@ == k);
                    }
                }
            }
            if now >= l.last_accessed && now - l.last_accessed > STREAM_TIMEOUT_SECS {
                proof {
                    assert(after =~= before.insert(l.key@));
                }
                let found: bool = self.remove_stream_by_id(cache, l.key.as_str());
                count = count + 1;
                proof {
                    assert(m.remove_keys(before).remove(l.key@) =~= m.remove_keys(after));
                    if let Some(c) = start {
                        if count == 1 {
                            assert(before =~= Set::<Seq<char>>::empty()) by {
                                vstd::set_lib::lemma_set_empty_equivalency_len(before);
                            }
                            assert(without_any(c@.entries, before) =~= c@.entries);
                        }
                        lemma_without_one_more(c@.entries, before, l.key@);
                    }
                }
            } else {
                assert(after =~= before);
            }
            i += 1;
        }
        proof {
            let all = ids_upto(list@, list@.len() as int, now);
            assert forall|k: Seq<char>| all.contains(k) == idle_ids(m, now).contains(k) by {
                if all.contains(k) {
                    let j = choose|j: int|
                        0 <= j < list@.len() && (#[trigger] list@[j]).key@ == k && now
                            - list@[j].last_accessed > STREAM_TIMEOUT_SECS;
                    assert(is_listed(list@[j], m));
                }
                if idle_ids(m, now).contains(k) {
                    lemma_streams_complete(list@, m, k);
                    let j = choose|j: int| 0 <= j < list@.len() && (#[trigger] list@[j]).key@ == k;
                    assert(is_listed(list@[j], m));
                }
            }
            assert(all =~= idle_ids(m, now));
        }
        count
    }
}

/// A file is closed once it was not asked for in more than ten minutes, and not before.
pub proof fn law_idle_files(m: Map<Seq<char>, StreamEntry>, now: u64, id: Seq<char>)
    ensures
        idle_ids(m, now).contains(id) == (m.dom().contains(id) && now > m[id].last_accessed + 600),
        m.remove_keys(idle_ids(m, now)).dom().contains(id) == (m.dom().contains(id) && now
            <= m[id].last_accessed + 600),
{
}

/// With files that are closed go the segments whose key starts with the id of one of them, and no
/// others; what stays is left as it was.
pub proof fn law_segments_go_with_files(
    m: Map<Seq<char>, EntryView>,
    ids: Set<Seq<char>>,
    key: Seq<char>,
)
    requires
        m.dom().contains(key),
    ensures
        without_any(m, ids).dom().contains(key) == !(exists|id: Seq<char>| #[trigger]
            ids.contains(id) && id.len() <= key.len() && key.take(id.len() as int) == id),
        without_any(m, ids).dom().contains(key) ==> without_any(m, ids)[key] == m[key],
{
    assert forall|id: Seq<char>| #[trigger] starts_with(key, id) == (id.len() <= key.len()
        && key.take(id.len() as int) == id) by {
        assert(id.len() <= key.len() ==> key.subrange(0, id.len() as int) =~= key.take(
            id.len() as int,
        ));
    }
    if without_any(m, ids).dom().contains(key) {
        assert forall|id: Seq<char>| #[trigger] ids.contains(id) implies !(id.len() <= key.len()
            && key.take(id.len() as int) == id) by {
            assert(!starts_with(key, id));
        }
    } else {
        let id = choose|id: Seq<char>| ids.contains(id) && starts_with(key, id);
        assert(ids.contains(id) && starts_with(key, id));
    }
}

} // verus!
