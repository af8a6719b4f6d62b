//! What the cache of segments promises.

use vstd::prelude::*;
use crate::cache::{
    age_at, cache_key, evicted, freed_for, fresh_entry, inserted, is_enough, is_info, is_listing,
    is_part, kept_of, left_place, lemma_listing_complete,
    lemma_part_is_smaller, lemma_total_size_insert, lemma_total_size_remove, lemma_without_first,
    listed_size, made_memory, made_place, oldest_first, starts_with, total_size, touched, without_first,
    without_prefix, CacheView, EntryInfo, EntryView, Keep, SegmentCacheConfig,
};

verus! {

/// An eviction only takes entries out.
pub proof fn law_evicted_is_part(
    before: Map<Seq<char>, EntryView>,
    after: Map<Seq<char>, EntryView>,
    config: SegmentCacheConfig,
    needed: nat,
    now: u64,
)
    requires
        evicted(before, after, config, needed, now),
    ensures
        is_part(after, before),
{
    let fresh = kept_of(before, Keep::Fresh { now, ttl_secs: config.ttl_secs });
    assert(is_part(fresh, before));
    if total_size(fresh) + needed > config.limit() {
        let (list, n): (Seq<EntryInfo>, int) = choose|list: Seq<EntryInfo>, n: int|
            #![trigger without_first(fresh, list, n)]
            is_listing(list, fresh) && oldest_first(list) && is_enough(
                list,
                n,
                freed_for(config, total_size(fresh), needed),
            ) && after == without_first(fresh, list, n);
        lemma_without_first(fresh, list, n);
    }
}

/// A segment that was just kept is there, with its data, unless there may be none.
pub proof fn law_get_after_insert(
    before: CacheView,
    after: CacheView,
    key: Seq<char>,
    data: Seq<u8>,
    now: u64,
)
    requires
        inserted(before, after, key, data, now),
        before.config.max_segments > 0,
    ensures
        after.entries.dom().contains(key),
        after.entries[key] == fresh_entry(data, now),
{
}

/// Keeping a segment changes no other one: each is as it was, or gone.
pub proof fn law_insert_keeps_others(
    before: CacheView,
    after: CacheView,
    key: Seq<char>,
    data: Seq<u8>,
    now: u64,
    other: Seq<char>,
)
    requires
        inserted(before, after, key, data, now),
        other != key,
        after.entries.dom().contains(other),
    ensures
        before.entries.dom().contains(other),
        after.entries[other] == before.entries[other],
{
    if before.config.max_segments > 0 {
        let (a, b, c) = steps(before, after, key, data, now);
        lemma_steps_shrink(before, after, key, data, now);
        assert(c.entries.dom().contains(other));
    }
}

/// The states between the steps of an insertion.
spec fn steps(
    before: CacheView,
    after: CacheView,
    key: Seq<char>,
    data: Seq<u8>,
    now: u64,
) -> (CacheView, CacheView, CacheView) {
    choose|a: CacheView, b: CacheView, c: CacheView|
        {
            &&& #[trigger] made_memory(before, a, data.len(), now)
            &&& #[trigger] made_place(a, b, data.len(), now)
            &&& #[trigger] left_place(b, c, key)
            &&& after.entries == c.entries.insert(key, fresh_entry(data, now))
            &&& after.memory == total_size(after.entries)
            &&& after.config == before.config
        }
}

/// No step of an insertion but the last adds anything.
proof fn lemma_steps_shrink(
    before: CacheView,
    after: CacheView,
    key: Seq<char>,
    data: Seq<u8>,
    now: u64,
)
    requires
        inserted(before, after, key, data, now),
        before.config.max_segments > 0,
    ensures
        ({
            let (a, b, c) = steps(before, after, key, data, now);
            &&& made_memory(before, a, data.len(), now)
            &&& made_place(a, b, data.len(), now)
            &&& left_place(b, c, key)
            &&& after.entries == c.entries.insert(key, fresh_entry(data, now))
            &&& is_part(a.entries, before.entries)
            &&& is_part(b.entries, a.entries)
            &&& is_part(c.entries, b.entries)
            &&& is_part(c.entries, before.entries)
            &&& a.config == before.config
            &&& b.config == before.config
            &&& c.config == before.config
        }),
{
    let (a, b, c) = steps(before, after, key, data, now);
    if before.memory + data.len() > before.config.limit() {
        law_evicted_is_part(before.entries, a.entries, before.config, data.len(), now);
    }
    if a.entries.dom().len() >= a.config.max_segments {
        law_evicted_is_part(a.entries, b.entries, a.config, data.len(), now);
    }
    lemma_left_place(b, c, key);
    assert forall|k: Seq<char>| #[trigger] c.entries.dom().contains(k) implies
        before.entries.dom().contains(k) && c.entries[k] == before.entries[k] by {
        assert(b.entries.dom().contains(k));
        assert(a.entries.dom().contains(k));
    }
}

proof fn lemma_left_place(before: CacheView, after: CacheView, key: Seq<char>)
    requires
        left_place(before, after, key),
        before.config.max_segments > 0,
    ensures
        is_part(after.entries, before.entries),
        after.config == before.config,
        before.entries.dom().finite() && !before.entries.dom().contains(key)
            ==> after.entries.dom().len() < after.config.max_segments,
{
    let places = before.config.max_segments;
    let count = before.entries.dom().len();
    if !(before.entries.dom().contains(key) || count < places) {
        let list = choose|list: Seq<EntryInfo>|
            #![trigger without_first(before.entries, list, count - places + 1)]
            is_listing(list, before.entries) && oldest_first(list) && after.entries
                == without_first(before.entries, list, count - places + 1) && after.memory
                == total_size(after.entries) && after.config == before.config;
        lemma_without_first(before.entries, list, count - places + 1);
    }
}

/// Keeping a segment keeps the limits: there are no more segments than there may be, and they
/// hold no more bytes than there is memory for, unless there is only the new one. The
/// memory is counted exactly.
pub proof fn law_insert_keeps_limits(
    before: CacheView,
    after: CacheView,
    key: Seq<char>,
    data: Seq<u8>,
    now: u64,
)
    requires
        before.wf(),
        inserted(before, after, key, data, now),
    ensures
        after.entries.dom().finite(),
        after.entries.dom().len() <= after.config.max_segments,
        after.memory == total_size(after.entries),
        after.memory <= before.memory + data.len(),
        after.memory <= after.config.limit() || after.entries.dom() == set![key],
        after.config == before.config,
        after.entries.dom().len() <= 1 || after.memory <= after.config.limit(),
{
    if before.config.max_segments == 0 {
        vstd::set_lib::lemma_set_empty_equivalency_len(before.entries.dom());
    } else {
        let (a, b, c) = steps(before, after, key, data, now);
        lemma_steps_shrink(before, after, key, data, now);
        let limit = before.config.limit();
        lemma_part_is_smaller(a.entries, before.entries);
        if before.memory + data.len() > limit {
            law_eviction_frees(before.entries, a.entries, before.config, data.len(), now);
        }
        assert(total_size(a.entries) + data.len() <= limit || a.entries.dom().len() == 0);
        lemma_part_is_smaller(b.entries, a.entries);
        lemma_part_is_smaller(c.entries, b.entries);
        lemma_left_place(b, c, key);
        lemma_total_size_insert(c.entries, key, fresh_entry(data, now));
        assert(after.entries.dom() =~= c.entries.dom().insert(key));
        if b.entries.dom().contains(key) {
            assert(c == b);
            assert(after.entries.dom() =~= c.entries.dom());
        }
        if c.entries.dom().len() == 0 {
            assert(c.entries.dom() =~= Set::<Seq<char>>::empty());
            assert(after.entries.dom() =~= set![key]);
        }
    }
}

/// Where there is room, keeping a segment forgets no other one, and its bytes take the place
/// of those that it replaces.
pub proof fn law_insert_with_room(
    before: CacheView,
    after: CacheView,
    key: Seq<char>,
    data: Seq<u8>,
    now: u64,
)
    requires
        before.wf(),
        inserted(before, after, key, data, now),
        before.memory + data.len() <= before.config.limit(),
        before.entries.dom().len() < before.config.max_segments,
    ensures
        after.entries == before.entries.insert(key, fresh_entry(data, now)),
        after.memory == before.memory + data.len() - if before.entries.dom().contains(key) {
            before.entries[key].data.len() as int
        } else {
            0
        },
{
    lemma_total_size_insert(before.entries, key, fresh_entry(data, now));
    if before.entries.dom().contains(key) {
        lemma_total_size_remove(before.entries, key);
    } else {
        assert(before.entries.remove(key) =~= before.entries);
    }
}

/// Where all places are taken, those segments are forgotten that were not asked for the
/// longest, and no more than it takes.
pub proof fn law_full_count_takes_oldest(
    before: CacheView,
    after: CacheView,
    key: Seq<char>,
    gone: Seq<char>,
    left: Seq<char>,
)
    requires
        left_place(before, after, key),
        before.config.max_segments > 0,
        before.entries.dom().finite(),
        before.entries.dom().contains(gone),
        !after.entries.dom().contains(gone),
        after.entries.dom().contains(left),
    ensures
        before.entries[gone].last_accessed <= before.entries[left].last_accessed,
        after.entries.dom().len() + 1 == before.config.max_segments,
{
    let n = before.entries.dom().len() - before.config.max_segments + 1;
    let list = choose|list: Seq<EntryInfo>|
        #![trigger without_first(before.entries, list, n)]
        is_listing(list, before.entries) && oldest_first(list) && after.entries == without_first(
            before.entries,
            list,
            n,
        ) && after.memory == total_size(after.entries) && after.config == before.config;
    lemma_without_first(before.entries, list, n);
    lemma_takes_oldest(before.entries, list, n, gone, left);
}

/// An eviction leaves no entry that has outlived its time, and room for what is needed, or
/// nothing at all. Where there was too little room, half of the memory is freed.
pub proof fn law_eviction_frees(
    before: Map<Seq<char>, EntryView>,
    after: Map<Seq<char>, EntryView>,
    config: SegmentCacheConfig,
    needed: nat,
    now: u64,
)
    requires
        before.dom().finite(),
        evicted(before, after, config, needed, now),
    ensures
        forall|k: Seq<char>|
            after.dom().contains(k) ==> #[trigger] age_at(after[k].created_at, now)
                <= config.ttl_secs,
        total_size(after) + needed <= config.limit() || after.dom().len() == 0,
        ({
            let fresh = kept_of(before, Keep::Fresh { now, ttl_secs: config.ttl_secs });
            total_size(fresh) + needed > config.limit() ==> total_size(after) + config.limit() / 2
                <= total_size(fresh) || after.dom().len() == 0
        }),
{
    let fresh = kept_of(before, Keep::Fresh { now, ttl_secs: config.ttl_secs });
    assert(is_part(fresh, before));
    lemma_part_is_smaller(fresh, before);
    if total_size(fresh) + needed > config.limit() {
        let (list, n): (Seq<EntryInfo>, int) = choose|list: Seq<EntryInfo>, n: int|
            #![trigger without_first(fresh, list, n)]
            is_listing(list, fresh) && oldest_first(list) && is_enough(
                list,
                n,
                freed_for(config, total_size(fresh), needed),
            ) && after == without_first(fresh, list, n);
        lemma_without_first(fresh, list, n);
    }
    assert forall|k: Seq<char>| after.dom().contains(k) implies #[trigger] age_at(
        after[k].created_at,
        now,
    ) <= config.ttl_secs by {
        assert(fresh.dom().contains(k) && after[k] == fresh[k]);
    }
}

/// An eviction takes out no entry that was asked for later than one that it leaves, but for
/// those that have outlived their time.
pub proof fn law_eviction_takes_oldest(
    before: Map<Seq<char>, EntryView>,
    after: Map<Seq<char>, EntryView>,
    config: SegmentCacheConfig,
    needed: nat,
    now: u64,
    gone: Seq<char>,
    left: Seq<char>,
)
    requires
        evicted(before, after, config, needed, now),
        kept_of(before, Keep::Fresh { now, ttl_secs: config.ttl_secs }).dom().contains(gone),
        !after.dom().contains(gone),
        after.dom().contains(left),
    ensures
        before[gone].last_accessed <= before[left].last_accessed,
{
    let fresh = kept_of(before, Keep::Fresh { now, ttl_secs: config.ttl_secs });
    law_evicted_is_part(before, after, config, needed, now);
    let (list, n): (Seq<EntryInfo>, int) = choose|list: Seq<EntryInfo>, n: int|
        #![trigger without_first(fresh, list, n)]
        is_listing(list, fresh) && oldest_first(list) && is_enough(
            list,
            n,
            freed_for(config, total_size(fresh), needed),
        ) && after == without_first(fresh, list, n);
    lemma_without_first(fresh, list, n);
    lemma_takes_oldest(fresh, list, n, gone, left);
}

proof fn lemma_takes_oldest(
    m: Map<Seq<char>, EntryView>,
    list: Seq<EntryInfo>,
    n: int,
    gone: Seq<char>,
    left: Seq<char>,
)
    requires
        is_listing(list, m),
        oldest_first(list),
        0 <= n <= list.len(),
        m.dom().contains(gone),
        !without_first(m, list, n).dom().contains(gone),
        without_first(m, list, n).dom().contains(left),
    ensures
        m[gone].last_accessed <= m[left].last_accessed,
{
    lemma_without_first(m, list, n);
    lemma_listing_complete(list, m, gone);
    lemma_listing_complete(list, m, left);
    let i = choose|i: int| 0 <= i < list.len() && (#[trigger] list[i]).key@ == gone;
    let j = choose|j: int| 0 <= j < list.len() && (#[trigger] list[j]).key@ == left;
    if j < n {
        lemma_gone(m, list, n, j);
    }
    assert(is_info(list[i], m));
    assert(is_info(list[j], m));
    assert(i < n <= j);
}

proof fn lemma_gone(m: Map<Seq<char>, EntryView>, list: Seq<EntryInfo>, n: int, i: int)
    requires
        0 <= i < n,
    ensures
        !without_first(m, list, n).dom().contains(list[i].key@),
    decreases n,
{
    if i < n - 1 {
        lemma_gone(m, list, n - 1, i);
    }
}

/// A text without colons.
pub open spec fn is_colonless(s: Seq<char>) -> bool {
    forall|i: int| 0 <= i < s.len() ==> #[trigger] s[i] != ':'
}

/// Segments have different keys, if stream ids hold no colon.
pub proof fn law_keys_differ(
    a_stream: Seq<char>,
    a_segment: Seq<char>,
    b_stream: Seq<char>,
    b_segment: Seq<char>,
)
    requires
        is_colonless(a_stream),
        is_colonless(b_stream),
        cache_key(a_stream, a_segment) == cache_key(b_stream, b_segment),
    ensures
        a_stream == b_stream,
        a_segment == b_segment,
{
    reveal_strlit(":");
    let a = cache_key(a_stream, a_segment);
    let b = cache_key(b_stream, b_segment);
    assert(a[a_stream.len() as int] == ':');
    assert(b[b_stream.len() as int] == ':');
    if a_stream.len() < b_stream.len() {
        assert(b[a_stream.len() as int] == b_stream[a_stream.len() as int]);
    } else if b_stream.len() < a_stream.len() {
        assert(a[b_stream.len() as int] == a_stream[b_stream.len() as int]);
    }
    assert(a_stream =~= a.take(a_stream.len() as int));
    assert(b_stream =~= b.take(b_stream.len() as int));
    assert(a_segment =~= a.skip(a_stream.len() as int + 1));
    assert(b_segment =~= b.skip(b_stream.len() as int + 1));
}

/// Forgetting a stream forgets all of its segments.
pub proof fn law_removed_stream_is_gone(
    m: Map<Seq<char>, EntryView>,
    stream_id: Seq<char>,
    segment_key: Seq<char>,
)
    ensures
        !without_prefix(m, stream_id).dom().contains(cache_key(stream_id, segment_key)),
{
    let key = cache_key(stream_id, segment_key);
    assert(key.take(stream_id.len() as int) =~= stream_id);
}

/// Forgetting a stream keeps the segments of every stream whose id does not start with its
/// id.
pub proof fn law_removed_stream_keeps_others(
    m: Map<Seq<char>, EntryView>,
    stream_id: Seq<char>,
    other: Seq<char>,
    segment_key: Seq<char>,
)
    requires
        m.dom().contains(cache_key(other, segment_key)),
        !starts_with(cache_key(other, segment_key), stream_id),
    ensures
        without_prefix(m, stream_id).dom().contains(cache_key(other, segment_key)),
        without_prefix(m, stream_id)[cache_key(other, segment_key)] == m[cache_key(
            other,
            segment_key,
        )],
{
}

/// Asking for an entry changes nothing of it but when it was last asked for, which is now, and how
/// often it was.
pub proof fn law_access_is_noted(e: EntryView, now: u64)
    ensures
        touched(e, now).data == e.data,
        touched(e, now).created_at == e.created_at,
        touched(e, now).last_accessed == now,
        e.access_count < usize::MAX ==> touched(e, now).access_count == e.access_count + 1,
{
}

/// A new entry was made and asked for just now, once.
pub proof fn law_entry_is_fresh(data: Seq<u8>, now: u64)
    ensures
        fresh_entry(data, now).data == data,
        fresh_entry(data, now).created_at == now,
        fresh_entry(data, now).last_accessed == now,
        fresh_entry(data, now).access_count == 1,
        age_at(fresh_entry(data, now).created_at, now) == 0,
{
}

/// The age of an entry is the number of whole seconds since it was made.
pub proof fn law_age_in_seconds(created_at: u64, now: u64)
    ensures
        now <= created_at ==> age_at(created_at, now) == 0,
        now >= created_at ==> age_at(created_at, now) * 1_000_000_000 <= now - created_at < (age_at(
            created_at,
            now,
        ) + 1) * 1_000_000_000,
{
}

/// An eviction takes out no more than it has to. If what has not outlived its time leaves room for
/// what is needed, all of that stays. Otherwise, without the last one that goes, less than half of
/// the memory would be freed, or what is needed would not fit.
pub proof fn law_eviction_is_sparing(
    before: Map<Seq<char>, EntryView>,
    after: Map<Seq<char>, EntryView>,
    config: SegmentCacheConfig,
    needed: nat,
    now: u64,
)
    requires
        before.dom().finite(),
        evicted(before, after, config, needed, now),
    ensures
        ({
            let fresh = kept_of(before, Keep::Fresh { now, ttl_secs: config.ttl_secs });
            &&& forall|k: Seq<char>| #[trigger]
                fresh.dom().contains(k) == (before.dom().contains(k) && age_at(
                    before[k].created_at,
                    now,
                ) <= config.ttl_secs)
            &&& total_size(fresh) + needed <= config.limit() ==> after == fresh
            &&& total_size(fresh) + needed > config.limit() && after != fresh ==> exists|
                last: Seq<char>,
            |
                {
                    &&& #[trigger] fresh.dom().contains(last)
                    &&& !after.dom().contains(last)
                    &&& forall|k: Seq<char>|
                        fresh.dom().contains(k) && !(#[trigger] after.dom().contains(k))
                            ==> fresh[k].last_accessed <= fresh[last].last_accessed
                    &&& {
                        let others = total_size(fresh) - total_size(after)
                            - fresh[last].data.len();
                        others < config.limit() / 2 || total_size(fresh) - others + needed
                            > config.limit()
                    }
                }
        }),
{
    let fresh = kept_of(before, Keep::Fresh { now, ttl_secs: config.ttl_secs });
    assert(is_part(fresh, before));
    lemma_part_is_smaller(fresh, before);
    if total_size(fresh) + needed > config.limit() && after != fresh {
        let (list, n): (Seq<EntryInfo>, int) = choose|list: Seq<EntryInfo>, n: int|
            #![trigger without_first(fresh, list, n)]
            is_listing(list, fresh) && oldest_first(list) && is_enough(
                list,
                n,
                freed_for(config, total_size(fresh), needed),
            ) && after == without_first(fresh, list, n);
        assert(n > 0);
        let last = list[n - 1].key@;
        lemma_without_first(fresh, list, n);
        lemma_without_first(fresh, list, n - 1);
        lemma_gone(fresh, list, n, n - 1);
        assert(is_info(list[n - 1], fresh));
        assert(list.take(n).drop_last() =~= list.take(n - 1));
        assert(list.take(n).last() == list[n - 1]);
        assert(fresh.dom().contains(last));
        assert forall|k: Seq<char>|
            fresh.dom().contains(k) && !(#[trigger] after.dom().contains(k)) implies
            fresh[k].last_accessed <= fresh[last].last_accessed by {
            lemma_listing_complete(list, fresh, k);
            let i = choose|i: int| 0 <= i < list.len() && (#[trigger] list[i]).key@ == k;
            assert(i < n);
            assert(is_info(list[i], fresh));
            assert(list[i].last_accessed <= list[n - 1].last_accessed);
        }
        assert(listed_size(list.take(n - 1)) < freed_for(config, total_size(fresh), needed));
    }
}

} // verus!
