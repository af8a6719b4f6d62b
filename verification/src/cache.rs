//! Made segments, kept for a while.

use vstd::prelude::*;
use dashmap::DashMap;
use crate::cache_laws::law_insert_keeps_limits;
use crate::clock::unix_nanos;
use crate::shared_bytes::{bytes_in, shared_len};
use crate::text::{chars_of, is_at};

verus! {

/// `dashmap::DashMap`: a hash map.
#[verifier::external_type_specification]
#[verifier::external_body]
#[verifier::reject_recursive_types(K)]
#[verifier::reject_recursive_types(V)]
#[verifier::reject_recursive_types(S)]
pub struct ExDashMap<K, V, S>(DashMap<K, V, S>);

/// How much is kept, and for how long.
#[derive(Debug, Clone, Copy, PartialEq, Eq)]
pub struct SegmentCacheConfig {
    /// The most memory for segments, in megabytes.
    pub max_memory_mb: usize,
    /// The most segments.
    pub max_segments: usize,
    /// How long a segment is kept, in seconds.
    pub ttl_secs: u64,
    /// How many segments are made ahead.
    pub lookahead: usize,
}

impl Default for SegmentCacheConfig {
    fn default() -> (config: Self)
        ensures
            config == (SegmentCacheConfig {
                max_memory_mb: 512,
                max_segments: 100,
                ttl_secs: 300,
                lookahead: 0,
            }),
    {
        SegmentCacheConfig { max_memory_mb: 512, max_segments: 100, ttl_secs: 300, lookahead: 0 }
    }
}

impl SegmentCacheConfig {
    /// The memory for segments, in bytes.
    pub open spec fn limit(self) -> nat {
        self.max_memory_mb as nat * 1024 * 1024
    }

    /// The memory for segments, in bytes.
    pub fn max_memory_bytes(&self) -> (bytes: usize)
        requires
            self.limit() <= usize::MAX,
        ensures
            bytes == self.limit(),
    {
        self.max_memory_mb * 1024 * 1024
    }
}

/// A kept segment.
#[derive(Debug, Clone)]
pub struct CacheEntry {
    pub data: bytes::Bytes,
    /// When it was made, in nanoseconds since the Unix epoch.
    pub created_at: u64,
    /// When it was last asked for, in nanoseconds since the Unix epoch.
    pub last_accessed: u64,
    pub access_count: usize,
}

/// A kept segment as a value.
pub struct EntryView {
    pub data: Seq<u8>,
    pub created_at: u64,
    pub last_accessed: u64,
    pub access_count: usize,
}

impl View for CacheEntry {
    type V = EntryView;

    open spec fn view(&self) -> EntryView {
        EntryView {
            data: bytes_in(self.data),
            created_at: self.created_at,
            last_accessed: self.last_accessed,
            access_count: self.access_count,
        }
    }
}

/// How long ago an entry was made, in seconds; 0 if the clock went back.
pub open spec fn age_at(created_at: u64, now: u64) -> u64 {
    if now < created_at {
        0
    } else {
        ((now - created_at) / 1_000_000_000) as u64
    }
}

/// An entry as it is after it was asked for.
pub open spec fn touched(e: EntryView, now: u64) -> EntryView {
    EntryView {
        last_accessed: now,
        access_count: if e.access_count == usize::MAX {
            0
        } else {
            (e.access_count + 1) as usize
        },
        ..e
    }
}

/// A new entry.
pub open spec fn fresh_entry(data: Seq<u8>, now: u64) -> EntryView {
    EntryView { data, created_at: now, last_accessed: now, access_count: 1 }
}

impl CacheEntry {
    /// A new entry, made at `now`.
    pub fn new_at(data: bytes::Bytes, now: u64) -> (e: Self)
        ensures
            e@ == fresh_entry(bytes_in(data), now),
    {
        CacheEntry { data, created_at: now, last_accessed: now, access_count: 1 }
    }

    /// A new entry.
    pub fn new(data: bytes::Bytes) -> (e: Self)
        ensures
            exists|now: u64| e@ == #[trigger] fresh_entry(bytes_in(data), now),
    {
        let now: u64 = unix_nanos();
        let e = CacheEntry::new_at(data, now);
        assert(e@ == fresh_entry(bytes_in(data), now));
        e
    }

    /// Takes note that the entry was asked for at `now`.
    pub fn touch_at(&mut self, now: u64)
        ensures
            final(self)@ == touched(old(self)@, now),
    {
        self.last_accessed = now;
        self.access_count = self.access_count.wrapping_add(1);
    }

    /// Takes note that the entry was asked for.
    pub fn touch(&mut self)
        ensures
            exists|now: u64| final(self)@ == #[trigger] touched(old(self)@, now),
    {
        let now: u64 = unix_nanos();
        self.touch_at(now);
        assert(self@ == touched(old(self)@, now));
    }

    /// How old the entry is at `now`, in seconds.
    pub fn age_secs_at(&self, now: u64) -> (age: u64)
        ensures
            age == age_at(self.created_at, now),
    {
        if now < self.created_at {
            0
        } else {
            (now - self.created_at) / 1_000_000_000
        }
    }

    /// How old the entry is, in seconds.
    pub fn age_secs(&self) -> (age: u64)
        ensures
            exists|now: u64| age == #[trigger] age_at(self.created_at, now),
    {
        let now: u64 = unix_nanos();
        self.age_secs_at(now)
    }

    /// Whether the entry has outlived `ttl_secs` at `now`.
    pub fn is_expired_at(&self, now: u64, ttl_secs: u64) -> (expired: bool)
        ensures
            expired == (age_at(self.created_at, now) > ttl_secs),
    {
        self.age_secs_at(now) > ttl_secs
    }

    /// Whether the entry has outlived `ttl_secs`.
    pub fn is_expired(&self, ttl_secs: u64) -> (expired: bool)
        ensures
            exists|now: u64| expired == (#[trigger] age_at(self.created_at, now) > ttl_secs),
    {
        let now: u64 = unix_nanos();
        self.is_expired_at(now, ttl_secs)
    }

    /// Asks for the entry: takes note of it, and hands out its data.
    pub fn access(&mut self, now: u64) -> (data: bytes::Bytes)
        ensures
            final(self)@ == touched(old(self)@, now),
            bytes_in(data) == old(self)@.data,
    {
        self.touch_at(now);
        self.data.clone()
    }

    /// What eviction needs to know of the entry under `key`.
    pub fn summary(&self, key: &String) -> (s: EntryInfo)
        ensures
            s.key@ == key@,
            s.created_at == self.created_at,
            s.last_accessed == self.last_accessed,
            s.size == self@.data.len(),
    {
        EntryInfo {
            key: key.clone(),
            created_at: self.created_at,
            last_accessed: self.last_accessed,
            size: shared_len(&self.data),
        }
    }
}

/// An entry without its data.
#[derive(Debug, Clone)]
pub struct EntryInfo {
    pub key: String,
    pub created_at: u64,
    pub last_accessed: u64,
    /// The number of bytes.
    pub size: usize,
}

/// Which entries are kept.
#[derive(Debug, Clone)]
pub enum Keep {
    /// Those that have not outlived a time.
    Fresh { now: u64, ttl_secs: u64 },
    /// Those whose key does not start with a text.
    Others { prefix: String },
}

/// `s` starts with `prefix`.
pub open spec fn starts_with(s: Seq<char>, prefix: Seq<char>) -> bool {
    prefix.len() <= s.len() && s.take(prefix.len() as int) == prefix
}

/// An entry is kept.
pub open spec fn keeps(keep: Keep, key: Seq<char>, e: EntryView) -> bool {
    match keep {
        Keep::Fresh { now, ttl_secs } => age_at(e.created_at, now) <= ttl_secs,
        Keep::Others { prefix } => !starts_with(key, prefix@),
    }
}

fn is_prefix(s: &str, prefix: &str) -> (b: bool)
    ensures
        b == starts_with(s@, prefix@),
{
    let text: Vec<char> = chars_of(s);
    let p: Vec<char> = chars_of(prefix);
    proof {
        if prefix@.len() <= s@.len() {
            assert(s@.subrange(0, prefix@.len() as int) =~= s@.take(prefix@.len() as int));
        }
    }
    is_at(text.as_slice(), p.as_slice(), 0)
}

impl Keep {
    /// Whether the entry under `key` is kept.
    pub fn test(&self, key: &String, e: &CacheEntry) -> (kept: bool)
        ensures
            kept == keeps(*self, key@, e@),
    {
        match self {
            Keep::Fresh { now, ttl_secs } => !e.is_expired_at(*now, *ttl_secs),
            Keep::Others { prefix } => !is_prefix(key.as_str(), prefix.as_str()),
        }
    }
}

/// The entries in a map, by key.
pub uninterp spec fn entries_in(map: DashMap<String, CacheEntry>) -> Map<Seq<char>, EntryView>;

/// No entries.
pub open spec fn no_entries() -> Map<Seq<char>, EntryView> {
    Map::empty()
}

/// `DashMap::new`: a map without entries.
#[verifier::external_body]
fn new_entries() -> (map: DashMap<String, CacheEntry>)
    ensures
        entries_in(map) == no_entries(),
{
    DashMap::new()
}

/// `DashMap::get_mut` and an access to what it finds: hands out the data under a key, and
/// leaves the entry touched.
#[verifier::external_body]
fn access_entry(map: &mut DashMap<String, CacheEntry>, key: &str, now: u64) -> (data: Option<
    bytes::Bytes,
>)
    ensures
        match data {
            Some(b) => entries_in(*old(map)).dom().contains(key@) && bytes_in(b) == entries_in(
                *old(map),
            )[key@].data && entries_in(*final(map)) == entries_in(*old(map)).insert(
                key@,
                touched(entries_in(*old(map))[key@], now),
            ),
            None => !entries_in(*old(map)).dom().contains(key@) && entries_in(*final(map))
                == entries_in(*old(map)),
        },
{
    map.get_mut(key).map(|mut e| e.access(now))
}

/// `DashMap::contains_key`: whether there is an entry under a key.
#[verifier::external_body]
fn has_entry(map: &DashMap<String, CacheEntry>, key: &str) -> (found: bool)
    ensures
        found == entries_in(*map).dom().contains(key@),
{
    map.contains_key(key)
}

/// `DashMap::insert`: puts an entry under a key, and hands out the one that was there.
#[verifier::external_body]
fn put_entry(map: &mut DashMap<String, CacheEntry>, key: String, entry: CacheEntry) -> (replaced:
    Option<CacheEntry>)
    ensures
        entries_in(*final(map)) == entries_in(*old(map)).insert(key@, entry@),
        match replaced {
            Some(e) => entries_in(*old(map)).dom().contains(key@) && e@ == entries_in(
                *old(map),
            )[key@],
            None => !entries_in(*old(map)).dom().contains(key@),
        },
{
    map.insert(key, entry)
}

/// `DashMap::remove`: takes the entry under a key out, and tells whether there was one.
#[verifier::external_body]
fn drop_entry(map: &mut DashMap<String, CacheEntry>, key: &str) -> (found: bool)
    ensures
        found == entries_in(*old(map)).dom().contains(key@),
        entries_in(*final(map)) == entries_in(*old(map)).remove(key@),
{
    map.remove(key).is_some()
}

/// `DashMap::len`: the number of entries.
#[verifier::external_body]
fn entry_count(map: &DashMap<String, CacheEntry>) -> (n: usize)
    ensures
        n == entries_in(*map).dom().len(),
{
    map.len()
}

/// `DashMap::retain`: takes out the entries for which the test fails.
#[verifier::external_body]
fn retain_entries(map: &mut DashMap<String, CacheEntry>, keep: &Keep)
    ensures
        entries_in(*final(map)) == kept_of(entries_in(*old(map)), *keep),
{
    map.retain(|key, entry| keep.test(key, entry));
}

/// The entries that are kept.
pub open spec fn kept_of(m: Map<Seq<char>, EntryView>, keep: Keep) -> Map<Seq<char>, EntryView> {
    m.restrict(m.dom().filter(|k: Seq<char>| keeps(keep, k, m[k])))
}

/// `list` names every entry of `m` once.
pub open spec fn is_listing(list: Seq<EntryInfo>, m: Map<Seq<char>, EntryView>) -> bool {
    &&& list.len() == m.dom().len()
    &&& m.dom().finite()
    &&& forall|i: int| 0 <= i < list.len() ==> is_info(#[trigger] list[i], m)
    &&& forall|i: int, j: int| 0 <= i < j < list.len() ==> list[i].key@ != list[j].key@
}

/// `info` tells of an entry of `m`.
pub open spec fn is_info(info: EntryInfo, m: Map<Seq<char>, EntryView>) -> bool {
    &&& m.dom().contains(info.key@)
    &&& info.created_at == m[info.key@].created_at
    &&& info.last_accessed == m[info.key@].last_accessed
    &&& info.size == m[info.key@].data.len()
}

/// `DashMap::iter`: names every entry once, in no particular order.
#[verifier::external_body]
fn list_entries(map: &DashMap<String, CacheEntry>) -> (list: Vec<EntryInfo>)
    ensures
        is_listing(list@, entries_in(*map)),
{
    map.iter().map(|r| r.value().summary(r.key())).collect()
}

/// The bytes in all entries together.
pub open spec fn total_size(m: Map<Seq<char>, EntryView>) -> nat
    decreases m.dom().len(),
{
    if m.dom().finite() && m.dom().len() > 0 {
        let k = m.dom().choose();
        if m.dom().contains(k) {
            m[k].data.len() + total_size(m.remove(k))
        } else {
            0
        }
    } else {
        0
    }
}

/// Any one entry can be counted first.
pub proof fn lemma_total_size_remove(m: Map<Seq<char>, EntryView>, k: Seq<char>)
    requires
        m.dom().finite(),
        m.dom().contains(k),
    ensures
        total_size(m) == m[k].data.len() + total_size(m.remove(k)),
    decreases m.dom().len(),
{
    assert(m.dom().len() > 0);
    let c = m.dom().choose();
    assert(m.dom().contains(c));
    if c != k {
        let without_c = m.remove(c);
        let without_k = m.remove(k);
        lemma_total_size_remove(without_c, k);
        lemma_total_size_remove(without_k, c);
        assert(without_c.remove(k) =~= without_k.remove(c));
    }
}

/// The size of a new entry is added, that of the one in its place taken off.
pub proof fn lemma_total_size_insert(m: Map<Seq<char>, EntryView>, k: Seq<char>, e: EntryView)
    requires
        m.dom().finite(),
    ensures
        total_size(m.insert(k, e)) == e.data.len() + total_size(m.remove(k)),
        total_size(m.remove(k)) <= total_size(m),
{
    let n = m.insert(k, e);
    lemma_total_size_remove(n, k);
    assert(n.remove(k) =~= m.remove(k));
    if m.dom().contains(k) {
        lemma_total_size_remove(m, k);
    } else {
        assert(m.remove(k) =~= m);
    }
}

/// Fewer entries hold no more bytes.
proof fn lemma_total_size_restrict(m: Map<Seq<char>, EntryView>, keys: Set<Seq<char>>)
    requires
        m.dom().finite(),
    ensures
        total_size(m.restrict(keys)) <= total_size(m),
        m.restrict(keys).dom().finite(),
    decreases m.dom().len(),
{
    assert(m.restrict(keys).dom() =~= m.dom().intersect(keys));
    if m.dom().subset_of(keys) {
        assert(m.restrict(keys) =~= m);
    } else {
        let k = choose|k: Seq<char>| m.dom().contains(k) && !keys.contains(k);
        lemma_total_size_remove(m, k);
        lemma_total_size_restrict(m.remove(k), keys);
        assert(m.remove(k).restrict(keys) =~= m.restrict(keys));
    }
}

/// Every entry of `part` is an entry of `whole`.
pub open spec fn is_part(
    part: Map<Seq<char>, EntryView>,
    whole: Map<Seq<char>, EntryView>,
) -> bool {
    forall|k: Seq<char>| #[trigger]
        part.dom().contains(k) ==> whole.dom().contains(k) && part[k] == whole[k]
}

/// A part has no more entries and holds no more bytes.
pub proof fn lemma_part_is_smaller(
    part: Map<Seq<char>, EntryView>,
    whole: Map<Seq<char>, EntryView>,
)
    requires
        whole.dom().finite(),
        is_part(part, whole),
    ensures
        part.dom().finite(),
        part.dom().len() <= whole.dom().len(),
        total_size(part) <= total_size(whole),
{
    assert(part.dom().subset_of(whole.dom()));
    assert(part =~= whole.restrict(part.dom()));
    lemma_total_size_restrict(whole, part.dom());
    vstd::set_lib::lemma_len_subset(part.dom(), whole.dom());
}

/// The bytes in the entries of a list.
pub open spec fn listed_size(list: Seq<EntryInfo>) -> nat
    decreases list.len(),
{
    if list.len() == 0 {
        0
    } else {
        listed_size(list.drop_last()) + list.last().size as nat
    }
}

/// A list of all entries has the size of the entries, and a shorter list no more.
proof fn lemma_listed_size(list: Seq<EntryInfo>, m: Map<Seq<char>, EntryView>)
    requires
        is_listing(list, m),
    ensures
        listed_size(list) == total_size(m),
    decreases list.len(),
{
    if list.len() > 0 {
        let k = list.last().key@;
        let rest = list.drop_last();
        let n = m.remove(k);
        assert(is_info(list[list.len() - 1], m));
        lemma_total_size_remove(m, k);
        assert forall|i: int| 0 <= i < rest.len() implies is_info(#[trigger] rest[i], n) by {
            assert(is_info(list[i], m));
            assert(list[i].key@ != list[list.len() - 1].key@);
        }
        assert(is_listing(rest, n));
        lemma_listed_size(rest, n);
    }
}

proof fn lemma_listed_size_grows(list: Seq<EntryInfo>, n: int)
    requires
        0 <= n <= list.len(),
    ensures
        listed_size(list.take(n)) <= listed_size(list),
    decreases list.len(),
{
    if n < list.len() {
        lemma_listed_size_grows(list.drop_last(), n);
        assert(list.drop_last().take(n) =~= list.take(n));
    } else {
        assert(list.take(n) =~= list);
    }
}

fn sum_sizes(list: &Vec<EntryInfo>) -> (sum: usize)
    requires
        listed_size(list@) <= usize::MAX,
    ensures
        sum == listed_size(list@),
{
    let mut sum: usize = 0;
    let mut i: usize = 0;
    while i < list.len()
        invariant
            i <= list@.len(),
            listed_size(list@) <= usize::MAX,
            sum == listed_size(list@.take(i as int)),
        decreases list.len() - i,
    {
        proof {
            assert(list@.take(i + 1).drop_last() =~= list@.take(i as int));
            lemma_listed_size_grows(list@, i + 1);
        }
        sum = sum + list[i].size;
        i += 1;
    }
    assert(list@.take(list@.len() as int) =~= list@);
    sum
}

/// No entry of a list was asked for before the one in front of it.
pub open spec fn oldest_first(list: Seq<EntryInfo>) -> bool {
    forall|i: int, j: int|
        0 <= i <= j < list.len() ==> list[i].last_accessed <= list[j].last_accessed
}

proof fn lemma_insert_listing(
    done: Seq<EntryInfo>,
    x: EntryInfo,
    pos: int,
    m: Map<Seq<char>, EntryView>,
)
    requires
        is_listing(done, m.remove(x.key@)),
        is_info(x, m),
        m.dom().finite(),
        oldest_first(done),
        0 <= pos <= done.len(),
        forall|k: int|
            pos <= k < done.len() ==> (#[trigger] done[k]).last_accessed > x.last_accessed,
        pos > 0 ==> done[pos - 1].last_accessed <= x.last_accessed,
    ensures
        is_listing(done.insert(pos, x), m),
        oldest_first(done.insert(pos, x)),
{
    let out = done.insert(pos, x);
    assert forall|i: int| 0 <= i < out.len() implies is_info(#[trigger] out[i], m) by {
        if i < pos {
            assert(is_info(done[i], m.remove(x.key@)));
        } else if i > pos {
            assert(is_info(done[i - 1], m.remove(x.key@)));
        }
    }
    assert forall|i: int, j: int| 0 <= i < j < out.len() implies out[i].key@ != out[j].key@ by {
        let a = if i < pos {
            i
        } else {
            i - 1
        };
        let b = if j < pos {
            j
        } else {
            j - 1
        };
        if i == pos {
            assert(is_info(done[b], m.remove(x.key@)));
        } else if j == pos {
            assert(is_info(done[a], m.remove(x.key@)));
        } else {
            assert(done[a].key@ != done[b].key@);
        }
    }
    assert forall|i: int, j: int| 0 <= i <= j < out.len() implies out[i].last_accessed
        <= out[j].last_accessed by {
        if i < pos {
            assert(done[i].last_accessed <= done[pos - 1].last_accessed);
        }
    }
}

fn sort_oldest_first(list: Vec<EntryInfo>, Ghost(m): Ghost<Map<Seq<char>, EntryView>>) -> (done:
    Vec<EntryInfo>)
    requires
        is_listing(list@, m),
    ensures
        is_listing(done@, m),
        oldest_first(done@),
{
    let mut list: Vec<EntryInfo> = list;
    let mut done: Vec<EntryInfo> = Vec::new();
    let ghost mut rest = m;
    proof {
        let none = m.remove_keys(m.dom());
        assert(none.dom() =~= Set::<Seq<char>>::empty());
        assert(is_listing(done@, none));
    }
    while list.len() > 0
        invariant
            m.dom().finite(),
            rest.submap_of(m),
            is_listing(list@, rest),
            is_listing(done@, m.remove_keys(rest.dom())),
            oldest_first(done@),
        decreases list.len(),
    {
        let ghost before = list@;
        let x: EntryInfo = match list.pop() {
            Some(x) => x,
            None => {
                return done;
            },
        };
        let ghost k = x.key@;
        let ghost left = rest.remove(k);
        let ghost gathered = m.remove_keys(left.dom());
        proof {
            assert(before.last() == x);
            assert(is_info(before[before.len() - 1], rest));
            assert forall|i: int| 0 <= i < list@.len() implies is_info(
                #[trigger] list@[i],
                left,
            ) by {
                assert(list@[i] == before[i]);
                assert(is_info(before[i], rest));
                assert(before[i].key@ != before[before.len() - 1].key@);
            }
            assert forall|i: int, j: int| 0 <= i < j < list@.len() implies list@[i].key@
                != list@[j].key@ by {
                assert(before[i].key@ != before[j].key@);
            }
            assert(is_listing(list@, left));
            assert(gathered.remove(k) =~= m.remove_keys(rest.dom()));
            assert(gathered.dom().finite()) by {
                assert(gathered.dom().subset_of(m.dom()));
                vstd::set_lib::lemma_len_subset(gathered.dom(), m.dom());
            }
            assert(is_info(x, gathered));
        }
        let mut pos: usize = done.len();
        while pos > 0 && done[pos - 1].last_accessed > x.last_accessed
            invariant
                pos <= done@.len(),
                oldest_first(done@),
                forall|j: int|
                    pos <= j < done@.len() ==> (#[trigger] done@[j]).last_accessed
                        > x.last_accessed,
            decreases pos,
        {
            pos -= 1;
        }
        proof {
            lemma_insert_listing(done@, x, pos as int, gathered);
            rest = left;
        }
        done.insert(pos, x);
    }
    proof {
        assert(rest.dom() =~= Set::<Seq<char>>::empty()) by {
            vstd::set_lib::lemma_set_empty_equivalency_len(rest.dom());
        }
        assert(m.remove_keys(rest.dom()) =~= m);
    }
    done
}

/// `m` without the first `n` entries of a list.
pub open spec fn without_first(
    m: Map<Seq<char>, EntryView>,
    list: Seq<EntryInfo>,
    n: int,
) -> Map<Seq<char>, EntryView>
    decreases n,
{
    if n <= 0 {
        m
    } else {
        without_first(m, list, n - 1).remove(list[n - 1].key@)
    }
}

/// `n` is the least number of entries from the front of a list that hold `target` bytes; all
/// of them if they hold less.
pub open spec fn is_enough(list: Seq<EntryInfo>, n: int, target: nat) -> bool {
    &&& 0 <= n <= list.len()
    &&& n == list.len() || listed_size(list.take(n)) >= target
    &&& forall|k: int| 0 <= k < n ==> listed_size(#[trigger] list.take(k)) < target
}

/// How many bytes of the `used` ones are freed for `needed` more: half of the memory, or what
/// they are short of if that is more.
pub open spec fn freed_for(config: SegmentCacheConfig, used: nat, needed: nat) -> nat {
    if used + needed - config.limit() > config.limit() / 2 {
        (used + needed - config.limit()) as nat
    } else {
        config.limit() / 2
    }
}

/// The entries left by an eviction. Those that have outlived their time go. If the others and
/// `needed` bytes are more than there is memory for, those go that were not asked for the
/// longest, until half of the memory is freed and the needed bytes fit. Which of two entries
/// with one access time goes first is open.
pub open spec fn evicted(
    before: Map<Seq<char>, EntryView>,
    after: Map<Seq<char>, EntryView>,
    config: SegmentCacheConfig,
    needed: nat,
    now: u64,
) -> bool {
    let fresh = kept_of(before, Keep::Fresh { now, ttl_secs: config.ttl_secs });
    if total_size(fresh) + needed <= config.limit() {
        after == fresh
    } else {
        exists|list: Seq<EntryInfo>, n: int|
            #![trigger without_first(fresh, list, n)]
            {
                &&& is_listing(list, fresh)
                &&& oldest_first(list)
                &&& is_enough(list, n, freed_for(config, total_size(fresh), needed))
                &&& after == without_first(fresh, list, n)
            }
    }
}

/// The segments that are kept, and the memory that they are counted with.
pub struct SegmentCache {
    entries: DashMap<String, CacheEntry>,
    memory_bytes: usize,
    config: SegmentCacheConfig,
}

/// A cache as a value.
pub struct CacheView {
    pub entries: Map<Seq<char>, EntryView>,
    /// The memory that the entries are counted with.
    pub memory: nat,
    pub config: SegmentCacheConfig,
}

impl View for SegmentCache {
    type V = CacheView;

    closed spec fn view(&self) -> CacheView {
        CacheView {
            entries: entries_in(self.entries),
            memory: self.memory_bytes as nat,
            config: self.config,
        }
    }
}

impl CacheView {
    /// The memory is that of the entries, and the limits are kept: there are no more entries
    /// than there may be, and memory for all of them, unless there is only one.
    pub open spec fn wf(self) -> bool {
        &&& self.entries.dom().finite()
        &&& self.memory == total_size(self.entries)
        &&& self.memory <= usize::MAX
        &&& self.config.limit() <= usize::MAX
        &&& self.entries.dom().len() <= self.config.max_segments
        &&& self.memory <= self.config.limit() || self.entries.dom().len() <= 1
    }
}

/// `<stream>:<segment>`.
pub open spec fn cache_key(stream_id: Seq<char>, segment_key: Seq<char>) -> Seq<char> {
    stream_id + ":"@ + segment_key
}

/// The step of an insertion that makes room where `full` holds.
pub open spec fn made_room(
    before: CacheView,
    after: CacheView,
    full: bool,
    needed: nat,
    now: u64,
) -> bool {
    if full {
        &&& evicted(before.entries, after.entries, before.config, needed, now)
        &&& after.memory == total_size(after.entries)
        &&& after.config == before.config
    } else {
        after == before
    }
}

/// Room is made where there is too little memory.
pub open spec fn made_memory(before: CacheView, after: CacheView, needed: nat, now: u64) -> bool {
    made_room(before, after, before.memory + needed > before.config.limit(), needed, now)
}

/// Room is made where there are too many entries.
pub open spec fn made_place(before: CacheView, after: CacheView, needed: nat, now: u64) -> bool {
    made_room(
        before,
        after,
        before.entries.dom().len() >= before.config.max_segments,
        needed,
        now,
    )
}

/// A place is left for the entry under `key`, unless it has one: if all are taken, those
/// entries go that were not asked for the longest, as many as it takes. Which of two entries
/// with one access time goes first is open.
pub open spec fn left_place(before: CacheView, after: CacheView, key: Seq<char>) -> bool {
    let places = before.config.max_segments;
    let count = before.entries.dom().len();
    if before.entries.dom().contains(key) || count < places {
        after == before
    } else {
        exists|list: Seq<EntryInfo>|
            #![trigger without_first(before.entries, list, count - places + 1)]
            {
                &&& is_listing(list, before.entries)
                &&& oldest_first(list)
                &&& after.entries == without_first(before.entries, list, count - places + 1)
                &&& after.memory == total_size(after.entries)
                &&& after.config == before.config
            }
    }
}

/// An insertion: room is made where there is too little memory, and where there are too many
/// entries; a place is left for the entry; then it goes in. Where there may be no entries,
/// nothing happens.
pub open spec fn inserted(
    before: CacheView,
    after: CacheView,
    key: Seq<char>,
    data: Seq<u8>,
    now: u64,
) -> bool {
    if before.config.max_segments == 0 {
        after == before
    } else {
        exists|a: CacheView, b: CacheView, c: CacheView|
            {
                &&& #[trigger] made_memory(before, a, data.len(), now)
                &&& #[trigger] made_place(a, b, data.len(), now)
                &&& #[trigger] left_place(b, c, key)
                &&& after.entries == c.entries.insert(key, fresh_entry(data, now))
                &&& after.memory == total_size(after.entries)
                &&& after.config == before.config
            }
    }
}

/// What the first entries of a list take with them, and that the others stay.
pub proof fn lemma_without_first(m: Map<Seq<char>, EntryView>, list: Seq<EntryInfo>, n: int)
    requires
        is_listing(list, m),
        0 <= n <= list.len(),
    ensures
        is_part(without_first(m, list, n), m),
        without_first(m, list, n).dom().finite(),
        without_first(m, list, n).dom().len() + n == m.dom().len(),
        total_size(without_first(m, list, n)) + listed_size(list.take(n)) == total_size(m),
        forall|j: int|
            n <= j < list.len() ==> without_first(m, list, n).dom().contains(
                (#[trigger] list[j]).key@,
            ) && without_first(m, list, n)[list[j].key@] == m[list[j].key@],
    decreases n,
{
    if n > 0 {
        lemma_without_first(m, list, n - 1);
        let before = without_first(m, list, n - 1);
        let k = list[n - 1].key@;
        assert(is_info(list[n - 1], m));
        lemma_total_size_remove(before, k);
        assert(list.take(n).drop_last() =~= list.take(n - 1));
        assert forall|j: int| n <= j < list.len() implies without_first(
            m,
            list,
            n,
        ).dom().contains((#[trigger] list[j]).key@) && without_first(m, list, n)[list[j].key@]
            == m[list[j].key@] by {
            assert(list[n - 1].key@ != list[j].key@);
        }
    } else {
        assert(list.take(0) =~= Seq::<EntryInfo>::empty());
        assert forall|j: int| n <= j < list.len() implies without_first(
            m,
            list,
            n,
        ).dom().contains((#[trigger] list[j]).key@) && without_first(m, list, n)[list[j].key@]
            == m[list[j].key@] by {
            assert(is_info(list[j], m));
        }
    }
}

impl SegmentCache {
    /// A cache without entries.
    pub fn new(config: SegmentCacheConfig) -> (cache: Self)
        requires
            config.limit() <= usize::MAX,
        ensures
            cache@ == (CacheView { entries: no_entries(), memory: 0, config }),
            cache@.wf(),
    {
        SegmentCache { entries: new_entries(), memory_bytes: 0, config }
    }

    /// The key of a segment.
    pub fn make_key(stream_id: &str, segment_key: &str) -> (key: String)
        ensures
            key@ == cache_key(stream_id@, segment_key@),
    {
        let mut key: String = stream_id.to_owned();
        key.push_str(":");
        key.push_str(segment_key);
        key
    }

    /// The data of a segment, if it is kept, asked for at `now`.
    pub fn get_at(&mut self, stream_id: &str, segment_key: &str, now: u64) -> (data: Option<
        bytes::Bytes,
    >)
        requires
            old(self)@.wf(),
        ensures
            final(self)@.wf(),
            ({
                let key = cache_key(stream_id@, segment_key@);
                let entries = old(self)@.entries;
                match data {
                    Some(b) => entries.dom().contains(key) && bytes_in(b) == entries[key].data
                        && final(self)@ == (CacheView {
                        entries: entries.insert(key, touched(entries[key], now)),
                        ..old(self)@
                    }),
                    None => !entries.dom().contains(key) && final(self)@ == old(self)@,
                }
            }),
    {
        let key: String = SegmentCache::make_key(stream_id, segment_key);
        let ghost before = self@.entries;
        let data: Option<bytes::Bytes> = access_entry(&mut self.entries, key.as_str(), now);
        proof {
            if data is Some {
                lemma_total_size_insert(before, key@, touched(before[key@], now));
                lemma_total_size_remove(before, key@);
            }
        }
        data
    }

    /// The data of a segment, if it is kept.
    pub fn get(&mut self, stream_id: &str, segment_key: &str) -> (data: Option<bytes::Bytes>)
        requires
            old(self)@.wf(),
        ensures
            final(self)@.wf(),
            ({
                let key = cache_key(stream_id@, segment_key@);
                let entries = old(self)@.entries;
                match data {
                    Some(b) => entries.dom().contains(key) && bytes_in(b) == entries[key].data
                        && exists|now: u64|
                        final(self)@ == (CacheView {
                            entries: entries.insert(key, #[trigger] touched(entries[key], now)),
                            ..old(self)@
                        }),
                    None => !entries.dom().contains(key) && final(self)@ == old(self)@,
                }
            }),
    {
        let now: u64 = unix_nanos();
        self.get_at(stream_id, segment_key, now)
    }

    /// Whether a segment is kept.
    pub fn contains(&self, stream_id: &str, segment_key: &str) -> (found: bool)
        ensures
            found == self@.entries.dom().contains(cache_key(stream_id@, segment_key@)),
    {
        let key: String = SegmentCache::make_key(stream_id, segment_key);
        has_entry(&self.entries, key.as_str())
    }

    /// Makes room for `needed_size` bytes at `now`.
    fn evict_if_needed(&mut self, needed_size: usize, now: u64)
        requires
            old(self)@.wf(),
            old(self)@.memory + needed_size <= usize::MAX,
        ensures
            made_room(old(self)@, final(self)@, true, needed_size as nat, now),
            final(self)@.wf(),
            final(self)@.memory <= old(self)@.memory,
    {
        let limit: usize = self.config.max_memory_bytes();
        let ghost before = self@.entries;
        let keep = Keep::Fresh { now, ttl_secs: self.config.ttl_secs };
        retain_entries(&mut self.entries, &keep);
        let ghost fresh = entries_in(self.entries);
        proof {
            lemma_part_is_smaller(fresh, before);
        }
        let list: Vec<EntryInfo> = list_entries(&self.entries);
        proof {
            lemma_listed_size(list@, fresh);
        }
        let usage: usize = sum_sizes(&list);
        self.memory_bytes = usage;
        if usage + needed_size > limit {
            let short: usize = usage + needed_size - limit;
            let target: usize = if short > limit / 2 {
                short
            } else {
                limit / 2
            };
            let list: Vec<EntryInfo> = sort_oldest_first(list, Ghost(fresh));
            proof {
                lemma_listed_size(list@, fresh);
            }
            let mut freed: usize = 0;
            let mut n: usize = 0;
            let ghost config = self.config;
            assert(list@.take(0) =~= Seq::<EntryInfo>::empty());
            while n < list.len() && freed < target
                invariant
                    n <= list@.len(),
                    is_listing(list@, fresh),
                    total_size(fresh) == listed_size(list@),
                    listed_size(list@) <= usize::MAX,
                    freed == listed_size(list@.take(n as int)),
                    forall|k: int| 0 <= k < n ==> listed_size(#[trigger] list@.take(k)) < target,
                    entries_in(self.entries) == without_first(fresh, list@, n as int),
                    self.config == config,
                decreases list.len() - n,
            {
                proof {
                    lemma_without_first(fresh, list@, n as int);
                    lemma_without_first(fresh, list@, n + 1);
                    lemma_listed_size_grows(list@, n + 1);
                    assert(list@.take(n + 1).drop_last() =~= list@.take(n as int));
                }
                if drop_entry(&mut self.entries, list[n].key.as_str()) {
                    freed = freed + list[n].size;
                }
                n += 1;
            }
            proof {
                lemma_without_first(fresh, list@, n as int);
                assert(is_enough(list@, n as int, target as nat));
            }
            let left: Vec<EntryInfo> = list_entries(&self.entries);
            proof {
                lemma_listed_size(left@, entries_in(self.entries));
            }
            self.memory_bytes = sum_sizes(&left);
            proof {
                lemma_part_is_smaller(self@.entries, fresh);
            }
        }
    }

    /// Leaves a place for the entry under `key`.
    fn leave_place(&mut self, key: &str)
        requires
            old(self)@.wf(),
            old(self)@.config.max_segments > 0,
        ensures
            left_place(old(self)@, final(self)@, key@),
            final(self)@.wf(),
            final(self)@.memory <= old(self)@.memory,
    {
        let places: usize = self.config.max_segments;
        let count: usize = entry_count(&self.entries);
        if has_entry(&self.entries, key) || count < places {
            return;
        }
        let surplus: usize = count - places + 1;
        let ghost before = self@;
        let list: Vec<EntryInfo> = list_entries(&self.entries);
        let list: Vec<EntryInfo> = sort_oldest_first(list, Ghost(before.entries));
        let ghost config = self.config;
        let mut n: usize = 0;
        while n < surplus
            invariant
                n <= surplus <= list@.len(),
                is_listing(list@, before.entries),
                entries_in(self.entries) == without_first(before.entries, list@, n as int),
                self.config == config,
            decreases surplus - n,
        {
            drop_entry(&mut self.entries, list[n].key.as_str());
            n += 1;
        }
        proof {
            lemma_without_first(before.entries, list@, surplus as int);
            lemma_part_is_smaller(entries_in(self.entries), before.entries);
        }
        let left: Vec<EntryInfo> = list_entries(&self.entries);
        proof {
            lemma_listed_size(left@, entries_in(self.entries));
        }
        self.memory_bytes = sum_sizes(&left);
    }

    /// Keeps a segment, made at `now`.
    pub fn insert_at(
        &mut self,
        stream_id: &str,
        segment_key: &str,
        data: bytes::Bytes,
        now: u64,
    )
        requires
            old(self)@.wf(),
            old(self)@.memory + bytes_in(data).len() <= usize::MAX,
        ensures
            final(self)@.wf(),
            final(self)@.entries.dom().len() <= final(self)@.config.max_segments,
            final(self)@.config.max_segments > 0 ==> final(self)@.entries.dom().len() > 0,
            final(self)@.memory <= old(self)@.memory + bytes_in(data).len(),
            final(self)@.config == old(self)@.config,
            inserted(
                old(self)@,
                final(self)@,
                cache_key(stream_id@, segment_key@),
                bytes_in(data),
                now,
            ),
    {
        if self.config.max_segments == 0 {
            return;
        }
        let key: String = SegmentCache::make_key(stream_id, segment_key);
        let size: usize = shared_len(&data);
        let ghost s0 = self@;
        if self.memory_bytes + size > self.config.max_memory_bytes() {
            self.evict_if_needed(size, now);
        }
        let ghost s1 = self@;
        assert(made_memory(s0, s1, size as nat, now));
        if entry_count(&self.entries) >= self.config.max_segments {
            self.evict_if_needed(size, now);
        }
        let ghost s2 = self@;
        assert(made_place(s1, s2, size as nat, now));
        self.leave_place(key.as_str());
        let ghost s3 = self@;
        assert(left_place(s2, s3, key@));
        let ghost name = key@;
        let ghost bytes = bytes_in(data);
        let entry = CacheEntry::new_at(data, now);
        proof {
            lemma_total_size_insert(s3.entries, name, entry@);
            if s3.entries.dom().contains(name) {
                lemma_total_size_remove(s3.entries, name);
            } else {
                assert(s3.entries.remove(name) =~= s3.entries);
            }
        }
        if let Some(replaced) = put_entry(&mut self.entries, key, entry) {
            self.memory_bytes = self.memory_bytes - shared_len(&replaced.data);
        }
        self.memory_bytes = self.memory_bytes + size;
        proof {
            assert(inserted(s0, self@, name, bytes, now));
            law_insert_keeps_limits(s0, self@, name, bytes, now);
        }
    }

    /// Keeps a segment.
    pub fn insert(&mut self, stream_id: &str, segment_key: &str, data: bytes::Bytes)
        requires
            old(self)@.wf(),
            old(self)@.memory + bytes_in(data).len() <= usize::MAX,
        ensures
            final(self)@.wf(),
            final(self)@.entries.dom().len() <= final(self)@.config.max_segments,
            final(self)@.config.max_segments > 0 ==> final(self)@.entries.dom().len() > 0,
            final(self)@.memory <= old(self)@.memory + bytes_in(data).len(),
            final(self)@.config == old(self)@.config,
            exists|now: u64|
                #[trigger] inserted(
                    old(self)@,
                    final(self)@,
                    cache_key(stream_id@, segment_key@),
                    bytes_in(data),
                    now,
                ),
    {
        let now: u64 = unix_nanos();
        self.insert_at(stream_id, segment_key, data, now);
    }

    /// The number of entries.
    pub fn len(&self) -> (n: usize)
        ensures
            n == self@.entries.dom().len(),
    {
        entry_count(&self.entries)
    }

    /// Whether there are no entries.
    pub fn is_empty(&self) -> (b: bool)
        ensures
            b == (self@.entries.dom().len() == 0),
    {
        entry_count(&self.entries) == 0
    }

    /// The memory that the entries are counted with.
    pub fn memory_usage(&self) -> (bytes: usize)
        ensures
            bytes == self@.memory,
    {
        self.memory_bytes
    }

    /// Forgets the entries whose key starts with `stream_id`.
    pub fn remove_stream(&mut self, stream_id: &str)
        requires
            old(self)@.wf(),
        ensures
            final(self)@.wf(),
            final(self)@.config == old(self)@.config,
            final(self)@.memory == total_size(final(self)@.entries),
            final(self)@.entries == without_prefix(old(self)@.entries, stream_id@),
    {
        let ghost before = self@.entries;
        let keep = Keep::Others { prefix: stream_id.to_owned() };
        retain_entries(&mut self.entries, &keep);
        proof {
            assert(self@.entries =~= without_prefix(before, stream_id@));
            lemma_part_is_smaller(self@.entries, before);
        }
        let list: Vec<EntryInfo> = list_entries(&self.entries);
        proof {
            lemma_listed_size(list@, entries_in(self.entries));
        }
        self.memory_bytes = sum_sizes(&list);
    }

    /// The number of segments that are made ahead.
    pub fn lookahead(&self) -> (n: usize)
        ensures
            n == self@.config.lookahead,
    {
        self.config.lookahead
    }
}

/// The entries whose key does not start with `prefix`.
pub open spec fn without_prefix(m: Map<Seq<char>, EntryView>, prefix: Seq<char>) -> Map<
    Seq<char>,
    EntryView,
> {
    m.restrict(m.dom().filter(|k: Seq<char>| !starts_with(k, prefix)))
}

/// What a cache holds.
#[derive(Debug, Clone, Copy, PartialEq, Eq)]
pub struct SegmentCacheStats {
    pub entry_count: usize,
    pub total_size_bytes: usize,
    pub memory_limit_bytes: usize,
    pub oldest_entry_age_secs: u64,
}

/// The age of the oldest entry, in seconds; 0 without entries.
pub open spec fn is_oldest_age(m: Map<Seq<char>, EntryView>, now: u64, age: u64) -> bool {
    &&& forall|k: Seq<char>| #[trigger] m.dom().contains(k) ==> age_at(m[k].created_at, now) <= age
    &&& age == 0 || exists|k: Seq<char>| #[trigger]
        m.dom().contains(k) && age_at(m[k].created_at, now) == age
}

/// The statistics are those of a cache at `now`.
pub open spec fn are_stats(c: CacheView, stats: SegmentCacheStats, now: u64) -> bool {
    &&& stats.entry_count == c.entries.dom().len()
    &&& stats.total_size_bytes == total_size(c.entries)
    &&& stats.memory_limit_bytes == c.config.limit()
    &&& is_oldest_age(c.entries, now, stats.oldest_entry_age_secs)
}

/// A list of all entries names each of them.
pub proof fn lemma_listing_complete(
    list: Seq<EntryInfo>,
    m: Map<Seq<char>, EntryView>,
    k: Seq<char>,
)
    requires
        is_listing(list, m),
        m.dom().contains(k),
    ensures
        exists|i: int| 0 <= i < list.len() && (#[trigger] list[i]).key@ == k,
    decreases list.len(),
{
    if list.len() == 0 {
        vstd::set_lib::lemma_set_empty_equivalency_len(m.dom());
    } else {
        let last = list[list.len() - 1];
        assert(is_info(last, m));
        if last.key@ != k {
            let rest = list.drop_last();
            let n = m.remove(last.key@);
            assert forall|i: int| 0 <= i < rest.len() implies is_info(#[trigger] rest[i], n) by {
                assert(is_info(list[i], m));
                assert(list[i].key@ != last.key@);
            }
            assert(is_listing(rest, n));
            lemma_listing_complete(rest, n, k);
            let i = choose|i: int| 0 <= i < rest.len() && (#[trigger] rest[i]).key@ == k;
            assert(list[i].key@ == k);
        }
    }
}

impl SegmentCache {
    /// What the cache holds at `now`.
    pub fn stats_at(&self, now: u64) -> (stats: SegmentCacheStats)
        requires
            self@.wf(),
        ensures
            are_stats(self@, stats, now),
    {
        let list: Vec<EntryInfo> = list_entries(&self.entries);
        let ghost m = self@.entries;
        proof {
            lemma_listed_size(list@, m);
        }
        let mut oldest: u64 = 0;
        let mut i: usize = 0;
        while i < list.len()
            invariant
                i <= list@.len(),
                is_listing(list@, m),
                forall|j: int|
                    0 <= j < i ==> age_at((#[trigger] list@[j]).created_at, now) <= oldest,
                oldest == 0 || exists|k: Seq<char>| #[trigger]
                    m.dom().contains(k) && age_at(m[k].created_at, now) == oldest,
            decreases list.len() - i,
        {
            let created: u64 = list[i].created_at;
            let age: u64 = if now < created {
                0
            } else {
                (now - created) / 1_000_000_000
            };
            assert(is_info(list@[i as int], m));
            if age > oldest {
                oldest = age;
                assert(m.dom().contains(list@[i as int].key@));
            }
            i += 1;
        }
        assert forall|k: Seq<char>| #[trigger] m.dom().contains(k) implies age_at(
            m[k].created_at,
            now,
        ) <= oldest by {
            lemma_listing_complete(list@, m, k);
            let j = choose|j: int| 0 <= j < list@.len() && (#[trigger] list@[j]).key@ == k;
            assert(is_info(list@[j], m));
        }
        SegmentCacheStats {
            entry_count: list.len(),
            total_size_bytes: sum_sizes(&list),
            memory_limit_bytes: self.config.max_memory_bytes(),
            oldest_entry_age_secs: oldest,
        }
    }

    /// What the cache holds.
    pub fn stats(&self) -> (stats: SegmentCacheStats)
        requires
            self@.wf(),
        ensures
            exists|now: u64| #[trigger] are_stats(self@, stats, now),
    {
        let now: u64 = unix_nanos();
        self.stats_at(now)
    }
}

impl Default for SegmentCache {
    fn default() -> (cache: Self)
        ensures
            cache@ == (CacheView {
                entries: no_entries(),
                memory: 0,
                config: SegmentCacheConfig {
                    max_memory_mb: 512,
                    max_segments: 100,
                    ttl_secs: 300,
                    lookahead: 0,
                },
            }),
            cache@.wf(),
    {
        SegmentCache::new(SegmentCacheConfig::default())
    }
}

/// Sets up the cache of a program, once: a cache that is there stays.
pub fn init_segment_cache(slot: &mut Option<SegmentCache>, config: SegmentCacheConfig)
    requires
        *old(slot) is None ==> config.limit() <= usize::MAX,
    ensures
        match *old(slot) {
            Some(_) => *final(slot) == *old(slot),
            None => *final(slot) matches Some(cache) && cache@ == (CacheView {
                entries: no_entries(),
                memory: 0,
                config,
            }) && cache@.wf(),
        },
{
    if slot.is_none() {
        *slot = Some(SegmentCache::new(config));
    }
}

/// What the cache of a program holds; nothing if it was not set up.
pub fn segment_cache_stats(cache: Option<&SegmentCache>) -> (stats: SegmentCacheStats)
    requires
        cache matches Some(c) ==> c@.wf(),
    ensures
        match cache {
            Some(c) => exists|now: u64| #[trigger] are_stats(c@, stats, now),
            None => stats == (SegmentCacheStats {
                entry_count: 0,
                total_size_bytes: 0,
                memory_limit_bytes: 0,
                oldest_entry_age_secs: 0,
            }),
        },
{
    match cache {
        Some(c) => c.stats(),
        None => SegmentCacheStats {
            entry_count: 0,
            total_size_bytes: 0,
            memory_limit_bytes: 0,
            oldest_entry_age_secs: 0,
        },
    }
}

} // verus!
