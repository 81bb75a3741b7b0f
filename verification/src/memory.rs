//! The bounded cache of rendered session detail.
//!
//! The cache is an `lru::LruCache`. Its contents are modelled as a sequence of
//! entries, most recently used first; what `lru` does to that sequence is
//! stated on the wrappers below and everything else is proved from there.

use vstd::prelude::*;

verus! {

/// `lru::LruCache`, opaque here.
#[verifier::external_type_specification]
#[verifier::external_body]
#[verifier::reject_recursive_types(K)]
#[verifier::reject_recursive_types(V)]
#[verifier::reject_recursive_types(S)]
pub struct ExLruCache<K, V, S>(lru::LruCache<K, V, S>);

/// The hasher that `lru::LruCache` uses by default, opaque here.
#[verifier::external_type_specification]
#[verifier::external_body]
pub struct ExDefaultHasher(lru::DefaultHasher);

/// Rendered detail of one session: its messages and its tool statistics,
/// both as JSON text.
#[derive(Clone, Debug, PartialEq, Eq)]
pub struct CachedSessionDetail {
    pub messages_json: String,
    pub tool_stats_json: String,
}

pub struct CachedSessionDetailView {
    pub messages_json: Seq<char>,
    pub tool_stats_json: Seq<char>,
}

impl View for CachedSessionDetail {
    type V = CachedSessionDetailView;

    open spec fn view(&self) -> CachedSessionDetailView {
        CachedSessionDetailView {
            messages_json: self.messages_json@,
            tool_stats_json: self.tool_stats_json@,
        }
    }
}

/// One cached entry: its key and the detail stored under it.
pub type Entry = (Seq<char>, CachedSessionDetailView);

/// How many entries the memory cache holds at most.
pub const MEMORY_CACHE_CAPACITY: usize = 200;

/// The entries of an `lru::LruCache`, most recently used first.
pub uninterp spec fn lru_entries(cache: lru::LruCache<String, CachedSessionDetail>) -> Seq<Entry>;

/// The capacity that an `lru::LruCache` was made with.
pub uninterp spec fn lru_capacity(cache: lru::LruCache<String, CachedSessionDetail>) -> nat;

/// Where the entry with the given key stands, counted from the most recently
/// used one.
pub open spec fn position(entries: Seq<Entry>, key: Seq<char>) -> Option<int>
    decreases entries.len(),
{
    if entries.len() == 0 {
        None
    } else if entries[0].0 == key {
        Some(0)
    } else {
        match position(entries.drop_first(), key) {
            Some(i) => Some(i + 1),
            None => None,
        }
    }
}

/// No key occurs twice.
pub open spec fn distinct_keys(entries: Seq<Entry>) -> bool {
    forall|i: int, j: int|
        0 <= i < j < entries.len() ==> (#[trigger] entries[i]).0 != (#[trigger] entries[j]).0
}

/// The entries after `key` was looked up: a hit moves to the front.
pub open spec fn touched(entries: Seq<Entry>, key: Seq<char>) -> Seq<Entry> {
    match position(entries, key) {
        Some(i) => seq![entries[i]] + entries.remove(i),
        None => entries,
    }
}

/// The entries after `value` was stored under `key` in a cache of the given
/// capacity: the new entry stands in front; it replaces the entry that had
/// the key, or else, in a full cache, the least recently used entry leaves.
pub open spec fn stored(
    entries: Seq<Entry>,
    capacity: nat,
    key: Seq<char>,
    value: CachedSessionDetailView,
) -> Seq<Entry> {
    match position(entries, key) {
        Some(i) => seq![(key, value)] + entries.remove(i),
        None => if entries.len() == capacity {
            seq![(key, value)] + entries.drop_last()
        } else {
            seq![(key, value)] + entries
        },
    }
}

/// `lru::LruCache::new`: an empty cache of the given capacity.
#[verifier::external_body]
fn lru_new(capacity: usize) -> (cache: lru::LruCache<String, CachedSessionDetail>)
    requires
        capacity > 0,
    ensures
        lru_entries(cache) == Seq::<Entry>::empty(),
        lru_capacity(cache) == capacity,
{
    lru::LruCache::new(std::num::NonZeroUsize::new(capacity).unwrap())
}

/// `lru::LruCache::put`: stores the value under the key and makes it the most
/// recently used entry. An entry that had the key is replaced; otherwise a
/// full cache drops its least recently used entry.
#[verifier::external_body]
fn lru_put(
    cache: &mut lru::LruCache<String, CachedSessionDetail>,
    key: String,
    value: CachedSessionDetail,
)
    ensures
        lru_capacity(*final(cache)) == lru_capacity(*old(cache)),
        lru_entries(*final(cache)) == stored(
            lru_entries(*old(cache)),
            lru_capacity(*old(cache)),
            key@,
            value@,
        ),
{
    cache.put(key, value);
}

/// `lru::LruCache::get`: a copy of the value under the key, which becomes
/// the most recently used entry; nothing changes on a miss.
#[verifier::external_body]
fn lru_get(cache: &mut lru::LruCache<String, CachedSessionDetail>, key: &str) -> (r: Option<
    CachedSessionDetail,
>)
    ensures
        lru_capacity(*final(cache)) == lru_capacity(*old(cache)),
        lru_entries(*final(cache)) == touched(lru_entries(*old(cache)), key@),
        match position(lru_entries(*old(cache)), key@) {
            Some(i) => r is Some && r.unwrap()@ == lru_entries(*old(cache))[i].1,
            None => r is None,
        },
{
    cache.get(key).cloned()
}

/// `lru::LruCache::clear`: removes every entry.
#[verifier::external_body]
fn lru_clear(cache: &mut lru::LruCache<String, CachedSessionDetail>)
    ensures
        lru_capacity(*final(cache)) == lru_capacity(*old(cache)),
        lru_entries(*final(cache)) == Seq::<Entry>::empty(),
{
    cache.clear();
}

/// The memory cache: at most [`MEMORY_CACHE_CAPACITY`] entries, evicted in
/// least-recently-used order.
pub struct MemoryCache {
    cache: lru::LruCache<String, CachedSessionDetail>,
}

impl MemoryCache {
    /// The entries, most recently used first.
    pub closed spec fn entries(&self) -> Seq<Entry> {
        lru_entries(self.cache)
    }

    /// The cache holds at most its capacity, each key once.
    pub closed spec fn wf(&self) -> bool {
        &&& lru_capacity(self.cache) == MEMORY_CACHE_CAPACITY
        &&& self.entries().len() <= MEMORY_CACHE_CAPACITY
        &&& distinct_keys(self.entries())
    }

    /// An empty cache.
    pub fn new() -> (cache: MemoryCache)
        ensures
            cache.wf(),
            cache.entries() == Seq::<Entry>::empty(),
    {
        MemoryCache { cache: lru_new(MEMORY_CACHE_CAPACITY) }
    }

    /// A well-formed cache never holds more than its capacity.
    pub proof fn lemma_bounded(&self)
        requires
            self.wf(),
        ensures
            self.entries().len() <= MEMORY_CACHE_CAPACITY,
            distinct_keys(self.entries()),
    {
    }
}

/// `position` finds an entry with the key, and the first such.
pub proof fn lemma_position(entries: Seq<Entry>, key: Seq<char>)
    ensures
        match position(entries, key) {
            Some(i) => 0 <= i < entries.len() && entries[i].0 == key && forall|j: int|
                0 <= j < i ==> (#[trigger] entries[j]).0 != key,
            None => forall|j: int| 0 <= j < entries.len() ==> (#[trigger] entries[j]).0 != key,
        },
    decreases entries.len(),
{
    if entries.len() > 0 && entries[0].0 != key {
        let rest = entries.drop_first();
        lemma_position(rest, key);
        match position(rest, key) {
            Some(i) => {
                assert forall|j: int| 0 <= j < i + 1 implies (#[trigger] entries[j]).0 != key by {
                    if j > 0 {
                        assert(entries[j] == rest[j - 1]);
                    }
                }
            },
            None => {
                assert forall|j: int| 0 <= j < entries.len() implies (#[trigger] entries[j]).0
                    != key by {
                    if j > 0 {
                        assert(entries[j] == rest[j - 1]);
                    }
                }
            },
        }
    }
}

/// Looking a key up keeps the entries distinct and their number.
pub proof fn lemma_touched_keeps_order(entries: Seq<Entry>, key: Seq<char>)
    requires
        distinct_keys(entries),
    ensures
        distinct_keys(touched(entries, key)),
        touched(entries, key).len() == entries.len(),
        touched(entries, key).to_multiset() == entries.to_multiset(),
{
    lemma_position(entries, key);
    match position(entries, key) {
        Some(i) => {
            let rest = entries.remove(i);
            let after = touched(entries, key);
            assert forall|a: int, b: int| 0 <= a < b < after.len() implies (#[trigger] after[a]).0
                != (#[trigger] after[b]).0 by {
                let ib = if b - 1 < i { b - 1 } else { b };
                assert(after[b] == entries[ib]);
                if a == 0 {
                    assert(after[a] == entries[i]);
                } else {
                    let ia = if a - 1 < i { a - 1 } else { a };
                    assert(after[a] == entries[ia]);
                }
            }
            vstd::seq_lib::lemma_seq_union_to_multiset_commutative(seq![entries[i]], rest);
            assert(entries =~= rest.insert(i, entries[i]));
            vstd::seq_lib::to_multiset_insert(rest, i, entries[i]);
            vstd::seq_lib::lemma_multiset_commutative(seq![entries[i]], rest);
            assert(seq![entries[i]].to_multiset() =~= vstd::multiset::Multiset::singleton(
                entries[i],
            )) by {
                vstd::seq_lib::to_multiset_build(Seq::<Entry>::empty(), entries[i]);
                assert(Seq::<Entry>::empty().push(entries[i]) =~= seq![entries[i]]);
                Seq::<Entry>::empty().to_multiset_ensures();
            }
            assert(after.to_multiset() =~= entries.to_multiset());
        },
        None => {},
    }
}

/// Storing a value keeps the cache within its capacity and the keys
/// distinct, and the stored entry is the most recently used one.
pub proof fn lemma_stored_is_well_formed(
    entries: Seq<Entry>,
    capacity: nat,
    key: Seq<char>,
    value: CachedSessionDetailView,
)
    requires
        distinct_keys(entries),
        entries.len() <= capacity,
        capacity > 0,
    ensures
        distinct_keys(stored(entries, capacity, key, value)),
        stored(entries, capacity, key, value).len() <= capacity,
        stored(entries, capacity, key, value)[0] == (key, value),
        position(stored(entries, capacity, key, value), key) == Some(0int),
{
    lemma_position(entries, key);
    let after = stored(entries, capacity, key, value);
    match position(entries, key) {
        Some(i) => {
            assert forall|a: int, b: int| 0 <= a < b < after.len() implies (#[trigger] after[a]).0
                != (#[trigger] after[b]).0 by {
                let ib = if b - 1 < i { b - 1 } else { b };
                assert(after[b] == entries[ib]);
                if a > 0 {
                    let ia = if a - 1 < i { a - 1 } else { a };
                    assert(after[a] == entries[ia]);
                }
            }
        },
        None => {
            assert forall|a: int, b: int| 0 <= a < b < after.len() implies (#[trigger] after[a]).0
                != (#[trigger] after[b]).0 by {
                assert(after[b] == entries[b - 1]);
                if a > 0 {
                    assert(after[a] == entries[a - 1]);
                }
            }
        },
    }
}

/// The detail cached under `key`, if any. A hit becomes the most recently
/// used entry; a miss changes nothing.
pub fn get_session_from_memory(cache: &mut MemoryCache, key: &str) -> (r: Option<
    CachedSessionDetail,
>)
    requires
        old(cache).wf(),
    ensures
        final(cache).wf(),
        final(cache).entries() == touched(old(cache).entries(), key@),
        match position(old(cache).entries(), key@) {
            Some(i) => r is Some && r.unwrap()@ == old(cache).entries()[i].1,
            None => r is None,
        },
{
    proof {
        lemma_touched_keeps_order(cache.entries(), key@);
    }
    lru_get(&mut cache.cache, key)
}

/// Caches `detail` under `key` as the most recently used entry. In a full
/// cache the least recently used entry makes room.
pub fn set_session_to_memory(cache: &mut MemoryCache, key: String, detail: CachedSessionDetail)
    requires
        old(cache).wf(),
    ensures
        final(cache).wf(),
        final(cache).entries() == stored(
            old(cache).entries(),
            MEMORY_CACHE_CAPACITY as nat,
            key@,
            detail@,
        ),
{
    proof {
        lemma_stored_is_well_formed(
            cache.entries(),
            MEMORY_CACHE_CAPACITY as nat,
            key@,
            detail@,
        );
    }
    lru_put(&mut cache.cache, key, detail);
}

/// Empties the cache.
pub fn clear_memory_cache(cache: &mut MemoryCache)
    requires
        old(cache).wf(),
    ensures
        final(cache).wf(),
        final(cache).entries() == Seq::<Entry>::empty(),
{
    lru_clear(&mut cache.cache);
}

/// What was stored last under a key is what a lookup of that key returns.
pub proof fn lemma_lookup_after_store(
    entries: Seq<Entry>,
    key: Seq<char>,
    value: CachedSessionDetailView,
)
    requires
        distinct_keys(entries),
        entries.len() <= MEMORY_CACHE_CAPACITY,
    ensures
        ({
            let after = stored(entries, MEMORY_CACHE_CAPACITY as nat, key, value);
            position(after, key) == Some(0int) && after[0].1 == value
        }),
{
    lemma_stored_is_well_formed(entries, MEMORY_CACHE_CAPACITY as nat, key, value);
}

} // verus!
