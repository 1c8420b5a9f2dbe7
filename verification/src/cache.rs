//! Compressed images that were downloaded before.

use crate::text::hex_string;
use lru::LruCache;
use vstd::prelude::*;

verus! {

/// `lru::LruCache`, a map of bounded size that drops the entry used longest ago.
#[verifier::external_type_specification]
#[verifier::external_body]
#[verifier::reject_recursive_types(K)]
#[verifier::reject_recursive_types(V)]
#[verifier::reject_recursive_types(S)]
pub struct ExLruCache<K, V, S>(lru::LruCache<K, V, S>);

/// `lru::DefaultHasher`, with which an `LruCache` hashes its keys.
#[verifier::external_type_specification]
#[verifier::external_body]
pub struct ExLruHasher(lru::DefaultHasher);

/// The entries of a cache, the one used last first: key, data, and the time at which it came in.
pub uninterp spec fn lru_entries(cache: LruCache<String, (Vec<u8>, u64)>) -> Seq<
    (Seq<char>, Seq<u8>, u64),
>;

/// How many entries a cache was made to hold.
pub uninterp spec fn lru_limit(cache: LruCache<String, (Vec<u8>, u64)>) -> nat;

/// The MD5 digest of some data.
pub uninterp spec fn md5_of(data: Seq<u8>) -> Seq<u8>;

/// The data and the time that are kept under a key.
pub open spec fn cached(entries: Seq<(Seq<char>, Seq<u8>, u64)>, key: Seq<char>) -> Option<
    (Seq<u8>, u64),
>
    decreases entries.len(),
{
    if entries.len() == 0 {
        None
    } else if entries.first().0 == key {
        Some((entries.first().1, entries.first().2))
    } else {
        cached(entries.drop_first(), key)
    }
}

/// The entries that are not under a key.
pub open spec fn not_under(key: Seq<char>) -> spec_fn((Seq<char>, Seq<u8>, u64)) -> bool {
    |e: (Seq<char>, Seq<u8>, u64)| e.0 != key
}

/// The entries under other keys.
pub open spec fn others(entries: Seq<(Seq<char>, Seq<u8>, u64)>, key: Seq<char>) -> Seq<
    (Seq<char>, Seq<u8>, u64),
> {
    entries.filter(not_under(key))
}

/// The entries after that of a key was used.
pub open spec fn touched(entries: Seq<(Seq<char>, Seq<u8>, u64)>, key: Seq<char>) -> Seq<
    (Seq<char>, Seq<u8>, u64),
> {
    match cached(entries, key) {
        Some((data, time)) => seq![(key, data, time)] + others(entries, key),
        None => entries,
    }
}

/// The entries after data was kept under a key: an entry under the same key is replaced, and
/// otherwise a full cache drops the entry used longest ago.
pub open spec fn stored(
    entries: Seq<(Seq<char>, Seq<u8>, u64)>,
    limit: nat,
    key: Seq<char>,
    data: Seq<u8>,
    time: u64,
) -> Seq<(Seq<char>, Seq<u8>, u64)> {
    seq![(key, data, time)] + (if cached(entries, key) is Some {
        others(entries, key)
    } else if entries.len() == limit {
        entries.drop_last()
    } else {
        entries
    })
}

/// `LruCache::new` makes an empty cache for `limit` entries.
#[verifier::external_body]
fn lru_new(limit: usize) -> (cache: LruCache<String, (Vec<u8>, u64)>)
    requires
        limit > 0,
    ensures
        lru_entries(cache) == Seq::<(Seq<char>, Seq<u8>, u64)>::empty(),
        lru_limit(cache) == limit,
{
    LruCache::new(std::num::NonZeroUsize::new(limit).unwrap())
}

/// `LruCache::get` gives the value of a key, and makes its entry the one used last.
#[verifier::external_body]
fn lru_get(cache: &mut LruCache<String, (Vec<u8>, u64)>, key: &String) -> (value: Option<
    (Vec<u8>, u64),
>)
    ensures
        lru_entries(*final(cache)) == touched(lru_entries(*old(cache)), key@),
        lru_limit(*final(cache)) == lru_limit(*old(cache)),
        match value {
            Some((data, time)) => cached(lru_entries(*old(cache)), key@) == Some((data@, time)),
            None => cached(lru_entries(*old(cache)), key@) is None,
        },
{
    cache.get(key).cloned()
}

/// `LruCache::put` keeps a value under a key as the entry used last; it replaces the entry of that
/// key, or else drops the entry used longest ago from a cache that holds as many as it may.
#[verifier::external_body]
fn lru_put(cache: &mut LruCache<String, (Vec<u8>, u64)>, key: String, data: Vec<u8>, time: u64)
    ensures
        lru_entries(*final(cache)) == stored(
            lru_entries(*old(cache)),
            lru_limit(*old(cache)),
            key@,
            data@,
            time,
        ),
        lru_limit(*final(cache)) == lru_limit(*old(cache)),
{
    cache.put(key, (data, time));
}

/// `md5::compute` gives the digest of the data, which has 16 bytes.
#[verifier::external_body]
fn md5_digest(data: &[u8]) -> (digest: Vec<u8>)
    ensures
        digest@ == md5_of(data@),
        digest@.len() == 16,
{
    md5::compute(data).0.to_vec()
}

/// The key under which the result for some data is kept.
pub open spec fn key_of(data: Seq<u8>) -> Seq<char> {
    crate::text::lower_hex(md5_of(data))
}

/// The key under which the result for some data is kept: its MD5 digest in hexadecimal.
pub fn cache_key(data: &[u8]) -> (key: String)
    ensures
        key@ == key_of(data@),
        key@.len() == 32,
{
    let digest = md5_digest(data);
    proof {
        crate::text::law_hex_is_injective(digest@, digest@);
    }
    hex_string(&digest)
}

/// How many images are kept.
pub const CACHE_LIMIT: usize = 100;

/// How long an image is used again, in nanoseconds: one hour.
pub const CACHE_LIFE: u64 = 3_600_000_000_000;

/// Compressed images by the digest of what they were compressed from. Times are nanoseconds on
/// one monotonic clock.
pub struct ResponseCache {
    lru: LruCache<String, (Vec<u8>, u64)>,
}

/// Something that came in at `time` is still young at `now`.
pub open spec fn is_young(time: u64, now: u64) -> bool {
    now - time < CACHE_LIFE
}

/// No key is there twice.
pub open spec fn distinct(entries: Seq<(Seq<char>, Seq<u8>, u64)>) -> bool {
    forall|i: int, j: int|
        0 <= i < j < entries.len() ==> (#[trigger] entries[i]).0 != (#[trigger] entries[j]).0
}

/// What a look into the cache gives.
pub open spec fn young_data(
    entries: Seq<(Seq<char>, Seq<u8>, u64)>,
    key: Seq<char>,
    now: u64,
) -> Option<Seq<u8>> {
    match cached(entries, key) {
        Some((data, time)) => if is_young(time, now) {
            Some(data)
        } else {
            None
        },
        None => None,
    }
}

impl ResponseCache {
    /// The entries, the one used last first: key, data, and the time at which it came in.
    pub closed spec fn entries(&self) -> Seq<(Seq<char>, Seq<u8>, u64)> {
        lru_entries(self.lru)
    }

    /// Each key is there once, and no more entries than the limit.
    pub closed spec fn wf(&self) -> bool {
        &&& lru_limit(self.lru) == CACHE_LIMIT
        &&& self.entries().len() <= CACHE_LIMIT
        &&& distinct(self.entries())
    }

    /// An empty cache.
    pub fn new() -> (cache: ResponseCache)
        ensures
            cache.wf(),
            cache.entries() == Seq::<(Seq<char>, Seq<u8>, u64)>::empty(),
    {
        ResponseCache { lru: lru_new(CACHE_LIMIT) }
    }

    /// The data under a key, unless it is too old.
    pub fn lookup(&mut self, key: &String, now: u64) -> (found: Option<Vec<u8>>)
        requires
            old(self).wf(),
        ensures
            final(self).wf(),
            final(self).entries() == touched(old(self).entries(), key@),
            match found {
                Some(data) => young_data(old(self).entries(), key@, now) == Some(data@),
                None => young_data(old(self).entries(), key@, now) is None,
            },
    {
        proof {
            lemma_others(self.entries(), key@);
        }
        match lru_get(&mut self.lru, key) {
            Some((data, time)) => {
                if now.saturating_sub(time) < CACHE_LIFE {
                    Some(data)
                } else {
                    None
                }
            },
            None => None,
        }
    }

    /// Keeps data under a key.
    pub fn store(&mut self, key: String, data: Vec<u8>, now: u64)
        requires
            old(self).wf(),
        ensures
            final(self).wf(),
            final(self).entries() == stored(
                old(self).entries(),
                CACHE_LIMIT as nat,
                key@,
                data@,
                now,
            ),
    {
        proof {
            law_stored_within_limit(self.entries(), CACHE_LIMIT as nat, key@, data@, now);
        }
        lru_put(&mut self.lru, key, data, now);
    }

    /// No more images are kept than the limit allows, and each digest is there once.
    pub proof fn law_within_limit(&self)
        requires
            self.wf(),
        ensures
            self.entries().len() <= CACHE_LIMIT,
            distinct(self.entries()),
    {
    }
}

/// Nothing is kept under a key exactly when no entry has that key.
proof fn lemma_cached_none(entries: Seq<(Seq<char>, Seq<u8>, u64)>, key: Seq<char>)
    ensures
        cached(entries, key) is None <==> forall|i: int|
            0 <= i < entries.len() ==> (#[trigger] entries[i]).0 != key,
    decreases entries.len(),
{
    if entries.len() > 0 {
        let rest = entries.drop_first();
        lemma_cached_none(rest, key);
        if entries.first().0 == key {
            assert(entries[0].0 == key);
        } else if cached(rest, key) is None {
            assert forall|i: int| 0 <= i < entries.len() implies (#[trigger] entries[i]).0 != key by {
                if i > 0 {
                    assert(rest[i - 1] == entries[i]);
                }
            }
        } else {
            let m = choose|m: int| 0 <= m < rest.len() && (#[trigger] rest[m]).0 == key;
            assert(entries[m + 1].0 == key);
        }
    }
}

/// Of distinct entries, each is what is kept under its key.
proof fn lemma_cached_at(entries: Seq<(Seq<char>, Seq<u8>, u64)>, i: int)
    requires
        distinct(entries),
        0 <= i < entries.len(),
    ensures
        cached(entries, entries[i].0) == Some((entries[i].1, entries[i].2)),
    decreases entries.len(),
{
    if i > 0 {
        let rest = entries.drop_first();
        assert(distinct(rest)) by {
            assert forall|a: int, b: int| 0 <= a < b < rest.len() implies (#[trigger] rest[a]).0 != (
            #[trigger] rest[b]).0 by {
                assert(rest[a] == entries[a + 1] && rest[b] == entries[b + 1]);
            }
        }
        lemma_cached_at(rest, i - 1);
        assert(entries[0].0 != entries[i].0);
        assert(rest[i - 1] == entries[i]);
    }
}

/// Where no entry has a key, all entries are under other keys.
proof fn lemma_others_all(entries: Seq<(Seq<char>, Seq<u8>, u64)>, key: Seq<char>)
    requires
        forall|i: int| 0 <= i < entries.len() ==> (#[trigger] entries[i]).0 != key,
    ensures
        others(entries, key) == entries,
    decreases entries.len(),
{
    reveal(Seq::filter);
    if entries.len() > 0 {
        let rest = entries.drop_last();
        assert forall|i: int| 0 <= i < rest.len() implies (#[trigger] rest[i]).0 != key by {
            assert(rest[i] == entries[i]);
        }
        lemma_others_all(rest, key);
        assert(entries[entries.len() - 1].0 != key);
        assert(rest.push(entries.last()) =~= entries);
    } else {
        assert(entries.filter(not_under(key)) =~= entries);
    }
}

/// Of distinct entries, those under other keys than one entry's are all but that entry.
proof fn lemma_others_at(entries: Seq<(Seq<char>, Seq<u8>, u64)>, i: int)
    requires
        distinct(entries),
        0 <= i < entries.len(),
    ensures
        others(entries, entries[i].0) == entries.remove(i),
{
    let key = entries[i].0;
    let before = entries.take(i);
    let one = seq![entries[i]];
    let after = entries.skip(i + 1);
    assert(entries =~= before + one + after);
    Seq::filter_distributes_over_add(before + one, after, not_under(key));
    Seq::filter_distributes_over_add(before, one, not_under(key));
    assert forall|j: int| 0 <= j < before.len() implies (#[trigger] before[j]).0 != key by {
        assert(before[j] == entries[j]);
    }
    assert forall|j: int| 0 <= j < after.len() implies (#[trigger] after[j]).0 != key by {
        assert(after[j] == entries[i + 1 + j]);
    }
    lemma_others_all(before, key);
    lemma_others_all(after, key);
    assert(one.filter(not_under(key)) =~= Seq::empty()) by {
        reveal_with_fuel(Seq::filter, 2);
        assert(one.drop_last() =~= Seq::empty());
    }
    assert(entries.remove(i) =~= before + after);
    assert(before + Seq::empty() + after =~= before + after);
}

/// Using or taking out one key's entry leaves distinct keys, and no more entries than before.
proof fn lemma_others(entries: Seq<(Seq<char>, Seq<u8>, u64)>, key: Seq<char>)
    requires
        distinct(entries),
    ensures
        distinct(others(entries, key)),
        distinct(touched(entries, key)),
        forall|i: int|
            0 <= i < others(entries, key).len() ==> (#[trigger] others(entries, key)[i]).0 != key,
        cached(entries, key) is Some ==> others(entries, key).len() == entries.len() - 1,
        cached(entries, key) is None ==> forall|i: int|
            0 <= i < entries.len() ==> (#[trigger] entries[i]).0 != key,
        touched(entries, key).len() == entries.len(),
{
    lemma_cached_none(entries, key);
    if cached(entries, key) is Some {
        let m = choose|m: int| 0 <= m < entries.len() && (#[trigger] entries[m]).0 == key;
        lemma_others_at(entries, m);
        let rest = entries.remove(m);
        assert forall|i: int| 0 <= i < rest.len() implies #[trigger] rest[i] == entries[if i < m {
            i
        } else {
            i + 1
        }] by {}
        assert(distinct(rest));
        assert forall|i: int| 0 <= i < rest.len() implies (#[trigger] rest[i]).0 != key by {
            if i < m {
                assert(entries[i].0 != entries[m].0);
            } else {
                assert(entries[m].0 != entries[i + 1].0);
            }
        }
        let all = touched(entries, key);
        assert forall|i: int, j: int| 0 <= i < j < all.len() implies (#[trigger] all[i]).0 != (
        #[trigger] all[j]).0 by {
            assert(all[j] == rest[j - 1]);
            if i > 0 {
                assert(all[i] == rest[i - 1]);
            }
        }
    } else {
        lemma_others_all(entries, key);
    }
}

/// Only the order of the entries changes when one is used: what is kept under each key stays.
pub proof fn law_use_keeps_data(
    entries: Seq<(Seq<char>, Seq<u8>, u64)>,
    key: Seq<char>,
    k: Seq<char>,
)
    requires
        distinct(entries),
    ensures
        cached(touched(entries, key), k) == cached(entries, k),
{
    lemma_cached_none(entries, key);
    if cached(entries, key) is Some {
        let all = touched(entries, key);
        let rest = others(entries, key);
        assert(all.drop_first() =~= rest);
        if k != key {
            lemma_cached_others(entries, key, k);
        }
    }
}

/// Taking out one key's entry leaves what is kept under another key.
proof fn lemma_cached_others(
    entries: Seq<(Seq<char>, Seq<u8>, u64)>,
    key: Seq<char>,
    k: Seq<char>,
)
    requires
        distinct(entries),
        k != key,
    ensures
        cached(others(entries, key), k) == cached(entries, k),
{
    lemma_others(entries, key);
    lemma_cached_none(entries, key);
    lemma_cached_none(entries, k);
    let rest = others(entries, key);
    lemma_cached_none(rest, k);
    if cached(entries, key) is None {
        lemma_others_all(entries, key);
    } else {
        let m = choose|m: int| 0 <= m < entries.len() && (#[trigger] entries[m]).0 == key;
        lemma_others_at(entries, m);
        if cached(entries, k) is Some {
            let i = choose|i: int| 0 <= i < entries.len() && (#[trigger] entries[i]).0 == k;
            let j = if i < m {
                i
            } else {
                i - 1
            };
            assert(rest[j] == entries[i]);
            lemma_cached_at(entries, i);
            lemma_cached_at(rest, j);
        } else {
            assert forall|j: int| 0 <= j < rest.len() implies (#[trigger] rest[j]).0 != k by {
                assert(rest[j] == entries[if j < m {
                    j
                } else {
                    j + 1
                }]);
            }
        }
    }
}

/// Data with different digests is kept under different keys.
pub proof fn law_key_tells_digests_apart(a: Seq<u8>, b: Seq<u8>)
    requires
        key_of(a) == key_of(b),
    ensures
        md5_of(a) == md5_of(b),
{
    crate::text::law_hex_is_injective(md5_of(a), md5_of(b));
}

/// What was stored under a key is what a look under that key gives for an hour, and no longer.
pub proof fn law_stored_reads_back(
    entries: Seq<(Seq<char>, Seq<u8>, u64)>,
    limit: nat,
    key: Seq<char>,
    data: Seq<u8>,
    time: u64,
    now: u64,
)
    ensures
        young_data(stored(entries, limit, key, data, time), key, now) == if now - time < 3600
            * 1_000_000_000 {
            Some(data)
        } else {
            None
        },
{
}

/// Storing under one key leaves what is kept under another key, except that a full cache which
/// gets a new key drops the entry used longest ago.
pub proof fn law_store_keeps_others(
    entries: Seq<(Seq<char>, Seq<u8>, u64)>,
    limit: nat,
    key: Seq<char>,
    data: Seq<u8>,
    time: u64,
    k: Seq<char>,
)
    requires
        distinct(entries),
        0 < limit,
        entries.len() <= limit,
        k != key,
    ensures
        cached(stored(entries, limit, key, data, time), k) == if cached(entries, key) is None
            && entries.len() == limit && k == entries.last().0 {
            None
        } else {
            cached(entries, k)
        },
{
    let all = stored(entries, limit, key, data, time);
    let rest = all.drop_first();
    if cached(entries, key) is Some {
        assert(rest =~= others(entries, key));
        lemma_cached_others(entries, key, k);
    } else if entries.len() == limit {
        assert(rest =~= entries.drop_last());
        lemma_cached_none(entries, k);
        lemma_cached_none(rest, k);
        if k == entries.last().0 {
            assert forall|j: int| 0 <= j < rest.len() implies (#[trigger] rest[j]).0 != k by {
                assert(entries[j].0 != entries[entries.len() - 1].0);
            }
        } else if cached(entries, k) is Some {
            let i = choose|i: int| 0 <= i < entries.len() && (#[trigger] entries[i]).0 == k;
            assert(rest[i] == entries[i]);
            lemma_cached_at(entries, i);
            lemma_cached_at(rest, i);
        } else {
            assert forall|j: int| 0 <= j < rest.len() implies (#[trigger] rest[j]).0 != k by {
                assert(rest[j] == entries[j]);
            }
        }
    } else {
        assert(rest =~= entries);
    }
}

/// Something done with a cache: data is kept under a key, or a key is looked up.
pub enum CacheUse {
    Store { key: Seq<char>, data: Seq<u8>, time: u64 },
    Lookup { key: Seq<char> },
}

/// The key that a use is about.
pub open spec fn use_key(u: CacheUse) -> Seq<char> {
    match u {
        CacheUse::Store { key, .. } => key,
        CacheUse::Lookup { key } => key,
    }
}

/// The entries after one use.
pub open spec fn after_use(
    entries: Seq<(Seq<char>, Seq<u8>, u64)>,
    limit: nat,
    u: CacheUse,
) -> Seq<(Seq<char>, Seq<u8>, u64)> {
    match u {
        CacheUse::Store { key, data, time } => stored(entries, limit, key, data, time),
        CacheUse::Lookup { key } => touched(entries, key),
    }
}

/// The entries after a list of uses, one after the other.
pub open spec fn after_uses(
    entries: Seq<(Seq<char>, Seq<u8>, u64)>,
    limit: nat,
    uses: Seq<CacheUse>,
) -> Seq<(Seq<char>, Seq<u8>, u64)>
    decreases uses.len(),
{
    if uses.len() == 0 {
        entries
    } else {
        after_use(after_uses(entries, limit, uses.drop_last()), limit, uses.last())
    }
}

/// A use makes an entry under its key the one used last: a store does, and a lookup that finds one.
pub open spec fn moves_up(entries: Seq<(Seq<char>, Seq<u8>, u64)>, u: CacheUse) -> bool {
    u is Store || cached(entries, use_key(u)) is Some
}

/// The other keys that were stored, or looked up and found, in a list of uses.
pub open spec fn rivals(
    entries: Seq<(Seq<char>, Seq<u8>, u64)>,
    limit: nat,
    uses: Seq<CacheUse>,
    key: Seq<char>,
) -> Set<Seq<char>>
    decreases uses.len(),
{
    if uses.len() == 0 {
        Set::empty()
    } else {
        let before = uses.drop_last();
        if use_key(uses.last()) != key && moves_up(
            after_uses(entries, limit, before),
            uses.last(),
        ) {
            rivals(entries, limit, before, key).insert(use_key(uses.last()))
        } else {
            rivals(entries, limit, before, key)
        }
    }
}

/// No use in a list stores under a key.
pub open spec fn never_stored(uses: Seq<CacheUse>, key: Seq<char>) -> bool {
    forall|j: int| 0 <= j < uses.len() && (#[trigger] uses[j]) is Store ==> use_key(uses[j]) != key
}

/// An entry is at a place, and the keys of the entries before it are all among some keys.
spec fn is_behind(
    entries: Seq<(Seq<char>, Seq<u8>, u64)>,
    p: int,
    entry: (Seq<char>, Seq<u8>, u64),
    keys: Set<Seq<char>>,
) -> bool {
    &&& 0 <= p < entries.len()
    &&& entries[p] == entry
    &&& forall|j: int| 0 <= j < p ==> keys.contains((#[trigger] entries[j]).0)
}

/// Storing leaves distinct keys, and no more entries than the limit.
pub proof fn law_stored_within_limit(
    entries: Seq<(Seq<char>, Seq<u8>, u64)>,
    limit: nat,
    key: Seq<char>,
    data: Seq<u8>,
    time: u64,
)
    requires
        distinct(entries),
        0 < limit,
        entries.len() <= limit,
    ensures
        distinct(stored(entries, limit, key, data, time)),
        stored(entries, limit, key, data, time).len() <= limit,
{
    lemma_others(entries, key);
    let after = stored(entries, limit, key, data, time);
    if cached(entries, key) is None {
        assert forall|i: int, j: int| 0 <= i < j < after.len() implies (#[trigger] after[i]).0 != (
        #[trigger] after[j]).0 by {
            assert(after[j] == entries[j - 1]);
            if i > 0 {
                assert(after[i] == entries[i - 1]);
            }
        }
    } else {
        let rest = others(entries, key);
        assert forall|i: int, j: int| 0 <= i < j < after.len() implies (#[trigger] after[i]).0 != (
        #[trigger] after[j]).0 by {
            assert(after[j] == rest[j - 1]);
            if i > 0 {
                assert(after[i] == rest[i - 1]);
            }
        }
    }
}

/// Distinct keys that are all among some keys are no more than those.
proof fn lemma_place_bound(
    entries: Seq<(Seq<char>, Seq<u8>, u64)>,
    p: int,
    keys: Set<Seq<char>>,
)
    requires
        distinct(entries),
        0 <= p <= entries.len(),
        forall|j: int| 0 <= j < p ==> keys.contains((#[trigger] entries[j]).0),
        keys.finite(),
    ensures
        p <= keys.len(),
{
    let names = Seq::new(p as nat, |j: int| entries[j].0);
    assert(names.no_duplicates()) by {
        assert forall|a: int, b: int|
            0 <= a < names.len() && 0 <= b < names.len() && a != b implies names[a] != names[b] by {
            if a < b {
                assert(entries[a].0 != entries[b].0);
            } else {
                assert(entries[b].0 != entries[a].0);
            }
        }
    }
    names.unique_seq_to_set();
    assert(names.to_set().subset_of(keys)) by {
        assert forall|k: Seq<char>| names.to_set().contains(k) implies keys.contains(k) by {
            let j = choose|j: int| 0 <= j < names.len() && names[j] == k;
            assert(keys.contains(entries[j].0));
        }
    }
    vstd::set_lib::lemma_len_subset(names.to_set(), keys);
}

/// An entry behind few enough keys stays through one use of another key, and through a lookup of
/// its own.
proof fn lemma_one_use(
    entries: Seq<(Seq<char>, Seq<u8>, u64)>,
    limit: nat,
    u: CacheUse,
    p: int,
    entry: (Seq<char>, Seq<u8>, u64),
    keys: Set<Seq<char>>,
) -> (q: int)
    requires
        distinct(entries),
        entries.len() <= limit,
        is_behind(entries, p, entry, keys),
        keys.finite(),
        keys.len() < limit,
        u is Store ==> use_key(u) != entry.0,
        use_key(u) != entry.0 && moves_up(entries, u) ==> keys.contains(use_key(u)),
    ensures
        distinct(after_use(entries, limit, u)),
        after_use(entries, limit, u).len() <= limit,
        is_behind(after_use(entries, limit, u), q, entry, keys),
{
    let key = use_key(u);
    let after = after_use(entries, limit, u);
    lemma_others(entries, key);
    lemma_cached_none(entries, key);
    match u {
        CacheUse::Store { key, data, time } => {
            law_stored_within_limit(entries, limit, key, data, time);
        },
        CacheUse::Lookup { .. } => {},
    }
    if cached(entries, key) is Some {
        let m = choose|m: int| 0 <= m < entries.len() && (#[trigger] entries[m]).0 == key;
        lemma_others_at(entries, m);
        lemma_cached_at(entries, m);
        let rest = others(entries, key);
        assert forall|j: int| 0 < j < after.len() implies #[trigger] after[j] == entries[if j - 1
            < m {
            j - 1
        } else {
            j
        }] by {
            assert(after[j] == rest[j - 1]);
        }
        if key == entry.0 {
            assert(m == p) by {
                if m < p {
                    assert(entries[m].0 != entries[p].0);
                } else if p < m {
                    assert(entries[p].0 != entries[m].0);
                }
            }
            assert(after[0] == entry);
            0
        } else if m < p {
            p
        } else {
            p + 1
        }
    } else if u is Store {
        assert forall|j: int| 0 < j < after.len() implies #[trigger] after[j] == entries[j - 1] by {}
        let all = seq![after[0]] + entries;
        assert(distinct(all)) by {
            assert forall|i: int, j: int| 0 <= i < j < all.len() implies (#[trigger] all[i]).0 != (
            #[trigger] all[j]).0 by {
                assert(all[j] == entries[j - 1]);
                if i > 0 {
                    assert(all[i] == entries[i - 1]);
                }
            }
        }
        assert forall|j: int| 0 <= j < p + 1 implies keys.contains((#[trigger] all[j]).0) by {
            if j > 0 {
                assert(all[j] == entries[j - 1]);
            }
        }
        lemma_place_bound(all, p + 1, keys);
        p + 1
    } else {
        p
    }
}

/// An entry behind few enough keys stays through a list of uses.
proof fn lemma_many_uses(
    entries: Seq<(Seq<char>, Seq<u8>, u64)>,
    limit: nat,
    uses: Seq<CacheUse>,
    p: int,
    entry: (Seq<char>, Seq<u8>, u64),
    keys: Set<Seq<char>>,
) -> (q: int)
    requires
        distinct(entries),
        entries.len() <= limit,
        is_behind(entries, p, entry, keys),
        keys.finite(),
        keys.len() < limit,
        never_stored(uses, entry.0),
        rivals(entries, limit, uses, entry.0).subset_of(keys),
    ensures
        distinct(after_uses(entries, limit, uses)),
        after_uses(entries, limit, uses).len() <= limit,
        is_behind(after_uses(entries, limit, uses), q, entry, keys),
    decreases uses.len(),
{
    if uses.len() == 0 {
        p
    } else {
        let before = uses.drop_last();
        assert forall|j: int| 0 <= j < before.len() && (#[trigger] before[j]) is Store implies use_key(
            before[j],
        ) != entry.0 by {
            assert(uses[j] == before[j]);
        }
        assert(uses[uses.len() - 1] == uses.last());
        let r = lemma_many_uses(entries, limit, before, p, entry, keys);
        lemma_one_use(after_uses(entries, limit, before), limit, uses.last(), r, entry, keys)
    }
}

/// The other keys of a list of uses are finitely many.
proof fn lemma_rivals_finite(
    entries: Seq<(Seq<char>, Seq<u8>, u64)>,
    limit: nat,
    uses: Seq<CacheUse>,
    key: Seq<char>,
)
    ensures
        rivals(entries, limit, uses, key).finite(),
    decreases uses.len(),
{
    if uses.len() > 0 {
        lemma_rivals_finite(entries, limit, uses.drop_last(), key);
    }
}

/// An entry at place `i`, counted from the one used last, stays as long as fewer than `limit - i`
/// other keys are stored, or looked up and found, after it. A look under its key then gives its
/// data for an hour, and no longer.
pub proof fn law_entry_survives(
    entries: Seq<(Seq<char>, Seq<u8>, u64)>,
    limit: nat,
    i: int,
    uses: Seq<CacheUse>,
    now: u64,
)
    requires
        distinct(entries),
        entries.len() <= limit,
        0 <= i < entries.len(),
        never_stored(uses, entries[i].0),
        rivals(entries, limit, uses, entries[i].0).len() < limit - i,
    ensures
        cached(after_uses(entries, limit, uses), entries[i].0) == Some(
            (entries[i].1, entries[i].2),
        ),
        young_data(after_uses(entries, limit, uses), entries[i].0, now) == if now - entries[i].2
            < CACHE_LIFE {
            Some(entries[i].1)
        } else {
            None
        },
{
    let entry = entries[i];
    let names = Seq::new(i as nat, |j: int| entries[j].0);
    let later = rivals(entries, limit, uses, entry.0);
    let keys = names.to_set().union(later);
    lemma_rivals_finite(entries, limit, uses, entry.0);
    vstd::seq_lib::seq_to_set_is_finite(names);
    names.lemma_cardinality_of_set();
    vstd::set_lib::lemma_len_union(names.to_set(), later);
    assert forall|j: int| 0 <= j < i implies keys.contains((#[trigger] entries[j]).0) by {
        assert(names[j] == entries[j].0);
        assert(names.to_set().contains(names[j]));
    }
    let q = lemma_many_uses(entries, limit, uses, i, entry, keys);
    lemma_cached_at(after_uses(entries, limit, uses), q);
}

/// What is kept under a key is what the first entry with that key holds.
pub proof fn law_first_entry_is_kept(
    entry: (Seq<char>, Seq<u8>, u64),
    rest: Seq<(Seq<char>, Seq<u8>, u64)>,
    key: Seq<char>,
)
    ensures
        cached(seq![], key) is None,
        cached(seq![entry] + rest, key) == if entry.0 == key {
            Some((entry.1, entry.2))
        } else {
            cached(rest, key)
        },
{
    assert((seq![entry] + rest).drop_first() =~= rest);
}

/// A look under a key gives the data of its entry if less than 3600 seconds have passed since it
/// came in, and nothing otherwise.
pub proof fn law_entry_is_given_for_an_hour(
    entries: Seq<(Seq<char>, Seq<u8>, u64)>,
    i: int,
    key: Seq<char>,
    now: u64,
)
    requires
        distinct(entries),
    ensures
        0 <= i < entries.len() ==> young_data(entries, entries[i].0, now) == if now - entries[i].2
            < 3600 * 1_000_000_000 {
            Some(entries[i].1)
        } else {
            None
        },
        (forall|j: int| 0 <= j < entries.len() ==> (#[trigger] entries[j]).0 != key) ==> young_data(
            entries,
            key,
            now,
        ) is None,
{
    if 0 <= i < entries.len() {
        lemma_cached_at(entries, i);
    }
    lemma_cached_none(entries, key);
}

/// A use of an entry puts it before all others, which keep their order; a key without an entry
/// changes nothing.
pub proof fn law_used_entry_comes_first(
    entries: Seq<(Seq<char>, Seq<u8>, u64)>,
    i: int,
    key: Seq<char>,
)
    requires
        distinct(entries),
    ensures
        0 <= i < entries.len() ==> touched(entries, entries[i].0) == seq![entries[i]]
            + entries.remove(i),
        (forall|j: int| 0 <= j < entries.len() ==> (#[trigger] entries[j]).0 != key) ==> touched(
            entries,
            key,
        ) == entries,
{
    if 0 <= i < entries.len() {
        lemma_cached_at(entries, i);
        lemma_others_at(entries, i);
    }
    lemma_cached_none(entries, key);
}

/// What is stored comes before all others, which keep their order. It takes the place of the entry
/// under the same key; under a new key it is one more, and a full cache loses its last entry.
pub proof fn law_stored_entry_comes_first(
    entries: Seq<(Seq<char>, Seq<u8>, u64)>,
    limit: nat,
    i: int,
    key: Seq<char>,
    data: Seq<u8>,
    time: u64,
)
    requires
        distinct(entries),
        0 < limit,
        entries.len() <= limit,
    ensures
        0 <= i < entries.len() ==> stored(entries, limit, entries[i].0, data, time) == seq![
            (entries[i].0, data, time),
        ] + entries.remove(i),
        (forall|j: int| 0 <= j < entries.len() ==> (#[trigger] entries[j]).0 != key) ==> stored(
            entries,
            limit,
            key,
            data,
            time,
        ) == seq![(key, data, time)] + (if entries.len() < limit {
            entries
        } else {
            entries.drop_last()
        }),
{
    if 0 <= i < entries.len() {
        lemma_cached_at(entries, i);
        lemma_others_at(entries, i);
    }
    lemma_cached_none(entries, key);
}

/// A hundred images are kept.
pub proof fn law_a_hundred_images_are_kept(cache: ResponseCache)
    requires
        cache.wf(),
    ensures
        cache.entries().len() <= 100,
        CACHE_LIMIT == 100,
        distinct(cache.entries()),
{
}

/// The key of some data is its MD5 digest, each byte in two lower-case hexadecimal digits.
pub proof fn law_key_is_the_digest(data: Seq<u8>, i: int)
    requires
        0 <= i < md5_of(data).len(),
    ensures
        key_of(data).len() == 2 * md5_of(data).len(),
        ({
            let high = key_of(data)[2 * i];
            let low = key_of(data)[2 * i + 1];
            &&& '0' <= high <= '9' || 'a' <= high <= 'f'
            &&& '0' <= low <= '9' || 'a' <= low <= 'f'
            &&& md5_of(data)[i] == 16 * (if high <= '9' {
                high as int - 48
            } else {
                high as int - 87
            }) + (if low <= '9' {
                low as int - 48
            } else {
                low as int - 87
            })
        }),
{
    crate::text::law_hex_has_the_value(md5_of(data), i);
}

/// Entries are distinct exactly if no two of them, at different places, have the same key.
pub proof fn law_distinct_keys(entries: Seq<(Seq<char>, Seq<u8>, u64)>)
    ensures
        distinct(entries) <==> entries.map_values(
            |e: (Seq<char>, Seq<u8>, u64)| e.0,
        ).no_duplicates(),
{
    let keys = entries.map_values(|e: (Seq<char>, Seq<u8>, u64)| e.0);
    if distinct(entries) {
        assert forall|a: int, b: int|
            0 <= a < keys.len() && 0 <= b < keys.len() && a != b implies keys[a] != keys[b] by {
            if a < b {
                assert(entries[a].0 != entries[b].0);
            } else {
                assert(entries[b].0 != entries[a].0);
            }
        }
    }
    if keys.no_duplicates() {
        assert forall|a: int, b: int| 0 <= a < b < entries.len() implies (#[trigger] entries[a]).0
            != (#[trigger] entries[b]).0 by {
            assert(keys[a] != keys[b]);
        }
    }
}

} // verus!
