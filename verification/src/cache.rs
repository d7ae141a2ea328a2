//! A cache of responses by key, in which entries expire after a maximum age
//! and the oldest entries make room when the cache is full.

use vstd::prelude::*;

verus! {

/// A cached value and the time it was stored, in nanoseconds since the Unix
/// epoch.
pub struct CachedValue {
    pub value: String,
    pub timestamp: u128,
}

/// A `CachedValue` with its text as a character sequence.
pub struct CachedValueView {
    pub value: Seq<char>,
    pub timestamp: u128,
}

impl View for CachedValue {
    type V = CachedValueView;

    open spec fn view(&self) -> CachedValueView {
        CachedValueView { value: self.value@, timestamp: self.timestamp }
    }
}

/// Whether a value stored at `cached.timestamp` is expired at time `now`: it
/// is older than `max_age`, or it was stored after `now`.
pub open spec fn entry_expired(cached: CachedValueView, now: u128, max_age: u128) -> bool {
    now < cached.timestamp || now - cached.timestamp > max_age
}

/// The value a cache holds under `key` that is not expired at time `now`.
pub open spec fn active_value(cache: ResponseCacheView, key: Seq<char>, now: u128) -> Option<Seq<char>> {
    if cache.map.dom().contains(key) && !entry_expired(cache.map[key], now, cache.max_age) {
        Some(cache.map[key].value)
    } else {
        None
    }
}

/// The entries of a cache that are not expired at time `now`.
pub open spec fn fresh_entries(cache: ResponseCacheView, now: u128) -> Map<Seq<char>, CachedValueView> {
    cache.map.filter_keys(|k: Seq<char>| !entry_expired(cache.map[k], now, cache.max_age))
}

/// What making room for one more entry at time `now` leaves in a cache. A
/// cache that is not full stays as it is. A full cache loses its expired
/// entries; if it is still full, it loses its oldest entries, each no newer
/// than any entry kept, until exactly one place is free.
pub open spec fn room_made(before: ResponseCacheView, after: ResponseCacheView, now: u128) -> bool {
    let fresh = fresh_entries(before, now);
    &&& after.map.dom().finite()
    &&& after.max_age == before.max_age
    &&& after.max_size == before.max_size
    &&& before.map.len() < before.max_size ==> after.map == before.map
    &&& before.map.len() >= before.max_size ==> {
        &&& forall|k: Seq<char>|
            #[trigger] after.map.dom().contains(k) ==> fresh.dom().contains(k) && after.map[k]
                == fresh[k]
        &&& forall|k: Seq<char>|
            #[trigger] fresh.dom().contains(k) && !after.map.dom().contains(k) ==> forall|k2: Seq<char>|
                #[trigger] after.map.dom().contains(k2) ==> fresh[k].timestamp
                    <= after.map[k2].timestamp
        &&& fresh.len() < before.max_size ==> after.map == fresh
        &&& fresh.len() >= before.max_size ==> after.map.len() + 1 == before.max_size
    }
}

/// What storing `value` under `key` at time `now` leaves in a cache: the
/// cache after making room (see `room_made`) with that entry stored. So:
/// that entry; no other key that was not there before, and no other value
/// changed; nothing removed while the cache was not full; only expired
/// entries, or entries no newer than any other entry kept, removed; and, when
/// the cache may hold at least one entry, no more entries than it may hold.
pub open spec fn item_added(
    before: ResponseCacheView,
    after: ResponseCacheView,
    key: Seq<char>,
    value: Seq<char>,
    now: u128,
) -> bool {
    &&& exists|room: ResponseCacheView|
        #[trigger] room_made(before, room, now) && after.map == room.map.insert(
            key,
            CachedValueView { value, timestamp: now },
        )
    &&& after.map.dom().contains(key)
    &&& after.map[key] == (CachedValueView { value, timestamp: now })
    &&& forall|k: Seq<char>|
        #[trigger] after.map.dom().contains(k) && k != key ==> before.map.dom().contains(k)
            && after.map[k] == before.map[k]
    &&& before.map.len() < before.max_size ==> after.map == before.map.insert(
        key,
        CachedValueView { value, timestamp: now },
    )
    &&& forall|k: Seq<char>|
        #[trigger] before.map.dom().contains(k) && !after.map.dom().contains(k) ==> entry_expired(
            before.map[k],
            now,
            before.max_age,
        ) || (forall|k2: Seq<char>|
            #[trigger] after.map.dom().contains(k2) && k2 != key ==> before.map[k].timestamp
                <= after.map[k2].timestamp)
    &&& before.max_size > 0 ==> after.map.len() <= before.max_size
    &&& after.max_age == before.max_age
    &&& after.max_size == before.max_size
}

/// What removing the entries expired at time `now` leaves: exactly the
/// entries that are not expired, unchanged.
pub open spec fn pruned_at(before: ResponseCacheView, after: ResponseCacheView, now: u128) -> bool {
    &&& forall|k: Seq<char>|
        #[trigger] after.map.dom().contains(k) <==> before.map.dom().contains(k) && !entry_expired(
            before.map[k],
            now,
            before.max_age,
        )
    &&& forall|k: Seq<char>| #[trigger] after.map.dom().contains(k) ==> after.map[k] == before.map[k]
    &&& after.max_age == before.max_age
    &&& after.max_size == before.max_size
}

struct CacheEntry {
    key: String,
    cached: CachedValue,
}

/// The map from keys to values that a list of entries stands for.
closed spec fn entries_map(s: Seq<CacheEntry>) -> Map<Seq<char>, CachedValueView>
    decreases s.len(),
{
    if s.len() == 0 {
        Map::empty()
    } else {
        entries_map(s.drop_last()).insert(s.last().key@, s.last().cached@)
    }
}

closed spec fn distinct_keys(s: Seq<CacheEntry>) -> bool {
    forall|i: int, j: int| 0 <= i < j < s.len() ==> s[i].key@ != s[j].key@
}

proof fn lemma_entries_map(s: Seq<CacheEntry>)
    ensures
        entries_map(s).dom().finite(),
        forall|k: Seq<char>|
            entries_map(s).dom().contains(k) <==> exists|i: int| 0 <= i < s.len() && s[i].key@ == k,
        distinct_keys(s) ==> forall|i: int|
            0 <= i < s.len() ==> #[trigger] entries_map(s)[s[i].key@] == s[i].cached@,
        distinct_keys(s) ==> entries_map(s).len() == s.len(),
    decreases s.len(),
{
    if s.len() > 0 {
        let t = s.drop_last();
        lemma_entries_map(t);
        assert forall|k: Seq<char>|
            entries_map(s).dom().contains(k) <==> exists|i: int|
                0 <= i < s.len() && s[i].key@ == k by {
            if entries_map(t).dom().contains(k) {
                let i = choose|i: int| 0 <= i < t.len() && t[i].key@ == k;
                assert(s[i] == t[i]);
            }
            if exists|i: int| 0 <= i < s.len() && s[i].key@ == k {
                let i = choose|i: int| 0 <= i < s.len() && s[i].key@ == k;
                if i < s.len() - 1 {
                    assert(t[i] == s[i]);
                }
            }
        }
        if distinct_keys(s) {
            assert(distinct_keys(t));
            assert forall|i: int| 0 <= i < s.len() implies #[trigger] entries_map(s)[s[i].key@]
                == s[i].cached@ by {
                if i < s.len() - 1 {
                    assert(t[i] == s[i]);
                }
            }
            assert(!entries_map(t).dom().contains(s.last().key@));
        }
    }
}


proof fn lemma_entries_remove(s: Seq<CacheEntry>, i: int)
    requires
        distinct_keys(s),
        0 <= i < s.len(),
    ensures
        distinct_keys(s.remove(i)),
        entries_map(s.remove(i)) == entries_map(s).remove(s[i].key@),
{
    let r = s.remove(i);
    assert forall|a: int, b: int| 0 <= a < b < r.len() implies r[a].key@ != r[b].key@ by {
        let a2 = if a < i {
            a
        } else {
            a + 1
        };
        let b2 = if b < i {
            b
        } else {
            b + 1
        };
        assert(r[a] == s[a2] && r[b] == s[b2]);
    }
    lemma_entries_map(s);
    lemma_entries_map(r);
    let m = entries_map(s).remove(s[i].key@);
    assert forall|k: Seq<char>| entries_map(r).dom().contains(k) <==> m.dom().contains(k) by {
        if entries_map(r).dom().contains(k) {
            let a = choose|a: int| 0 <= a < r.len() && r[a].key@ == k;
            let a2 = if a < i {
                a
            } else {
                a + 1
            };
            assert(r[a] == s[a2]);
        }
        if m.dom().contains(k) {
            let a = choose|a: int| 0 <= a < s.len() && s[a].key@ == k;
            assert(a != i);
            let a2 = if a < i {
                a
            } else {
                a - 1
            };
            assert(r[a2] == s[a]);
        }
    }
    assert forall|k: Seq<char>| #[trigger] entries_map(r).dom().contains(k) implies entries_map(r)[k]
        == m[k] by {
        let a = choose|a: int| 0 <= a < r.len() && r[a].key@ == k;
        let a2 = if a < i {
            a
        } else {
            a + 1
        };
        assert(r[a] == s[a2]);
        assert(entries_map(r)[r[a].key@] == r[a].cached@);
        assert(entries_map(s)[s[a2].key@] == s[a2].cached@);
    }
    assert(entries_map(r) =~= m);
}

proof fn lemma_entries_update(s: Seq<CacheEntry>, i: int, e: CacheEntry)
    requires
        distinct_keys(s),
        0 <= i < s.len(),
        e.key@ == s[i].key@,
    ensures
        distinct_keys(s.update(i, e)),
        entries_map(s.update(i, e)) == entries_map(s).insert(e.key@, e.cached@),
{
    let r = s.update(i, e);
    assert forall|a: int, b: int| 0 <= a < b < r.len() implies r[a].key@ != r[b].key@ by {
        assert(r[a].key@ == s[a].key@ && r[b].key@ == s[b].key@);
    }
    lemma_entries_map(s);
    lemma_entries_map(r);
    let m = entries_map(s).insert(e.key@, e.cached@);
    assert forall|k: Seq<char>| entries_map(r).dom().contains(k) <==> m.dom().contains(k) by {
        if entries_map(r).dom().contains(k) {
            let a = choose|a: int| 0 <= a < r.len() && r[a].key@ == k;
            assert(s[a].key@ == k);
        }
        if m.dom().contains(k) && k != e.key@ {
            let a = choose|a: int| 0 <= a < s.len() && s[a].key@ == k;
            assert(r[a].key@ == k);
        }
        assert(r[i].key@ == e.key@);
    }
    assert forall|k: Seq<char>| #[trigger] entries_map(r).dom().contains(k) implies entries_map(r)[k]
        == m[k] by {
        let a = choose|a: int| 0 <= a < r.len() && r[a].key@ == k;
        assert(entries_map(r)[r[a].key@] == r[a].cached@);
        if a != i {
            assert(entries_map(s)[s[a].key@] == s[a].cached@);
        }
    }
    assert(entries_map(r) =~= m);
}

proof fn lemma_entries_push(s: Seq<CacheEntry>, e: CacheEntry)
    requires
        distinct_keys(s),
        !entries_map(s).dom().contains(e.key@),
    ensures
        distinct_keys(s.push(e)),
        entries_map(s.push(e)) == entries_map(s).insert(e.key@, e.cached@),
{
    lemma_entries_map(s);
    let r = s.push(e);
    assert forall|a: int, b: int| 0 <= a < b < r.len() implies r[a].key@ != r[b].key@ by {
        if b == s.len() {
            assert(r[a] == s[a]);
        } else {
            assert(r[a] == s[a] && r[b] == s[b]);
        }
    }
    assert(r.drop_last() =~= s);
}

/// A strictly increasing sequence of indices below `n` has at most `n` elements.
proof fn lemma_increasing_bounded(idx: Seq<int>, n: int)
    requires
        n >= 0,
        forall|a: int| 0 <= a < idx.len() ==> 0 <= #[trigger] idx[a] < n,
        forall|a: int, b: int| 0 <= a < b < idx.len() ==> idx[a] < idx[b],
    ensures
        idx.len() <= n,
    decreases idx.len(),
{
    if idx.len() > 0 {
        let t = idx.drop_last();
        assert forall|a: int| 0 <= a < t.len() implies 0 <= #[trigger] t[a] < idx.last() by {
            assert(t[a] == idx[a]);
        }
        assert forall|a: int, b: int| 0 <= a < b < t.len() implies t[a] < t[b] by {
            assert(t[a] == idx[a] && t[b] == idx[b]);
        }
        assert(0 <= idx[idx.len() - 1] < n);
        lemma_increasing_bounded(t, idx.last());
    }
}

/// A cache of string values by string key. Entries older than the maximum
/// age count as absent; when the cache is full, expired entries and then the
/// oldest entries are dropped to make room.
///
/// The entries are kept in a `Vec` with distinct keys rather than in a
/// `HashMap<String, CachedValue>`: vstd's specification of `HashMap` holds
/// only for key types that satisfy `obeys_key_model`, which vstd grants to
/// primitive types and not to `String` (it can only be assumed), so with
/// `String` keys no lookup, insertion or removal would have a usable
/// contract. The view is the same map either way.
pub struct ResponseCache {
    entries: Vec<CacheEntry>,
    max_age: u128,
    max_size: usize,
}

/// A cache as the map from keys to stored values, with its maximum age and
/// size.
pub struct ResponseCacheView {
    pub map: Map<Seq<char>, CachedValueView>,
    pub max_age: u128,
    pub max_size: usize,
}

impl View for ResponseCache {
    type V = ResponseCacheView;

    closed spec fn view(&self) -> ResponseCacheView {
        ResponseCacheView {
            map: entries_map(self.entries@),
            max_age: self.max_age,
            max_size: self.max_size,
        }
    }
}

impl ResponseCache {
    #[verifier::type_invariant]
    closed spec fn well_formed(self) -> bool {
        distinct_keys(self.entries@)
    }

    /// The index of the entry with the given key.
    fn find_index(&self, key: &String) -> (r: Option<usize>)
        ensures
            match r {
                Some(i) => i < self.entries@.len() && self.entries@[i as int].key@ == key@,
                None => !self@.map.dom().contains(key@),
            },
    {
        proof {
            lemma_entries_map(self.entries@);
        }
        let mut i: usize = 0;
        while i < self.entries.len()
            invariant
                i <= self.entries@.len(),
                forall|j: int| 0 <= j < i ==> self.entries@[j].key@ != key@,
            decreases self.entries.len() - i,
        {
            if self.entries[i].key.eq(key) {
                return Some(i);
            }
            i = i + 1;
        }
        None
    }

    /// Replaces the value under `key`, or adds it.
    fn insert_entry(&mut self, key: String, cached: CachedValue)
        ensures
            final(self)@.map == old(self)@.map.insert(key@, cached@),
            final(self)@.max_age == old(self)@.max_age,
            final(self)@.max_size == old(self)@.max_size,
    {
        proof {
            use_type_invariant(&*self);
        }
        let ghost old_entries = self.entries@;
        let e = CacheEntry { key, cached };
        let found = self.find_index(&e.key);
        let mut entries: Vec<CacheEntry> = Vec::new();
        std::mem::swap(&mut entries, &mut self.entries);
        match found {
            Some(i) => {
                proof {
                    lemma_entries_update(old_entries, i as int, e);
                }
                entries.set(i, e);
            },
            None => {
                proof {
                    lemma_entries_push(old_entries, e);
                }
                entries.push(e);
            },
        }
        self.entries = entries;
    }

    /// Removes the entry at index `i`.
    fn remove_at(&mut self, i: usize)
        requires
            i < old(self).entries@.len(),
        ensures
            final(self)@.map == old(self)@.map.remove(old(self).entries@[i as int].key@),
            final(self)@.max_age == old(self)@.max_age,
            final(self)@.max_size == old(self)@.max_size,
    {
        proof {
            use_type_invariant(&*self);
            lemma_entries_remove(self.entries@, i as int);
        }
        let mut entries: Vec<CacheEntry> = Vec::new();
        std::mem::swap(&mut entries, &mut self.entries);
        entries.remove(i);
        self.entries = entries;
    }

    /// A cache holds finitely many entries.
    pub proof fn lemma_view_finite(self)
        ensures
            self@.map.dom().finite(),
    {
        lemma_entries_map(self.entries@);
    }

    /// An empty cache that holds at most `max_size` entries, each for at most
    /// `max_age` nanoseconds.
    pub fn new(max_size: usize, max_age: u128) -> (r: ResponseCache)
        ensures
            r@.map == Map::<Seq<char>, CachedValueView>::empty(),
            r@.max_size == max_size,
            r@.max_age == max_age,
    {
        let r = ResponseCache { entries: Vec::new(), max_age, max_size };
        assert(r@.map =~= Map::<Seq<char>, CachedValueView>::empty());
        r
    }

    /// An empty cache for 50 entries of at most 15 minutes.
    pub fn with_defaults() -> (r: ResponseCache)
        ensures
            r@.map == Map::<Seq<char>, CachedValueView>::empty(),
            r@.max_size == 50,
            r@.max_age == 900_000_000_000,
    {
        ResponseCache::new(50, 900_000_000_000)
    }

    /// The entry under `key`, expired or not.
    pub fn get_item(&self, key: &String) -> (r: Option<&CachedValue>)
        ensures
            match r {
                Some(v) => self@.map.dom().contains(key@) && v@ == self@.map[key@],
                None => !self@.map.dom().contains(key@),
            },
    {
        proof {
            use_type_invariant(self);
            lemma_entries_map(self.entries@);
        }
        match self.find_index(key) {
            Some(i) => Some(&self.entries[i].cached),
            None => None,
        }
    }

    /// Whether `entry` is expired at time `now` (see `entry_expired`).
    pub fn is_expired_at(&self, entry: &CachedValue, now: u128) -> (r: bool)
        ensures
            r == entry_expired(entry@, now, self@.max_age),
    {
        now < entry.timestamp || now - entry.timestamp > self.max_age
    }

    /// Whether `entry` is expired now.
    pub fn is_expired(&self, entry: &CachedValue) -> (r: bool)
        ensures
            exists|now: u128| r == entry_expired(entry@, now, self@.max_age),
    {
        let now = now_nanos();
        let r = self.is_expired_at(entry, now);
        assert(r == entry_expired(entry@, now, self@.max_age));
        r
    }

    /// The value under `key` if it is not expired at time `now`.
    pub fn get_active_value_at(&self, key: &String, now: u128) -> (r: Option<&String>)
        ensures
            r.deep_view() == active_value(self@, key@, now),
    {
        let entry = match self.get_item(key) {
            Some(entry) => entry,
            None => return None,
        };
        if self.is_expired_at(entry, now) {
            None
        } else {
            Some(&entry.value)
        }
    }

    /// The value under `key` if it is not expired now.
    pub fn get_active_value(&self, key: &String) -> (r: Option<&String>)
        ensures
            exists|now: u128| r.deep_view() == #[trigger] active_value(self@, key@, now),
    {
        let now = now_nanos();
        let r = self.get_active_value_at(key, now);
        assert(r.deep_view() == active_value(self@, key@, now));
        r
    }

    /// Removes every entry that is expired at time `now`, and returns how many
    /// it removed.
    fn remove_expired_at(&mut self, now: u128) -> (r: usize)
        ensures
            forall|k: Seq<char>|
                #[trigger] final(self)@.map.dom().contains(k) <==> old(self)@.map.dom().contains(k)
                    && !entry_expired(old(self)@.map[k], now, old(self)@.max_age),
            forall|k: Seq<char>|
                #[trigger] final(self)@.map.dom().contains(k) ==> final(self)@.map[k] == old(
                    self,
                )@.map[k],
            r == old(self)@.map.len() - final(self)@.map.len(),
            final(self)@.max_age == old(self)@.max_age,
            final(self)@.max_size == old(self)@.max_size,
    {
        proof {
            use_type_invariant(&*self);
            lemma_entries_map(self.entries@);
        }
        let ghost orig = self@.map;
        let ghost entries = self.entries@;
        let mut keys_to_delete: Vec<String> = Vec::new();
        let ghost mut idx: Seq<int> = Seq::empty();
        let mut i: usize = 0;
        while i < self.entries.len()
            invariant
                i <= entries.len(),
                entries == self.entries@,
                distinct_keys(entries),
                idx.len() == keys_to_delete@.len(),
                forall|a: int|
                    0 <= a < idx.len() ==> 0 <= #[trigger] idx[a] < i && keys_to_delete@[a]@
                        == entries[idx[a]].key@ && entry_expired(
                        entries[idx[a]].cached@,
                        now,
                        self.max_age,
                    ),
                forall|a: int, b: int| 0 <= a < b < idx.len() ==> idx[a] < idx[b],
                forall|j: int|
                    0 <= j < i && entry_expired(#[trigger] entries[j].cached@, now, self.max_age)
                        ==> exists|a: int| 0 <= a < idx.len() && idx[a] == j,
            decreases entries.len() - i,
        {
            let ghost idx_before = idx;
            if self.is_expired_at(&self.entries[i].cached, now) {
                keys_to_delete.push(self.entries[i].key.clone());
                proof {
                    idx = idx.push(i as int);
                    assert(idx[idx.len() - 1] == i);
                }
            }
            proof {
                assert forall|j: int|
                    0 <= j < i + 1 && entry_expired(
                        #[trigger] entries[j].cached@,
                        now,
                        self.max_age,
                    ) implies exists|a: int| 0 <= a < idx.len() && idx[a] == j by {
                    if j == i {
                        assert(idx[idx.len() - 1] == j);
                    } else {
                        let a = choose|a: int| 0 <= a < idx_before.len() && idx_before[a] == j;
                        assert(idx[a] == j);
                    }
                }
            }
            i = i + 1;
        }
        let ghost removed_all = Set::new(
            |k: Seq<char>| exists|a: int| 0 <= a < keys_to_delete@.len() && keys_to_delete@[a]@ == k,
        );
        proof {
            assert forall|k: Seq<char>|
                removed_all.contains(k) <==> orig.dom().contains(k) && entry_expired(
                    orig[k],
                    now,
                    self.max_age,
                ) by {
                if removed_all.contains(k) {
                    let a = choose|a: int|
                        0 <= a < keys_to_delete@.len() && keys_to_delete@[a]@ == k;
                    assert(orig[entries[idx[a]].key@] == entries[idx[a]].cached@);
                }
                if orig.dom().contains(k) && entry_expired(orig[k], now, self.max_age) {
                    let j = choose|j: int| 0 <= j < entries.len() && entries[j].key@ == k;
                    assert(orig[entries[j].key@] == entries[j].cached@);
                    assert(entry_expired(entries[j].cached@, now, self.max_age));
                    let a = choose|a: int| 0 <= a < idx.len() && idx[a] == j;
                    assert(keys_to_delete@[a]@ == k);
                }
            }
        }
        proof {
            lemma_increasing_bounded(idx, entries.len() as int);
            assert forall|a: int| 0 <= a < keys_to_delete@.len() implies orig.dom().contains(
                #[trigger] keys_to_delete@[a]@,
            ) by {
                assert(entries[idx[a]].key@ == keys_to_delete@[a]@);
            }
            assert(orig.remove_keys(
                Set::new(|k: Seq<char>| exists|a: int| 0 <= a < 0 && keys_to_delete@[a]@ == k),
            ) =~= orig);
        }
        let mut count: usize = 0;
        let mut j: usize = 0;
        while j < keys_to_delete.len()
            invariant
                j <= keys_to_delete@.len(),
                count == j,
                keys_to_delete@.len() <= orig.len(),
                orig.dom().finite(),
                idx.len() == keys_to_delete@.len(),
                distinct_keys(entries),
                forall|a: int|
                    0 <= a < idx.len() ==> 0 <= #[trigger] idx[a] < entries.len() && keys_to_delete@[a]@
                        == entries[idx[a]].key@,
                forall|a: int, b: int| 0 <= a < b < idx.len() ==> idx[a] < idx[b],
                forall|a: int| 0 <= a < keys_to_delete@.len() ==> orig.dom().contains(#[trigger] keys_to_delete@[a]@),
                self@.map == orig.remove_keys(
                    Set::new(|k: Seq<char>| exists|a: int| 0 <= a < j && keys_to_delete@[a]@ == k),
                ),
                self@.map.dom().finite(),
                self@.map.len() == orig.len() - j,
                self@.max_age == old(self)@.max_age,
                self@.max_size == old(self)@.max_size,
            decreases keys_to_delete.len() - j,
        {
            let ghost before = Set::new(
                |k: Seq<char>| exists|a: int| 0 <= a < j && keys_to_delete@[a]@ == k,
            );
            let ghost after = Set::new(
                |k: Seq<char>| exists|a: int| 0 <= a < j + 1 && keys_to_delete@[a]@ == k,
            );
            let ghost key = keys_to_delete@[j as int]@;
            proof {
                assert forall|a: int| 0 <= a < j implies keys_to_delete@[a]@ != key by {
                    assert(idx[a] < idx[j as int]);
                }
                assert(!before.contains(key));
                assert(self@.map.dom().contains(key));
                assert(after =~= before.insert(key));
            }
            match self.find_index(&keys_to_delete[j]) {
                Some(index) => {
                    self.remove_at(index);
                },
                None => {},
            }
            proof {
                assert(self@.map =~= orig.remove_keys(after));
            }
            count = count + 1;
            j = j + 1;
        }
        proof {
            let fin = Set::new(
                |k: Seq<char>| exists|a: int| 0 <= a < j && keys_to_delete@[a]@ == k,
            );
            assert(fin =~= removed_all);
        }
        count
    }

    /// Removes every entry that is expired at time `now`, and returns how many
    /// it removed.
    pub fn prune_at(&mut self, now: u128) -> (r: i32)
        requires
            old(self)@.map.len() <= i32::MAX,
        ensures
            pruned_at(old(self)@, final(self)@, now),
            r == old(self)@.map.len() - final(self)@.map.len(),
    {
        let count = self.remove_expired_at(now);
        count as i32
    }

    /// The number of entries.
    fn entry_count(&self) -> (r: usize)
        ensures
            r == self@.map.len(),
    {
        proof {
            use_type_invariant(self);
            lemma_entries_map(self.entries@);
        }
        self.entries.len()
    }

    /// Removes the oldest entry, if it was stored before `now`, and tells
    /// whether it removed one. Which of several equally old entries it
    /// removes is left open.
    pub fn remove_oldest_at(&mut self, now: u128) -> (removed: bool)
        ensures
            removed ==> exists|k: Seq<char>|
                {
                    &&& #[trigger] old(self)@.map.dom().contains(k)
                    &&& old(self)@.map[k].timestamp < now
                    &&& forall|k2: Seq<char>|
                        old(self)@.map.dom().contains(k2) ==> old(self)@.map[k].timestamp <= #[trigger] old(
                            self,
                        )@.map[k2].timestamp
                    &&& final(self)@.map == old(self)@.map.remove(k)
                },
            !removed ==> final(self)@.map == old(self)@.map,
            !removed ==> forall|k: Seq<char>|
                #[trigger] old(self)@.map.dom().contains(k) ==> old(self)@.map[k].timestamp >= now,
            old(self)@.map.dom().finite(),
            final(self)@.map.dom().finite(),
            removed ==> final(self)@.map.len() == old(self)@.map.len() - 1,
            final(self)@.max_age == old(self)@.max_age,
            final(self)@.max_size == old(self)@.max_size,
    {
        proof {
            use_type_invariant(&*self);
            lemma_entries_map(self.entries@);
        }
        let ghost entries = self.entries@;
        let ghost m = self@.map;
        let mut oldest_index: Option<usize> = None;
        let mut oldest_time = now;
        let mut i: usize = 0;
        while i < self.entries.len()
            invariant
                i <= entries.len(),
                entries == self.entries@,
                oldest_time <= now,
                forall|j: int| 0 <= j < i ==> oldest_time <= #[trigger] entries[j].cached.timestamp,
                match oldest_index {
                    Some(o) => o < i && entries[o as int].cached.timestamp == oldest_time
                        && oldest_time < now,
                    None => oldest_time == now,
                },
            decreases entries.len() - i,
        {
            let timestamp = self.entries[i].cached.timestamp;
            if timestamp < oldest_time {
                oldest_time = timestamp;
                oldest_index = Some(i);
            }
            i = i + 1;
        }
        match oldest_index {
            Some(o) => {
                let ghost k = entries[o as int].key@;
                proof {
                    assert(m[entries[o as int].key@] == entries[o as int].cached@);
                    assert forall|k2: Seq<char>| m.dom().contains(k2) implies m[k].timestamp
                        <= #[trigger] m[k2].timestamp by {
                        let j = choose|j: int| 0 <= j < entries.len() && entries[j].key@ == k2;
                        assert(m[entries[j].key@] == entries[j].cached@);
                    }
                }
                self.remove_at(o);
                assert(m.dom().contains(k));
                assert(m[k].timestamp < now);
                assert(self@.map == m.remove(k));
                proof {
                    lemma_entries_map(self.entries@);
                }
                true
            },
            None => {
                proof {
                    assert forall|k: Seq<char>| #[trigger] m.dom().contains(k) implies m[k].timestamp
                        >= now by {
                        let j = choose|j: int| 0 <= j < entries.len() && entries[j].key@ == k;
                        assert(m[entries[j].key@] == entries[j].cached@);
                    }
                }
                false
            },
        }
    }

    /// Removes an entry with the smallest timestamp from a cache that is not
    /// empty. Which of several equally old entries it removes is left open.
    fn remove_oldest_entry(&mut self)
        requires
            old(self)@.map.len() > 0,
        ensures
            exists|k: Seq<char>|
                {
                    &&& #[trigger] old(self)@.map.dom().contains(k)
                    &&& forall|k2: Seq<char>|
                        old(self)@.map.dom().contains(k2) ==> old(self)@.map[k].timestamp <= #[trigger] old(
                            self,
                        )@.map[k2].timestamp
                    &&& final(self)@.map == old(self)@.map.remove(k)
                },
            final(self)@.map.dom().finite(),
            final(self)@.map.len() == old(self)@.map.len() - 1,
            final(self)@.max_age == old(self)@.max_age,
            final(self)@.max_size == old(self)@.max_size,
    {
        proof {
            use_type_invariant(&*self);
            lemma_entries_map(self.entries@);
        }
        let ghost entries = self.entries@;
        let ghost m = self@.map;
        let mut oldest: usize = 0;
        let mut i: usize = 1;
        while i < self.entries.len()
            invariant
                1 <= i <= entries.len(),
                entries == self.entries@,
                oldest < i,
                forall|j: int| 0 <= j < i ==> entries[oldest as int].cached.timestamp <= #[trigger] entries[j].cached.timestamp,
            decreases entries.len() - i,
        {
            if self.entries[i].cached.timestamp < self.entries[oldest].cached.timestamp {
                oldest = i;
            }
            i = i + 1;
        }
        let ghost k = entries[oldest as int].key@;
        proof {
            assert(m[entries[oldest as int].key@] == entries[oldest as int].cached@);
            assert forall|k2: Seq<char>| m.dom().contains(k2) implies m[k].timestamp
                <= #[trigger] m[k2].timestamp by {
                let j = choose|j: int| 0 <= j < entries.len() && entries[j].key@ == k2;
                assert(m[entries[j].key@] == entries[j].cached@);
            }
        }
        self.remove_at(oldest);
        proof {
            lemma_entries_map(self.entries@);
            assert(m.dom().contains(k));
        }
    }

    /// Makes room for one more entry at time `now` (see `room_made`): when the
    /// cache is full, removes the expired entries and then the oldest entries
    /// until it is no longer full. A cache that may hold no entry is always
    /// full, and no removal ever makes room in it, so it is left out.
    pub fn ensure_size_at(&mut self, now: u128)
        requires
            old(self)@.max_size > 0,
        ensures
            room_made(old(self)@, final(self)@, now),
    {
        proof {
            use_type_invariant(&*self);
            lemma_entries_map(self.entries@);
        }
        if self.entry_count() < self.max_size {
            return;
        }
        let ghost orig = self@;
        let ghost fresh = fresh_entries(orig, now);
        self.remove_expired_at(now);
        proof {
            use_type_invariant(&*self);
            lemma_entries_map(self.entries@);
            assert(self@.map =~= fresh);
        }
        while self.entry_count() >= self.max_size
            invariant
                self@.max_age == orig.max_age,
                self@.max_size == orig.max_size,
                orig.max_size > 0,
                self@.map.dom().finite(),
                fresh.len() < orig.max_size ==> self@.map == fresh,
                fresh.len() >= orig.max_size ==> self@.map.len() + 1 >= orig.max_size,
                forall|k: Seq<char>|
                    #[trigger] self@.map.dom().contains(k) ==> fresh.dom().contains(k)
                        && self@.map[k] == fresh[k],
                forall|k: Seq<char>|
                    #[trigger] fresh.dom().contains(k) && !self@.map.dom().contains(k) ==> forall|k2: Seq<char>|
                        #[trigger] self@.map.dom().contains(k2) ==> fresh[k].timestamp
                            <= self@.map[k2].timestamp,
            decreases self@.map.len(),
        {
            let ghost before = self@.map;
            self.remove_oldest_entry();
            proof {
                let k = choose|k: Seq<char>|
                    {
                        &&& #[trigger] before.dom().contains(k)
                        &&& forall|k2: Seq<char>|
                            before.dom().contains(k2) ==> before[k].timestamp
                                <= #[trigger] before[k2].timestamp
                        &&& self@.map == before.remove(k)
                    };
                assert forall|k1: Seq<char>|
                    #[trigger] fresh.dom().contains(k1) && !self@.map.dom().contains(k1) implies forall|k2: Seq<char>|
                        #[trigger] self@.map.dom().contains(k2) ==> fresh[k1].timestamp
                            <= self@.map[k2].timestamp by {
                    if k1 == k {
                        assert forall|k2: Seq<char>|
                            #[trigger] self@.map.dom().contains(k2) implies fresh[k1].timestamp
                                <= self@.map[k2].timestamp by {
                            assert(before.dom().contains(k2));
                        }
                    } else {
                        assert(!before.dom().contains(k1));
                    }
                }
            }
        }
    }

    /// Stores `value` under `key` at time `now`, after making room for it (see
    /// `ensure_size_at`).
    pub fn add_item_at(&mut self, key: String, value: String, now: u128)
        requires
            old(self)@.max_size > 0,
        ensures
            item_added(old(self)@, final(self)@, key@, value@, now),
    {
        let ghost orig = self@;
        let entry = CachedValue { value, timestamp: now };
        let ghost stored = entry@;
        self.ensure_size_at(now);
        let ghost room = self@;
        self.insert_entry(key, entry);
        proof {
            let fresh = fresh_entries(orig, now);
            assert(self@.map == room.map.insert(key@, stored));
            assert(room_made(orig, room, now));
            assert forall|k: Seq<char>| #[trigger] room.map.dom().contains(k) implies orig.map.dom().contains(
                k,
            ) && room.map[k] == orig.map[k] by {
                if orig.map.len() >= orig.max_size {
                    assert(fresh.dom().contains(k));
                }
            }
            assert forall|k: Seq<char>|
                #[trigger] orig.map.dom().contains(k) && !self@.map.dom().contains(k) implies entry_expired(
                orig.map[k],
                now,
                orig.max_age,
            ) || (forall|k2: Seq<char>|
                #[trigger] self@.map.dom().contains(k2) && k2 != key@ ==> orig.map[k].timestamp
                    <= self@.map[k2].timestamp) by {
                assert(!room.map.dom().contains(k));
                if !entry_expired(orig.map[k], now, orig.max_age) {
                    assert(fresh.dom().contains(k));
                    assert forall|k2: Seq<char>|
                        #[trigger] self@.map.dom().contains(k2) && k2 != key@ implies orig.map[k].timestamp
                            <= self@.map[k2].timestamp by {
                        assert(room.map.dom().contains(k2));
                    }
                }
            }
            assert(room.map.len() + 1 <= orig.max_size);
            assert(self@.map.dom() =~= room.map.dom().insert(key@));
        }
    }

    /// Stores `value` under `key` with the current time, after making room
    /// for it (see `ensure_size_at`).
    pub fn add_item(&mut self, key: String, value: String)
        requires
            old(self)@.max_size > 0,
        ensures
            exists|now: u128| #[trigger] item_added(old(self)@, final(self)@, key@, value@, now),
    {
        let now = now_nanos();
        self.add_item_at(key, value, now);
        assert(item_added(old(self)@, self@, key@, value@, now));
    }

    /// Removes every entry that is expired now, and returns how many it
    /// removed.
    pub fn prune(&mut self) -> (r: i32)
        requires
            old(self)@.map.len() <= i32::MAX,
        ensures
            exists|now: u128| #[trigger] pruned_at(old(self)@, final(self)@, now),
            r == old(self)@.map.len() - final(self)@.map.len(),
    {
        let now = now_nanos();
        let r = self.prune_at(now);
        assert(pruned_at(old(self)@, self@, now));
        r
    }
}

/// Reads the system clock: the time elapsed since the Unix epoch
/// (`SystemTime::elapsed` on `UNIX_EPOCH`) in nanoseconds, or 0 for a clock
/// set before the epoch. Nothing is stated of the value: it is the time at the
/// call.
#[verifier::external_body]
fn now_nanos() -> u128 {
    std::time::UNIX_EPOCH.elapsed().map(|d| d.as_nanos()).unwrap_or(0)
}

} // verus!
