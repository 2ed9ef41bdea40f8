//! The store: string keys to string values, each entry stamped with the time
//! it was written. An entry whose age is over the time-to-live is expired:
//! a lookup never returns it, and drops it when it sees it. A bounded store
//! refuses new keys once full; overwriting a key is always allowed.
//!
//! Entries sit in a vector of slots, and a hash map leads from each key to
//! its slot. The vector lets a sweep draw keys at random by position; the map
//! makes lookups cheap. Removal moves the last slot into the hole.

use crate::config::exceeds;
use crate::config::Config;
use crate::config::Ratio;
use crate::sample::sample_indices;
use crate::time::Time;
use vstd::hash_map::StringHashMap;
use vstd::prelude::*;

verus! {

/// What a store holds, as a map from key to value and write time.
pub type Entries = Map<Seq<char>, (Seq<char>, u64)>;

/// An entry written at `created` is expired at `now` once it is older than
/// `ttl`: `created + ttl < now`.
pub open spec fn expired_at(created: u64, ttl: u64, now: u64) -> bool {
    created + ttl < now
}

/// Whether one more key fits beside `keys_total` others. An unbounded store
/// still counts its keys in a `usize`.
pub open spec fn has_room(keys_total: usize, capacity: Option<usize>) -> bool {
    match capacity {
        Some(c) => keys_total < c,
        None => keys_total < usize::MAX,
    }
}

/// The value a lookup of `key` at `now` returns.
pub open spec fn lookup_value(m: Entries, key: Seq<char>, ttl: u64, now: u64) -> Option<Seq<char>> {
    if m.contains_key(key) && !expired_at(m[key].1, ttl, now) {
        Some(m[key].0)
    } else {
        None
    }
}

/// The entries after a lookup of `key` at `now`: an expired entry is gone.
pub open spec fn after_lookup(m: Entries, key: Seq<char>, ttl: u64, now: u64) -> Entries {
    if m.contains_key(key) && expired_at(m[key].1, ttl, now) {
        m.remove(key)
    } else {
        m
    }
}

/// The text of an optional string.
pub open spec fn text_of(r: Option<String>) -> Option<Seq<char>> {
    match r {
        Some(s) => Some(s@),
        None => None,
    }
}

/// The text of each string of a sequence.
pub open spec fn texts(s: Seq<String>) -> Seq<Seq<char>> {
    s.map_values(|x: String| x@)
}

/// The keys of `m` that a sweep over `sample` at `now` drops: those drawn
/// that are held and expired.
pub open spec fn sweep_targets(m: Entries, sample: Seq<Seq<char>>, ttl: u64, now: u64) -> Set<Seq<char>> {
    Set::new(|k: Seq<char>| sample.contains(k) && m.contains_key(k) && expired_at(m[k].1, ttl, now))
}

/// The keys `ks` are all held in `m`, none of them twice.
pub open spec fn holds_all(m: Entries, ks: Seq<Seq<char>>) -> bool {
    &&& ks.no_duplicates()
    &&& forall|i: int| 0 <= i < ks.len() ==> #[trigger] m.contains_key(ks[i])
}

/// The entries of `m` under the keys `ks` are all expired at `now`.
pub open spec fn all_drawn_expired(m: Entries, ks: Seq<Seq<char>>, ttl: u64, now: u64) -> bool {
    forall|i: int| 0 <= i < ks.len() ==> expired_at(m[#[trigger] ks[i]].1, ttl, now)
}

/// Every entry of `m` is expired at `now`.
pub open spec fn all_expired(m: Entries, ttl: u64, now: u64) -> bool {
    forall|k: Seq<char>| #[trigger] m.contains_key(k) ==> expired_at(m[k].1, ttl, now)
}

/// The entries of `m` that are live at `now`.
pub open spec fn live_entries(m: Entries, ttl: u64, now: u64) -> Entries {
    m.restrict(Set::new(|k: Seq<char>| !expired_at(m[k].1, ttl, now)))
}

/// The rounds of a sweep over `n` keys, all expired, that draws `s` keys a
/// round with a ratio below one: one round for each `s` keys or part of
/// `s`, and a last one that draws nothing.
pub open spec fn sweep_rounds(n: int, s: int) -> int {
    (n + s - 1) / s + 1
}

/// How many keys the first round of a sweep draws from `m`.
pub open spec fn first_draw(m: Entries, config: Config) -> int {
    if config.eviction_number < m.len() {
        config.eviction_number as int
    } else {
        m.len() as int
    }
}

/// What a full sweep at `now` may leave of `before`: some of its entries,
/// unchanged, each one it dropped expired at `now`. The first round drops
/// every expired key it draws, and at most the live keys among those drawn
/// stay, so at least `first_draw` less the live count are gone. When `before` holds no
/// more keys than a round draws, the first round sees them all, so exactly
/// the live entries are left. When every entry was expired and a round
/// draws at least one key, nothing is left if the ratio is below one or the
/// store fits in one round.
pub open spec fn swept(before: Entries, after: Entries, config: Config, now: u64) -> bool {
    &&& after.submap_of(before)
    &&& forall|k: Seq<char>| #[trigger]
        before.contains_key(k) && !after.contains_key(k) ==> expired_at(before[k].1, config.ttl, now)
    &&& before.len() - after.len() >= first_draw(before, config) - live_entries(before, config.ttl, now).len()
    &&& before.len() <= config.eviction_number ==> after == live_entries(before, config.ttl, now)
    &&& (all_expired(before, config.ttl, now) && config.eviction_number > 0 && (
    config.eviction_ratio.numerator < config.eviction_ratio.denominator || before.len()
        <= config.eviction_number)) ==> after.len() == 0
}

/// A stored value and the time it was written.
pub struct CacheEntry {
    pub value: String,
    pub created: u64,
}

impl View for CacheEntry {
    type V = (Seq<char>, u64);

    open spec fn view(&self) -> (Seq<char>, u64) {
        (self.value@, self.created)
    }
}

impl CacheEntry {
    pub fn is_expired(&self, now: u64, ttl: u64) -> (r: bool)
        ensures
            r == expired_at(self.created, ttl, now),
    {
        now > self.created && now - self.created > ttl
    }
}

/// A write of a new key into a full store. It carries the store's bound
/// (`None` for an unbounded store that has counted `usize::MAX` keys).
#[derive(Clone, Copy, Debug, PartialEq, Eq, Structural)]
pub struct CapacityError {
    pub capacity: Option<usize>,
}

/// A store of entries that expire `config.ttl` milliseconds after they were
/// written, reading the time from a clock it borrows.
pub struct TtlCache<'a, T: Time> {
    /// The number of entries held.
    pub keys_total: usize,
    cache_config: Config,
    slots: Vec<(String, CacheEntry)>,
    index: StringHashMap<usize>,
    time: &'a T,
}

impl<'a, T: Time> View for TtlCache<'a, T> {
    type V = Entries;

    closed spec fn view(&self) -> Entries {
        self.index@.map_values(|i: usize| self.slots@[i as int].1@)
    }
}

impl<'a, T: Time> TtlCache<'a, T> {
    pub closed spec fn config(&self) -> Config {
        self.cache_config
    }

    /// The clock the store reads its time from.
    pub closed spec fn clock(&self) -> &'a T {
        self.time
    }

    /// The value of `keys_total`.
    pub closed spec fn total(&self) -> usize {
        self.keys_total
    }

    /// The slots and the index agree: each key leads to the one slot that
    /// holds it, and the count is the number of slots.
    pub closed spec fn inv(&self) -> bool {
        &&& self.index@.dom().finite()
        &&& self.index@.len() == self.slots@.len()
        &&& self.keys_total == self.slots@.len()
        &&& forall|k: Seq<char>| #[trigger]
            self.index@.contains_key(k) ==> self.index@[k] < self.slots@.len()
                && self.slots@[self.index@[k] as int].0@ == k
        &&& forall|i: int|
            0 <= i < self.slots@.len() ==> self.index@.contains_key(#[trigger] self.slots@[i].0@)
                && self.index@[self.slots@[i].0@] == i
        &&& match self.cache_config.capacity {
            Some(c) => self.keys_total <= c,
            None => true,
        }
    }

    /// The store is consistent: `keys_total` counts its entries, and a
    /// bounded store holds no more than its bound.
    pub open spec fn well_formed(&self) -> bool {
        &&& self.inv()
        &&& self@.dom().finite()
        &&& self.total() == self@.len()
        &&& match self.config().capacity {
            Some(c) => self.total() <= c,
            None => true,
        }
    }

    /// Whether a write of `key` succeeds: the key is held already, or there
    /// is room for one more.
    pub open spec fn can_store(&self, key: Seq<char>) -> bool {
        self@.contains_key(key) || has_room(self.total(), self.config().capacity)
    }

    proof fn lemma_inv_well_formed(&self)
        requires
            self.inv(),
        ensures
            self.well_formed(),
            forall|k: Seq<char>| #[trigger]
                self@.contains_key(k) ==> self@[k] == self.slots@[self.index@[k] as int].1@,
    {
        assert(self@.dom() =~= self.index@.dom());
    }

    /// An empty store with the given settings, reading time from `t`.
    pub fn new(cache_config: Config, t: &'a T) -> (r: TtlCache<'a, T>)
        ensures
            r.well_formed(),
            r@ == Entries::empty(),
            r.total() == 0,
            r.config() == cache_config,
            r.clock() == t,
    {
        let r = TtlCache {
            keys_total: 0,
            cache_config,
            slots: Vec::new(),
            index: StringHashMap::new(),
            time: t,
        };
        proof {
            r.lemma_inv_well_formed();
            assert(r@ =~= Entries::empty());
        }
        r
    }

    /// The number of entries held: the `keys_total` field, for verified
    /// callers outside this module, to whom the field is hidden.
    pub fn keys_total(&self) -> (r: usize)
        ensures
            r == self.total(),
    {
        self.keys_total
    }

    /// Writes `value` under `key`, stamped with `now`. A new key needs room;
    /// an existing one is overwritten whatever the bound.
    pub fn set_at(&mut self, key: String, value: String, now: u64) -> (r: Result<(), CapacityError>)
        requires
            old(self).well_formed(),
        ensures
            final(self).well_formed(),
            final(self).config() == old(self).config(),
            final(self).clock() == old(self).clock(),
            r is Ok <==> old(self).can_store(key@),
            r is Ok ==> final(self)@ == old(self)@.insert(key@, (value@, now)),
            r matches Err(e) ==> final(self)@ == old(self)@ && e.capacity == old(self).config().capacity,
    {
        proof {
            self.lemma_inv_well_formed();
        }
        let found: Option<usize> = match self.index.get(key.as_str()) {
            Some(s) => Some(*s),
            None => None,
        };
        let entry = CacheEntry { value, created: now };
        match found {
            Some(slot) => {
                self.slots.set(slot, (key, entry));
                proof {
                    self.lemma_inv_well_formed();
                    assert(self@ =~= old(self)@.insert(key@, (value@, now)));
                }
                Ok(())
            },
            None => {
                let room = match self.cache_config.capacity {
                    Some(c) => self.keys_total < c,
                    None => self.keys_total < usize::MAX,
                };
                if !room {
                    return Err(CapacityError { capacity: self.cache_config.capacity });
                }
                let slot = self.slots.len();
                self.index.insert(key.clone(), slot);
                self.slots.push((key, entry));
                self.keys_total = self.keys_total + 1;
                proof {
                    assert(self.index@.dom() =~= old(self).index@.dom().insert(key@));
                    assert forall|i: int| 0 <= i < self.slots@.len() implies
                        self.index@.contains_key(#[trigger] self.slots@[i].0@)
                        && self.index@[self.slots@[i].0@] == i by {
                        if i < slot {
                            assert(old(self).slots@[i] == self.slots@[i]);
                        }
                    }
                    self.lemma_inv_well_formed();
                    assert(self@ =~= old(self)@.insert(key@, (value@, now)));
                }
                Ok(())
            },
        }
    }

    /// Drops the entry of `key`, which sits in `slot`.
    fn remove_present(&mut self, key: &str, slot: usize)
        requires
            old(self).inv(),
            old(self).index@.contains_key(key@),
            old(self).index@[key@] == slot,
        ensures
            final(self).inv(),
            final(self)@ == old(self)@.remove(key@),
            final(self).total() == old(self).total() - 1,
            final(self).config() == old(self).config(),
            final(self).clock() == old(self).clock(),
    {
        proof {
            self.lemma_inv_well_formed();
        }
        let ghost old_index = self.index@;
        let ghost old_slots = self.slots@;
        let last = self.slots.len() - 1;
        self.index.remove(key);
        self.slots.swap_remove(slot);
        if slot < last {
            let moved = self.slots[slot].0.clone();
            proof {
                assert(old_slots[last as int].0@ == moved@);
                assert(old_index[moved@] == last);
            }
            self.index.insert(moved, slot);
            proof {
                assert(self.index@.dom() =~= old_index.dom().remove(key@));
            }
        }
        self.keys_total = self.keys_total - 1;
        proof {
            assert forall|k: Seq<char>| #[trigger] self.index@.contains_key(k) implies
                self.index@[k] < self.slots@.len() && self.slots@[self.index@[k] as int].0@ == k by {
                if slot < last && k == old_slots[last as int].0@ {
                } else {
                    assert(old_index.contains_key(k));
                    assert(old_slots[old_index[k] as int].0@ == k);
                }
            }
            assert forall|i: int| 0 <= i < self.slots@.len() implies
                self.index@.contains_key(#[trigger] self.slots@[i].0@)
                && self.index@[self.slots@[i].0@] == i by {
                if i != slot {
                    assert(self.slots@[i] == old_slots[i]);
                    assert(old_index[old_slots[i].0@] == i);
                }
            }
            self.lemma_inv_well_formed();
            assert forall|k: Seq<char>| #[trigger] self@.contains_key(k) implies
                self@[k] == old(self)@.remove(key@)[k] by {
                assert(old_index.contains_key(k));
                assert(old_slots[old_index[k] as int].0@ == k);
            }
            assert(self@ =~= old(self)@.remove(key@));
        }
    }

    /// Looks `key` up at time `now`. An entry that is expired then is
    /// dropped and not returned; a live one is returned as it is, and its
    /// age is left alone.
    pub fn get_at(&mut self, key: &str, now: u64) -> (r: Option<String>)
        requires
            old(self).well_formed(),
        ensures
            final(self).well_formed(),
            final(self).config() == old(self).config(),
            final(self).clock() == old(self).clock(),
            text_of(r) == lookup_value(old(self)@, key@, old(self).config().ttl, now),
            final(self)@ == after_lookup(old(self)@, key@, old(self).config().ttl, now),
    {
        proof {
            self.lemma_inv_well_formed();
        }
        let ttl = self.cache_config.ttl;
        let found: Option<usize> = match self.index.get(key) {
            Some(s) => Some(*s),
            None => None,
        };
        match found {
            None => None,
            Some(slot) => {
                if !self.slots[slot].1.is_expired(now, ttl) {
                    Some(self.slots[slot].1.value.clone())
                } else {
                    self.remove_present(key, slot);
                    proof {
                        self.lemma_inv_well_formed();
                    }
                    None
                }
            },
        }
    }

    /// Writes `value` under `key`, stamped with the clock's time. A new key
    /// needs room; an existing one is overwritten whatever the bound.
    pub fn set(&mut self, key: String, value: String) -> (r: Result<(), CapacityError>)
        requires
            old(self).well_formed(),
        ensures
            final(self).well_formed(),
            final(self).config() == old(self).config(),
            final(self).clock() == old(self).clock(),
            r is Ok <==> old(self).can_store(key@),
            r is Ok ==> final(self)@ == old(self)@.insert(key@, (value@, final(self)@[key@].1)),
            r matches Err(e) ==> final(self)@ == old(self)@ && e.capacity == old(self).config().capacity,
    {
        let now = self.time.get_time();
        self.set_at(key, value, now)
    }

    /// Looks `key` up at the clock's time: an expired entry is dropped and
    /// not returned, a live one is returned as it is.
    pub fn get(&mut self, key: &str) -> (r: Option<String>)
        requires
            old(self).well_formed(),
        ensures
            final(self).well_formed(),
            final(self).config() == old(self).config(),
            final(self).clock() == old(self).clock(),
            exists|now: u64|
                text_of(r) == lookup_value(old(self)@, key@, old(self).config().ttl, now)
                && final(self)@ == after_lookup(old(self)@, key@, old(self).config().ttl, now),
    {
        let now = self.time.get_time();
        self.get_at(key, now)
    }

    /// The keys at `amount` distinct slots, drawn at random; every key when
    /// `amount` is the number of slots.
    fn sample_keys(&self, amount: usize) -> (r: Vec<String>)
        requires
            self.inv(),
            amount <= self.slots@.len(),
        ensures
            r@.len() == amount,
            holds_all(self@, texts(r@)),
            texts(r@).no_duplicates(),
            forall|i: int| 0 <= i < r@.len() ==> self@.contains_key(#[trigger] r@[i]@),
            amount == self.slots@.len() ==> forall|k: Seq<char>| #[trigger]
                self@.contains_key(k) ==> texts(r@).contains(k),
    {
        proof {
            self.lemma_inv_well_formed();
        }
        let picks = if amount == self.slots.len() {
            let mut all: Vec<usize> = Vec::new();
            let mut i: usize = 0;
            while i < amount
                invariant
                    i <= amount,
                    all@.len() == i,
                    forall|x: int| 0 <= x < i ==> #[trigger] all@[x] == x,
                decreases amount - i,
            {
                all.push(i);
                i = i + 1;
            }
            all
        } else {
            sample_indices(self.slots.len(), amount)
        };
        let mut keys: Vec<String> = Vec::new();
        let mut j: usize = 0;
        while j < picks.len()
            invariant
                self.inv(),
                picks@.len() == amount,
                picks@.no_duplicates(),
                forall|i: int| 0 <= i < picks@.len() ==> picks@[i] < self.slots@.len(),
                amount == self.slots@.len() ==> forall|i: int| 0 <= i < picks@.len() ==> picks@[i] == i,
                j <= picks@.len(),
                keys@.len() == j,
                forall|i: int| 0 <= i < j ==> #[trigger] keys@[i]@ == self.slots@[picks@[i] as int].0@,
            decreases picks@.len() - j,
        {
            keys.push(self.slots[picks[j]].0.clone());
            j = j + 1;
        }
        proof {
            let ks = texts(keys@);
            assert forall|a: int, b: int| 0 <= a < ks.len() && 0 <= b < ks.len() && a != b implies
                ks[a] != ks[b] by {
                let pa = picks@[a] as int;
                let pb = picks@[b] as int;
                assert(self.index@[self.slots@[pa].0@] == pa);
                assert(self.index@[self.slots@[pb].0@] == pb);
                assert(keys@[a]@ == self.slots@[pa].0@);
                assert(keys@[b]@ == self.slots@[pb].0@);
            }
            assert forall|i: int| 0 <= i < keys@.len() implies self@.contains_key(#[trigger] keys@[i]@) by {
                assert(keys@[i]@ == self.slots@[picks@[i] as int].0@);
            }
            if amount == self.slots@.len() {
                assert forall|k: Seq<char>| #[trigger] self@.contains_key(k) implies ks.contains(k) by {
                    let i = self.index@[k] as int;
                    assert(keys@[i]@ == self.slots@[i].0@);
                    assert(ks[i] == k);
                }
            }
        }
        keys
    }

    /// One sweep round over the keys in `sample` at time `now`: each one
    /// held and expired is dropped. Returns how many were dropped.
    pub fn evict_sample(&mut self, sample: &Vec<String>, now: u64) -> (removed: usize)
        requires
            old(self).well_formed(),
        ensures
            final(self).well_formed(),
            final(self).config() == old(self).config(),
            final(self).clock() == old(self).clock(),
            final(self)@ == old(self)@.remove_keys(
                sweep_targets(old(self)@, texts(sample@), old(self).config().ttl, now),
            ),
            removed == old(self)@.len() - final(self)@.len(),
            holds_all(old(self)@, texts(sample@)) && all_drawn_expired(
                old(self)@,
                texts(sample@),
                old(self).config().ttl,
                now,
            ) ==> removed == sample@.len(),
            holds_all(old(self)@, texts(sample@)) ==> removed + live_entries(
                old(self)@,
                old(self).config().ttl,
                now,
            ).len() >= sample@.len(),
    {
        proof {
            self.lemma_inv_well_formed();
        }
        let ghost m0 = self@;
        let ghost ks = texts(sample@);
        let ttl = self.cache_config.ttl;
        let ghost all_held = holds_all(m0, ks);
        let ghost all_hit = all_held && all_drawn_expired(m0, ks, ttl, now);
        let mut removed: usize = 0;
        let mut j: usize = 0;
        // The live keys of `m0` met so far.
        let ghost mut seen: Set<Seq<char>> = Set::empty();
        proof {
            assert(m0.remove_keys(sweep_targets(m0, ks.take(0), ttl, now)) =~= m0);
        }
        while j < sample.len()
            invariant
                self.well_formed(),
                self.config() == old(self).config(),
                self.clock() == old(self).clock(),
                m0 == old(self)@,
                m0.len() == old(self).total(),
                ks == texts(sample@),
                ttl == self.config().ttl,
                j <= sample@.len(),
                self@ == m0.remove_keys(sweep_targets(m0, ks.take(j as int), ttl, now)),
                removed == m0.len() - self@.len(),
                all_held == holds_all(m0, ks),
                all_hit == (all_held && all_drawn_expired(m0, ks, ttl, now)),
                all_hit ==> seen.len() == 0,
                all_held ==> removed + seen.len() == j && forall|i: int|
                    j <= i < sample@.len() ==> self@.contains_key(#[trigger] ks[i]),
                seen.finite(),
                forall|x: Seq<char>| #[trigger] seen.contains(x) ==> ks.take(j as int).contains(x)
                    && m0.contains_key(x) && !expired_at(m0[x].1, ttl, now),
            decreases sample@.len() - j,
        {
            let key = sample[j].as_str();
            let ghost k = ks[j as int];
            let ghost before = self@;
            let ghost t0 = sweep_targets(m0, ks.take(j as int), ttl, now);
            let ghost t1 = sweep_targets(m0, ks.take(j + 1), ttl, now);
            proof {
                assert(key@ == k);
                assert forall|x: Seq<char>| ks.take(j + 1).contains(x) == (ks.take(j as int).contains(x) || x == k) by {
                    if ks.take(j + 1).contains(x) {
                        let w = choose|w: int| 0 <= w < j + 1 && #[trigger] ks.take(j + 1)[w] == x;
                        if w < j {
                            assert(ks.take(j as int)[w] == x);
                        }
                    }
                    if ks.take(j as int).contains(x) {
                        let w = choose|w: int| 0 <= w < j && #[trigger] ks.take(j as int)[w] == x;
                        assert(ks.take(j + 1)[w] == x);
                    }
                    if x == k {
                        assert(ks.take(j + 1)[j as int] == x);
                    }
                }
                self.lemma_inv_well_formed();
            }
            let found: Option<usize> = match self.index.get(key) {
                Some(s) => Some(*s),
                None => None,
            };
            if let Some(slot) = found {
                if self.slots[slot].1.is_expired(now, ttl) {
                    proof {
                        assert(self@.contains_key(k));
                        assert(removed < m0.len());
                    }
                    self.remove_present(key, slot);
                    removed = removed + 1;
                    proof {
                        self.lemma_inv_well_formed();
                        assert(t1 =~= t0.insert(k));
                        assert(self@ =~= m0.remove_keys(t1));
                    }
                } else {
                    proof {
                        assert(self@.contains_key(k));
                        assert(self@[k] == m0[k]);
                        assert(t1 =~= t0);
                        if all_held {
                            assert(!seen.contains(k)) by {
                                if seen.contains(k) {
                                    let w = choose|w: int| 0 <= w < j && #[trigger] ks.take(j as int)[w] == k;
                                    assert(ks[w] == ks[j as int]);
                                }
                            }
                        }
                        if all_hit {
                            assert(expired_at(m0[ks[j as int]].1, ttl, now));
                        }
                        seen = seen.insert(k);
                    }
                }
            } else {
                proof {
                    assert(!self@.contains_key(k));
                    assert(m0.contains_key(k) ==> t0.contains(k));
                    assert(t1 =~= t0);
                }
            }
            proof {
                if all_held {
                    assert(m0.contains_key(ks[j as int]));
                    assert forall|i: int| j + 1 <= i < sample@.len() implies self@.contains_key(#[trigger] ks[i]) by {
                        assert(ks[i] != k);
                        assert(before.contains_key(ks[i]));
                    }
                }
            }
            j = j + 1;
        }
        proof {
            assert(ks.take(sample@.len() as int) =~= ks);
            if all_held {
                let live = live_entries(m0, ttl, now);
                vstd::set_lib::lemma_len_subset(live.dom(), m0.dom());
                assert(seen.subset_of(live.dom()));
                vstd::set_lib::lemma_len_subset(seen, live.dom());
            }
        }
        removed
    }

    /// Sweeps at time `now`. Each round draws `eviction_number` distinct keys
    /// at random (all of them when fewer are held) and drops those expired;
    /// rounds go on while the share of expired keys among those drawn is
    /// above `eviction_ratio`. Every round that goes on dropped a key, so the
    /// sweep ends. Returns the number of rounds, which may exceed the number
    /// of keys by one.
    pub fn evict_expired_at(&mut self, now: u64) -> (rounds: u128)
        requires
            old(self).well_formed(),
        ensures
            all_expired(old(self)@, old(self).config().ttl, now) && old(self).config().eviction_number > 0
                && old(self).config().eviction_ratio.numerator < old(self).config().eviction_ratio.denominator
                ==> rounds == sweep_rounds(old(self)@.len() as int, old(self).config().eviction_number as int),
            final(self).well_formed(),
            final(self).config() == old(self).config(),
            final(self).clock() == old(self).clock(),
            swept(old(self)@, final(self)@, old(self).config(), now),
    {
        let ghost m0 = self@;
        let ghost config = self.cache_config;
        let total_lookup = self.cache_config.eviction_number;
        let mut rounds: u128 = 0;
        loop
            invariant_except_break
                rounds <= m0.len() - self@.len(),
                all_expired(m0, config.ttl, now) && config.eviction_number > 0
                    && config.eviction_ratio.numerator < config.eviction_ratio.denominator ==> (self@.len()
                    + rounds * config.eviction_number == m0.len() || (self@.len() == 0 && rounds
                    == sweep_rounds(m0.len() as int, config.eviction_number as int) - 1)),
            invariant
                self.well_formed(),
                self.config() == config,
                self.clock() == old(self).clock(),
                config == old(self).config(),
                m0 == old(self)@,
                total_lookup == config.eviction_number,
                self@.submap_of(m0),
                self@.len() <= m0.len(),
                forall|k: Seq<char>| #[trigger]
                    m0.contains_key(k) && !self@.contains_key(k) ==> expired_at(m0[k].1, config.ttl, now),
                m0.len() <= config.eviction_number ==> self@ == m0 || self@ == live_entries(m0, config.ttl, now),
                self@ == m0 || m0.len() - self@.len() >= first_draw(m0, config) - live_entries(m0, config.ttl, now).len(),
                m0.len() == old(self).total(),
            ensures
                self.well_formed(),
                self.config() == config,
                self.clock() == old(self).clock(),
                swept(m0, self@, config, now),
                all_expired(m0, config.ttl, now) && config.eviction_number > 0
                    && config.eviction_ratio.numerator < config.eviction_ratio.denominator
                    ==> rounds == sweep_rounds(m0.len() as int, config.eviction_number as int),
            decreases self@.len(),
        {
            proof {
                self.lemma_inv_well_formed();
            }
            let ghost before = self@;
            rounds = rounds + 1;
            let held = self.slots.len();
            let drawn = if total_lookup < held {
                total_lookup
            } else {
                held
            };
            let sample = self.sample_keys(drawn);
            let removed = self.evict_sample(&sample, now);
            let ratio = self.cache_config.eviction_ratio;
            proof {
                let targets = sweep_targets(before, texts(sample@), config.ttl, now);
                assert forall|k: Seq<char>| #[trigger]
                    m0.contains_key(k) && !self@.contains_key(k) implies expired_at(m0[k].1, config.ttl, now) by {
                    if before.contains_key(k) {
                        assert(targets.contains(k));
                    }
                }
                assert(self@.submap_of(m0));
                assert(holds_all(before, texts(sample@)));
                if before == m0 {
                    assert(drawn == first_draw(m0, config));
                }
                let live = live_entries(m0, config.ttl, now);
                if m0.len() <= config.eviction_number {
                    assert(drawn == held);
                    assert forall|k: Seq<char>| #[trigger] before.contains_key(k) implies
                        texts(sample@).contains(k) by {}
                    assert forall|k: Seq<char>| #[trigger] self@.contains_key(k) == live.contains_key(k) by {
                        if live.contains_key(k) {
                            assert(before.contains_key(k));
                            assert(!targets.contains(k));
                        }
                        if self@.contains_key(k) {
                            assert(!targets.contains(k));
                        }
                    }
                    assert(self@ =~= live);
                    if all_expired(m0, config.ttl, now) {
                        assert(live =~= Map::<Seq<char>, (Seq<char>, u64)>::empty());
                    }
                }
                let converges = all_expired(m0, config.ttl, now) && config.eviction_number > 0
                    && config.eviction_ratio.numerator < config.eviction_ratio.denominator;
                if converges {
                    let ks = texts(sample@);
                    assert forall|i: int| 0 <= i < ks.len() implies expired_at(
                        before[#[trigger] ks[i]].1,
                        config.ttl,
                        now,
                    ) by {
                        assert(before.contains_key(ks[i]));
                        assert(m0.contains_key(ks[i]));
                    }
                    assert(removed == drawn);
                    if drawn > 0 {
                        lemma_exceeds_when_all_removed(drawn as int, ratio.numerator as int, ratio.denominator as int);
                    } else {
                        assert(self@ =~= before);
                    }
                }
                lemma_exceeds_needs_removal(removed as int, drawn as int, ratio);
                if converges {
                    let n = m0.len() as int;
                    let sz = config.eviction_number as int;
                    let done = rounds - 1;
                    assert((done + 1) * sz == done * sz + sz) by (nonlinear_arith);
                    if held == 0 {
                        if before.len() + done * sz == n {
                            lemma_rounds_exact(done, sz, n);
                        }
                    } else {
                        assert(before.len() + done * sz == n);
                        if held < sz {
                            lemma_rounds_partial(done, sz, n);
                        }
                    }
                }
            }
            if !ratio.exceeded_by(removed, drawn) {
                break;
            }
        }
        rounds
    }

    /// Sweeps at the clock's time; see `evict_expired_at`.
    pub fn evict_expired(&mut self)
        requires
            old(self).well_formed(),
        ensures
            final(self).well_formed(),
            final(self).config() == old(self).config(),
            final(self).clock() == old(self).clock(),
            exists|now: u64| swept(old(self)@, final(self)@, old(self).config(), now),
    {
        let now = self.time.get_time();
        self.evict_expired_at(now);
    }
}

/// A round that is above the ratio dropped at least one key.
proof fn lemma_exceeds_needs_removal(removed: int, drawn: int, r: Ratio)
    requires
        removed >= 0,
        drawn >= 0,
    ensures
        exceeds(removed, drawn, r) ==> removed > 0,
{
    let num = r.numerator as int;
    assert(num * drawn >= 0) by (nonlinear_arith)
        requires
            num >= 0,
            drawn >= 0,
    ;
}

/// `n` keys in `k` full rounds of `s` take `k` rounds that draw keys.
proof fn lemma_rounds_exact(k: int, s: int, n: int)
    requires
        s > 0,
        k >= 0,
        k * s == n,
    ensures
        sweep_rounds(n, s) == k + 1,
{
    vstd::arithmetic::div_mod::lemma_fundamental_div_mod_converse(n + s - 1, s, k, s - 1);
}

/// `n` keys that `k` full rounds of `s` do not cover take one round more.
proof fn lemma_rounds_partial(k: int, s: int, n: int)
    requires
        s > 0,
        k >= 0,
        k * s < n < (k + 1) * s,
    ensures
        sweep_rounds(n, s) == k + 2,
{
    assert((k + 1) * s == k * s + s) by (nonlinear_arith);
    vstd::arithmetic::div_mod::lemma_fundamental_div_mod_converse(n + s - 1, s, k + 1, n - k * s - 1);
}

/// A round that drew keys and dropped them all is above any ratio below one.
proof fn lemma_exceeds_when_all_removed(drawn: int, num: int, den: int)
    requires
        drawn > 0,
        0 <= num < den,
    ensures
        drawn * den > num * drawn,
{
    assert(drawn * den > num * drawn) by (nonlinear_arith)
        requires
            drawn > 0,
            0 <= num < den,
    ;
}

} // verus!
