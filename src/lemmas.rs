//! What holds across several operations of a store, stated over the models
//! that the operations' own contracts use: `set_at` turns the entries `m`
//! into `m.insert(key, (value, now))`, and `get_at` returns `lookup_value`
//! and leaves `after_lookup`.

use crate::cache::after_lookup;
use crate::cache::has_room;
use crate::cache::lookup_value;
use crate::cache::Entries;
use crate::cache::TtlCache;
use crate::time::Time;
use vstd::prelude::*;

verus! {

/// A value written at `t0` reads back unchanged at any time up to
/// `t0 + ttl`, and that read leaves the entries as they were.
pub proof fn lemma_round_trip(m: Entries, key: Seq<char>, value: Seq<char>, ttl: u64, t0: u64, t1: u64)
    requires
        t1 <= t0 + ttl,
    ensures
        lookup_value(m.insert(key, (value, t0)), key, ttl, t1) == Some(value),
        after_lookup(m.insert(key, (value, t0)), key, ttl, t1) == m.insert(key, (value, t0)),
{
}

/// A value written at `t0` is not returned by a read at any time past
/// `t0 + ttl`, and that read drops its entry, so one entry fewer is held.
pub proof fn lemma_expiry(m: Entries, key: Seq<char>, value: Seq<char>, ttl: u64, t0: u64, now: u64)
    requires
        m.dom().finite(),
        now > t0 + ttl,
    ensures
        lookup_value(m.insert(key, (value, t0)), key, ttl, now) is None,
        after_lookup(m.insert(key, (value, t0)), key, ttl, now) == m.remove(key),
        after_lookup(m.insert(key, (value, t0)), key, ttl, now).len() + 1 == m.insert(key, (value, t0)).len(),
{
    let w = m.insert(key, (value, t0));
    assert(w.remove(key) =~= m.remove(key));
}

/// A write of a new key adds one entry; a write of a held key adds none.
pub proof fn lemma_write_count(m: Entries, key: Seq<char>, value: Seq<char>, now: u64)
    requires
        m.dom().finite(),
    ensures
        m.contains_key(key) ==> m.insert(key, (value, now)).len() == m.len(),
        !m.contains_key(key) ==> m.insert(key, (value, now)).len() == m.len() + 1,
{
    if m.contains_key(key) {
        assert(m.insert(key, (value, now)).dom() =~= m.dom());
    }
}

/// The entries after writing each of `writes` in turn into `m`.
pub open spec fn apply_writes(m: Entries, writes: Seq<(Seq<char>, (Seq<char>, u64))>) -> Entries
    decreases writes.len(),
{
    if writes.len() == 0 {
        m
    } else {
        apply_writes(m, writes.drop_last()).insert(writes.last().0, writes.last().1)
    }
}

/// Writes of distinct keys into an empty store leave one entry per write.
pub proof fn lemma_distinct_writes(writes: Seq<(Seq<char>, (Seq<char>, u64))>)
    requires
        writes.map_values(|w: (Seq<char>, (Seq<char>, u64))| w.0).no_duplicates(),
    ensures
        apply_writes(Entries::empty(), writes).dom().finite(),
        apply_writes(Entries::empty(), writes).len() == writes.len(),
        forall|i: int| 0 <= i < writes.len() ==> apply_writes(Entries::empty(), writes).contains_key(#[trigger] writes[i].0),
    decreases writes.len(),
{
    if writes.len() > 0 {
        let front = writes.drop_last();
        let keys = writes.map_values(|w: (Seq<char>, (Seq<char>, u64))| w.0);
        assert(front.map_values(|w: (Seq<char>, (Seq<char>, u64))| w.0) =~= keys.drop_last());
        lemma_distinct_writes(front);
        let before = apply_writes(Entries::empty(), front);
        let last = writes.last();
        assert(!before.contains_key(last.0)) by {
            if before.contains_key(last.0) {
                lemma_held_key_was_written(front, last.0);
                let i = choose|i: int| 0 <= i < front.len() && #[trigger] front[i].0 == last.0;
                assert(keys[i] == keys[writes.len() - 1]);
            }
        }
        lemma_write_count(before, last.0, last.1.0, last.1.1);
        assert forall|i: int| 0 <= i < writes.len() implies apply_writes(Entries::empty(), writes).contains_key(
            #[trigger] writes[i].0,
        ) by {
            if i < front.len() {
                assert(front[i] == writes[i]);
            }
        }
    }
}

/// A key held after writes into an empty store is one of the keys written.
proof fn lemma_held_key_was_written(writes: Seq<(Seq<char>, (Seq<char>, u64))>, key: Seq<char>)
    requires
        apply_writes(Entries::empty(), writes).contains_key(key),
    ensures
        exists|i: int| 0 <= i < writes.len() && #[trigger] writes[i].0 == key,
    decreases writes.len(),
{
    if writes.len() > 0 && writes.last().0 != key {
        let front = writes.drop_last();
        lemma_held_key_was_written(front, key);
        let i = choose|i: int| 0 <= i < front.len() && #[trigger] front[i].0 == key;
        assert(writes[i].0 == key);
    }
}

/// Once a store bounded by `c` holds `c` keys, a write of a new key is
/// refused, and a write of a held key goes through and leaves `c` keys.
pub proof fn lemma_capacity_enforced<'a, T: Time>(
    store: &TtlCache<'a, T>,
    c: usize,
    key: Seq<char>,
    value: Seq<char>,
    now: u64,
)
    requires
        store.well_formed(),
        store.config().capacity == Some(c),
        store.total() == c,
    ensures
        !store@.contains_key(key) ==> !store.can_store(key),
        store@.contains_key(key) ==> store.can_store(key) && store@.insert(key, (value, now)).len() == c,
{
    assert(!has_room(c, Some(c)));
    lemma_write_count(store@, key, value, now);
}

/// A second write of a key replaces the first: one entry for the key, with
/// the second value, and no more entries than after the first write.
pub proof fn lemma_overwrite(
    m: Entries,
    key: Seq<char>,
    v1: Seq<char>,
    t1: u64,
    v2: Seq<char>,
    t2: u64,
)
    requires
        m.dom().finite(),
    ensures
        m.insert(key, (v1, t1)).insert(key, (v2, t2)) == m.insert(key, (v2, t2)),
        m.insert(key, (v1, t1)).insert(key, (v2, t2))[key].0 == v2,
        m.insert(key, (v1, t1)).insert(key, (v2, t2)).len() == m.insert(key, (v1, t1)).len(),
{
    assert(m.insert(key, (v1, t1)).insert(key, (v2, t2)) =~= m.insert(key, (v2, t2)));
    lemma_write_count(m.insert(key, (v1, t1)), key, v2, t2);
}

} // verus!
