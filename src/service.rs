//! The single owner of a store. Every read and write goes through one
//! service value, one at a time, so the store needs no lock. Between
//! requests the service sweeps the store once the sweep interval has passed
//! since the last sweep. The loop that waits for requests and hands back
//! replies is the caller's; the service makes the decisions.

use crate::cache::after_lookup;
use crate::cache::lookup_value;
use crate::cache::swept;
use crate::cache::text_of;
use crate::cache::CapacityError;
use crate::cache::TtlCache;
use crate::config::Config;
use crate::time::Time;
use vstd::prelude::*;

verus! {

/// A request to the service.
#[derive(Debug)]
pub enum Request {
    /// Read the value of a key.
    Read(String),
    /// Write a value under a key.
    Write(String, String),
}

/// The answer to a request.
#[derive(Debug)]
pub enum Reply {
    Read(Option<String>),
    Write(Result<(), CapacityError>),
}

impl Reply {
    /// The HTTP status that stands for the reply: found or written is 200,
    /// a missing or expired key is 404, a write refused for want of room is
    /// 400.
    pub fn status(&self) -> (r: u16)
        ensures
            r == match self {
                Reply::Read(Some(_)) => 200u16,
                Reply::Read(None) => 404u16,
                Reply::Write(Ok(_)) => 200u16,
                Reply::Write(Err(_)) => 400u16,
            },
    {
        match self {
            Reply::Read(Some(_)) => 200,
            Reply::Read(None) => 404,
            Reply::Write(Ok(_)) => 200,
            Reply::Write(Err(_)) => 400,
        }
    }
}

/// Whether a sweep is due at `now`: more than `every` milliseconds have
/// passed since `last`.
pub open spec fn sweep_due_at(last: u64, every: u64, now: u64) -> bool {
    now > last + every
}

/// The service: a store, the time of its last sweep, and the clock.
pub struct TtlCacheService<'a, T: Time> {
    config: Config,
    ttl_cache: TtlCache<'a, T>,
    last_eviction_ran: u64,
    time: &'a T,
}

impl<'a, T: Time> TtlCacheService<'a, T> {
    pub closed spec fn config(&self) -> Config {
        self.config
    }

    /// The clock the service reads its time from.
    pub closed spec fn clock(&self) -> &'a T {
        self.time
    }

    /// The store the service owns.
    pub closed spec fn cache(&self) -> TtlCache<'a, T> {
        self.ttl_cache
    }

    /// When the last sweep ran (or the service was made).
    pub closed spec fn last_sweep(&self) -> u64 {
        self.last_eviction_ran
    }

    /// The store is consistent and uses the service's settings and clock.
    pub open spec fn well_formed(&self) -> bool {
        &&& self.cache().well_formed()
        &&& self.cache().config() == self.config()
        &&& self.cache().clock() == self.clock()
    }

    /// A service around an empty store, whose last sweep is now.
    pub fn new(cache_config: Config, time: &'a T) -> (r: TtlCacheService<'a, T>)
        ensures
            r.well_formed(),
            r.config() == cache_config,
            r.cache().config() == cache_config,
            r.clock() == time,
            r.cache().clock() == time,
            r.cache()@ == Map::<Seq<char>, (Seq<char>, u64)>::empty(),
            r.cache().total() == 0,
    {
        TtlCacheService {
            config: cache_config,
            ttl_cache: TtlCache::new(cache_config, time),
            last_eviction_ran: time.get_time(),
            time,
        }
    }

    /// The store the service owns.
    pub fn ttl_cache(&self) -> (r: &TtlCache<'a, T>)
        ensures
            *r == self.cache(),
    {
        &self.ttl_cache
    }

    /// Whether a sweep is due at `now`.
    pub fn sweep_due(&self, now: u64) -> (r: bool)
        ensures
            r == sweep_due_at(self.last_sweep(), self.config().eviction_every, now),
    {
        now > self.last_eviction_ran && now - self.last_eviction_ran > self.config.eviction_every
    }

    /// Sweeps the store at `now` if a sweep is due then. Returns whether it
    /// swept; the time of the last sweep is left to `record_sweep_at`.
    pub fn sweep_if_due_at(&mut self, now: u64) -> (r: bool)
        requires
            old(self).well_formed(),
        ensures
            final(self).well_formed(),
            final(self).config() == old(self).config(),
            final(self).clock() == old(self).clock(),
            final(self).last_sweep() == old(self).last_sweep(),
            r == sweep_due_at(old(self).last_sweep(), old(self).config().eviction_every, now),
            r ==> swept(old(self).cache()@, final(self).cache()@, old(self).config(), now),
            !r ==> final(self).cache() == old(self).cache(),
    {
        if self.sweep_due(now) {
            self.ttl_cache.evict_expired_at(now);
            true
        } else {
            false
        }
    }

    /// Notes `later` as the time of the last sweep.
    pub fn record_sweep_at(&mut self, later: u64)
        requires
            old(self).well_formed(),
        ensures
            final(self).well_formed(),
            final(self).config() == old(self).config(),
            final(self).clock() == old(self).clock(),
            final(self).cache() == old(self).cache(),
            final(self).last_sweep() == later,
    {
        self.last_eviction_ran = later;
    }

    /// Sweeps the store if a sweep is due at the clock's time, and then notes
    /// the clock's time, read after the sweep, as that of the last sweep.
    /// Returns whether it swept.
    pub fn run_pending_sweep(&mut self) -> (r: bool)
        requires
            old(self).well_formed(),
        ensures
            final(self).well_formed(),
            final(self).config() == old(self).config(),
            final(self).clock() == old(self).clock(),
            !r ==> final(self).cache() == old(self).cache() && final(self).last_sweep() == old(self).last_sweep(),
            r ==> exists|now: u64|
                sweep_due_at(old(self).last_sweep(), old(self).config().eviction_every, now)
                && swept(old(self).cache()@, final(self).cache()@, old(self).config(), now),
    {
        let now = self.time.get_time();
        if self.sweep_if_due_at(now) {
            let later = self.time.get_time();
            self.record_sweep_at(later);
            true
        } else {
            false
        }
    }

    /// Applies one request to the store and returns its answer.
    pub fn handle(&mut self, request: Request) -> (r: Reply)
        requires
            old(self).well_formed(),
        ensures
            final(self).well_formed(),
            final(self).config() == old(self).config(),
            final(self).clock() == old(self).clock(),
            final(self).last_sweep() == old(self).last_sweep(),
            match (request, r) {
                (Request::Read(key), Reply::Read(value)) => exists|now: u64|
                    text_of(value) == lookup_value(old(self).cache()@, key@, old(self).config().ttl, now)
                    && final(self).cache()@ == after_lookup(old(self).cache()@, key@, old(self).config().ttl, now),
                (Request::Write(key, value), Reply::Write(res)) => {
                    &&& res is Ok <==> old(self).cache().can_store(key@)
                    &&& res is Ok ==> final(self).cache()@ == old(self).cache()@.insert(
                        key@,
                        (value@, final(self).cache()@[key@].1),
                    )
                    &&& res is Err ==> final(self).cache()@ == old(self).cache()@
                    &&& res matches Err(e) ==> e.capacity == old(self).config().capacity
                },
                _ => false,
            },
    {
        match request {
            Request::Read(key) => {
                let value = self.ttl_cache.get(key.as_str());
                proof {
                    let ttl = self.config.ttl;
                    let now = choose|now: u64|
                        text_of(value) == lookup_value(old(self).cache()@, key@, ttl, now)
                        && self.cache()@ == after_lookup(old(self).cache()@, key@, ttl, now);
                    assert(text_of(value) == lookup_value(old(self).cache()@, key@, ttl, now));
                }
                Reply::Read(value)
            },
            Request::Write(key, value) => Reply::Write(self.ttl_cache.set(key, value)),
        }
    }
}

} // verus!
