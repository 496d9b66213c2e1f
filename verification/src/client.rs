//! Freshness cache over the upstream ride-time source.
//!
//! The cache holds the park catalog (filled once, never invalidated)
//! and the last complete ride-time snapshot with a single clock of its
//! last full refresh. Reads are served from the snapshot while it is
//! fresh; a stale read tells the caller to go upstream. Refreshing is
//! guarded by an in-flight flag claimed by an atomic test-and-set and
//! released on every exit path.
//!
//! Refresh policy (eager return, lazy refresh): a caller that observes
//! staleness fetches only the park it needs directly from the source
//! and returns that result at once, while at most one concurrent
//! caller — the one whose claim of the flag succeeds — refreshes the
//! whole snapshot in the background for subsequent readers.

use vstd::prelude::*;

use crate::model::RideTime;

verus! {

/// How long a full snapshot stays fresh, in milliseconds: the upstream
/// site updates wait times on a five-minute cadence.
pub const FRESH_WINDOW_MS: i64 = 300000;

/// One park catalog entry: display name and rides-page URL.
#[derive(Debug)]
pub struct ParkEntry {
    pub name: String,
    pub url: String,
}

impl Clone for ParkEntry {
    fn clone(&self) -> (res: Self)
        ensures
            res == *self,
    {
        ParkEntry { name: self.name.clone(), url: self.url.clone() }
    }
}

/// One park's cached ride times, keyed by the park's URL.
#[derive(Debug)]
pub struct ParkRides {
    pub url: String,
    pub rides: Vec<RideTime>,
}

/// What a cache read yields.
#[derive(Debug)]
pub enum CacheRead {
    /// The snapshot is fresh and holds the park: its ride list.
    Fresh(Vec<RideTime>),
    /// The snapshot is fresh but the URL is not in it. Every cataloged
    /// park is refreshed together, so this is a caller error, not a
    /// miss.
    UnknownPark,
    /// The snapshot is stale: the caller must go upstream.
    Expired,
}

/// The freshness cache over the upstream ride-time source.
pub struct CachedClient {
    /// Park name to rides-page URL. Filled once, never invalidated.
    pub parks_cache: Vec<ParkEntry>,
    /// Park URL to ride times: the last complete snapshot, replaced
    /// only as a full batch.
    pub ride_cache: Vec<ParkRides>,
    /// Clock reading when the last full refresh completed.
    pub last_updated: i64,
    /// Whether any full refresh has completed yet.
    pub has_snapshot: bool,
    /// True while a refresh is in flight.
    pub currently_updating: bool,
}

/// The URL filed under a park name at index `i` or later.
pub open spec fn spec_url_from(entries: Seq<ParkEntry>, i: int, name: Seq<char>) -> Option<
    Seq<char>,
>
    decreases entries.len() - i,
{
    if i < 0 || i >= entries.len() {
        None
    } else if entries[i].name@ == name {
        Some(entries[i].url@)
    } else {
        spec_url_from(entries, i + 1, name)
    }
}

/// The rides filed under a park URL at index `i` or later.
pub open spec fn spec_rides_from(entries: Seq<ParkRides>, i: int, url: Seq<char>) -> Option<
    Seq<RideTime>,
>
    decreases entries.len() - i,
{
    if i < 0 || i >= entries.len() {
        None
    } else if entries[i].url@ == url {
        Some(entries[i].rides@)
    } else {
        spec_rides_from(entries, i + 1, url)
    }
}

/// The claim step of the refresh guard: the state after the atomic
/// test-and-set, and whether this caller's claim succeeded.
pub open spec fn spec_begin_refresh(c: CachedClient) -> (CachedClient, bool) {
    (
        CachedClient {
            parks_cache: c.parks_cache,
            ride_cache: c.ride_cache,
            last_updated: c.last_updated,
            has_snapshot: c.has_snapshot,
            currently_updating: true,
        },
        !c.currently_updating,
    )
}

/// The state after `n` claim attempts with no release in between.
pub open spec fn spec_begin_n(c: CachedClient, n: nat) -> CachedClient
    decreases n,
{
    if n == 0 {
        c
    } else {
        spec_begin_refresh(spec_begin_n(c, (n - 1) as nat)).0
    }
}

/// Law (stampede safety): after any claim has been made and not yet
/// released, every further claim attempt fails — so of concurrent
/// callers that all observe staleness, at most the first performs the
/// full-refresh fetch until the flag clears.
pub proof fn lemma_refresh_exclusion(c: CachedClient, n: nat)
    requires
        n >= 1,
    ensures
        spec_begin_refresh(spec_begin_n(c, n)).1 == false,
    decreases n,
{
    if n == 1 {
    } else {
        lemma_refresh_exclusion(c, (n - 1) as nat);
    }
}

impl CachedClient {
    /// Whether the snapshot is fresh at clock reading `now`.
    pub open spec fn spec_fresh(&self, now: i64) -> bool {
        self.has_snapshot && now - self.last_updated < FRESH_WINDOW_MS
    }

    /// A new cache: empty catalog, no snapshot, nothing in flight, so
    /// the first read goes upstream.
    pub fn new() -> (r: Self)
        ensures
            r.parks_cache@.len() == 0,
            r.ride_cache@.len() == 0,
            !r.has_snapshot,
            !r.currently_updating,
    {
        CachedClient {
            parks_cache: Vec::new(),
            ride_cache: Vec::new(),
            last_updated: 0,
            has_snapshot: false,
            currently_updating: false,
        }
    }

    /// The cached catalog, or nothing if it was never filled; the
    /// caller then fetches it once and installs it. Never expires once
    /// filled.
    pub fn get_park_urls(&self) -> (r: Option<Vec<ParkEntry>>)
        ensures
            match r {
                Some(v) => self.parks_cache@.len() > 0 && v@ == self.parks_cache@,
                None => self.parks_cache@.len() == 0,
            },
    {
        if self.parks_cache.len() == 0 {
            return None;
        }
        let mut out: Vec<ParkEntry> = Vec::new();
        let mut i: usize = 0;
        while i < self.parks_cache.len()
            invariant
                i <= self.parks_cache.len(),
                out@ =~= self.parks_cache@.take(i as int),
            decreases self.parks_cache.len() - i,
        {
            out.push(self.parks_cache[i].clone());
            i += 1;
        }
        proof {
            assert(self.parks_cache@.take(self.parks_cache@.len() as int) =~= self.parks_cache@);
        }
        Some(out)
    }

    /// Installs the catalog fetched on first access.
    pub fn install_catalog(&mut self, entries: Vec<ParkEntry>)
        requires
            old(self).parks_cache@.len() == 0,
        ensures
            final(self).parks_cache@ == entries@,
            final(self).ride_cache == old(self).ride_cache,
            final(self).last_updated == old(self).last_updated,
            final(self).has_snapshot == old(self).has_snapshot,
            final(self).currently_updating == old(self).currently_updating,
    {
        self.parks_cache = entries;
    }

    /// The rides-page URL filed under a park name, if any.
    pub fn lookup_park_url(&self, name: &String) -> (r: Option<String>)
        ensures
            match r {
                Some(u) => spec_url_from(self.parks_cache@, 0, name@) == Some(u@),
                None => spec_url_from(self.parks_cache@, 0, name@) is None,
            },
    {
        let mut i: usize = 0;
        while i < self.parks_cache.len()
            invariant
                i <= self.parks_cache.len(),
                spec_url_from(self.parks_cache@, 0, name@) == spec_url_from(
                    self.parks_cache@,
                    i as int,
                    name@,
                ),
            decreases self.parks_cache.len() - i,
        {
            if self.parks_cache[i].name == *name {
                return Some(self.parks_cache[i].url.clone());
            }
            i += 1;
        }
        None
    }

    /// Whether the snapshot is fresh at clock reading `now`.
    pub fn is_fresh(&self, now: i64) -> (r: bool)
        ensures
            r == self.spec_fresh(now),
    {
        if !self.has_snapshot {
            false
        } else if now >= self.last_updated {
            match now.checked_sub(self.last_updated) {
                Some(d) => d < FRESH_WINDOW_MS,
                None => false,
            }
        } else {
            true
        }
    }

    /// Serves a read from the snapshot: the park's rides while fresh, a
    /// caller error for a URL outside the catalog's snapshot, or word
    /// that the caller must go upstream because the snapshot is stale.
    pub fn get_ride_times(&self, park_url: &String, now: i64) -> (r: CacheRead)
        ensures
            match r {
                CacheRead::Fresh(v) => self.spec_fresh(now) && spec_rides_from(
                    self.ride_cache@,
                    0,
                    park_url@,
                ) == Some(v@),
                CacheRead::UnknownPark => self.spec_fresh(now) && spec_rides_from(
                    self.ride_cache@,
                    0,
                    park_url@,
                ) is None,
                CacheRead::Expired => !self.spec_fresh(now),
            },
    {
        if !self.is_fresh(now) {
            return CacheRead::Expired;
        }
        let mut i: usize = 0;
        while i < self.ride_cache.len()
            invariant
                i <= self.ride_cache.len(),
                self.spec_fresh(now),
                spec_rides_from(self.ride_cache@, 0, park_url@) == spec_rides_from(
                    self.ride_cache@,
                    i as int,
                    park_url@,
                ),
            decreases self.ride_cache.len() - i,
        {
            if self.ride_cache[i].url == *park_url {
                let entry = &self.ride_cache[i];
                let mut out: Vec<RideTime> = Vec::new();
                let mut j: usize = 0;
                while j < entry.rides.len()
                    invariant
                        j <= entry.rides.len(),
                        out@ =~= entry.rides@.take(j as int),
                    decreases entry.rides.len() - j,
                {
                    out.push(entry.rides[j].clone());
                    j += 1;
                }
                proof {
                    assert(entry.rides@.take(entry.rides@.len() as int) =~= entry.rides@);
                    assert(spec_rides_from(self.ride_cache@, i as int, park_url@) == Some(
                        self.ride_cache@[i as int].rides@,
                    ));
                    assert(out@ == self.ride_cache@[i as int].rides@);
                }
                return CacheRead::Fresh(out);
            }
            i += 1;
        }
        CacheRead::UnknownPark
    }

    /// Atomically claims the refresh guard: returns whether this caller
    /// should perform the refresh. While the flag is set, every further
    /// claim fails.
    pub fn try_begin_refresh(&mut self) -> (r: bool)
        ensures
            (*final(self), r) == spec_begin_refresh(*old(self)),
            r == !old(self).currently_updating,
            final(self).currently_updating,
            final(self).parks_cache == old(self).parks_cache,
            final(self).ride_cache == old(self).ride_cache,
            final(self).last_updated == old(self).last_updated,
            final(self).has_snapshot == old(self).has_snapshot,
    {
        let claimed = !self.currently_updating;
        self.currently_updating = true;
        claimed
    }

    /// Commits a completed full refresh: the whole snapshot is replaced
    /// as one batch, the clock records the completion time, and the
    /// in-flight flag is released.
    pub fn finish_refresh(&mut self, all: Vec<ParkRides>, now: i64)
        ensures
            final(self).ride_cache@ == all@,
            final(self).last_updated == now,
            final(self).has_snapshot,
            !final(self).currently_updating,
            final(self).parks_cache == old(self).parks_cache,
    {
        self.ride_cache = all;
        self.last_updated = now;
        self.has_snapshot = true;
        self.currently_updating = false;
    }

    /// Releases the in-flight flag after a failed or cancelled refresh:
    /// the snapshot and its clock are left untouched, so the next read
    /// retries, and stale-but-valid readers are not disturbed.
    pub fn abort_refresh(&mut self)
        ensures
            !final(self).currently_updating,
            final(self).parks_cache == old(self).parks_cache,
            final(self).ride_cache == old(self).ride_cache,
            final(self).last_updated == old(self).last_updated,
            final(self).has_snapshot == old(self).has_snapshot,
    {
        self.currently_updating = false;
    }
}

} // verus!
