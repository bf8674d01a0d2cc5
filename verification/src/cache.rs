//! The freshness policy of a cached source.
//!
//! A slot is empty until the first successful fetch; after it, the slot
//! holds the last value fetched and the time it was fetched at. A read
//! serves the held value while it is younger than the time to live, and
//! asks for a fetch otherwise. A failed fetch changes nothing, so the
//! last good value is served and the next read asks again.
//!
//! The caller owns the clock and the fetch: it passes the time in, does
//! what `read` plans, and reports what came of it to `complete`. Times and
//! the time to live are counted in one unit of the caller's choosing.

use vstd::prelude::*;

verus! {

/// A value with the time it was fetched at.
#[derive(Debug)]
pub struct CacheEntry<T> {
    pub value: T,
    pub fetched_at: i64,
}

/// One cached source.
#[derive(Debug)]
pub struct Cache<T> {
    /// The last value fetched; `None` before the first successful fetch.
    pub slot: Option<CacheEntry<T>>,
    /// The age at which a held value is stale.
    pub ttl: i64,
}

/// Where a slot stands at some time.
#[derive(Debug, Clone, Copy, PartialEq, Eq, Structural)]
pub enum Freshness {
    /// Nothing was fetched yet.
    Empty,
    /// The held value is younger than the time to live.
    Fresh,
    /// The held value has reached the time to live.
    Stale,
}

/// What came of a fetch.
#[derive(Debug)]
pub enum FetchOutcome<T> {
    /// The source answered and its document parsed.
    Fetched(T),
    /// The source could not be reached, answered with an error status or a
    /// document that does not parse, or did not answer in time.
    Failed,
}

/// Why a read has no value to give.
#[derive(Debug, Clone, Copy, PartialEq, Eq, Structural)]
pub enum CacheError {
    /// The fetch failed and nothing was ever fetched before.
    NoDataAvailable,
}

/// Whether a value fetched at `fetched_at` has reached the age `ttl` at `now`.
pub open spec fn expired(fetched_at: int, ttl: int, now: int) -> bool {
    now - fetched_at >= ttl
}

/// Whether an HTTP status reports success: 200 to 299.
pub open spec fn is_success(status: u16) -> bool {
    200 <= status <= 299
}

impl<T> Cache<T> {
    /// Where the slot stands at `now`.
    pub open spec fn freshness(self, now: int) -> Freshness {
        match self.slot {
            None => Freshness::Empty,
            Some(entry) => if expired(entry.fetched_at as int, self.ttl as int, now) {
                Freshness::Stale
            } else {
                Freshness::Fresh
            },
        }
    }

    /// The slot after a fetch that ended at `now` with `outcome`: a fetched
    /// value replaces what was held and is stamped `now`; a failure leaves
    /// the slot as it was.
    pub open spec fn after(self, outcome: FetchOutcome<T>, now: i64) -> Cache<T> {
        match outcome {
            FetchOutcome::Fetched(value) => Cache {
                slot: Some(CacheEntry { value, fetched_at: now }),
                ttl: self.ttl,
            },
            FetchOutcome::Failed => self,
        }
    }

    /// The empty slot with the time to live `ttl`.
    pub open spec fn empty(ttl: i64) -> Cache<T> {
        Cache { slot: None, ttl }
    }

    /// An empty slot with the time to live `ttl`.
    pub fn new(ttl: i64) -> (r: Cache<T>)
        ensures
            r == Cache::<T>::empty(ttl),
            forall|now: int| r.freshness(now) == Freshness::Empty,
    {
        Cache { slot: None, ttl }
    }

    /// A slot that holds `value` as if fetched at `fetched_at`.
    pub fn preloaded(value: T, fetched_at: i64, ttl: i64) -> (r: Cache<T>)
        ensures
            r == Cache::<T>::empty(ttl).after(FetchOutcome::Fetched(value), fetched_at),
    {
        Cache { slot: Some(CacheEntry { value, fetched_at }), ttl }
    }

    /// Tells where the slot stands at `now`.
    pub fn state(&self, now: i64) -> (r: Freshness)
        ensures
            r == self.freshness(now as int),
    {
        match &self.slot {
            None => Freshness::Empty,
            Some(entry) => {
                let age: i128 = now as i128 - entry.fetched_at as i128;
                if age >= self.ttl as i128 {
                    Freshness::Stale
                } else {
                    Freshness::Fresh
                }
            },
        }
    }

    /// Whether a value is held and stale at `now`: what the periodic
    /// refresh asks. An empty slot is not stale.
    pub fn is_stale(&self, now: i64) -> (r: bool)
        ensures
            r == (self.freshness(now as int) == Freshness::Stale),
    {
        match self.state(now) {
            Freshness::Stale => true,
            _ => false,
        }
    }

    /// Plans a read at `now`: the held value where it is fresh, to be
    /// served with no fetch; `None` where a fetch is due, whose outcome
    /// goes to `complete`.
    pub fn read(&self, now: i64) -> (r: Option<&T>)
        ensures
            r is Some <==> self.freshness(now as int) == Freshness::Fresh,
            r matches Some(value) ==> self.slot matches Some(entry) && *value == entry.value,
    {
        match self.state(now) {
            Freshness::Fresh => match &self.slot {
                Some(entry) => Some(&entry.value),
                None => None,
            },
            _ => None,
        }
    }

    /// Takes in the outcome of a fetch that ended at `now` and gives the
    /// value to serve: the fetched value, which is then held and stamped
    /// `now`; after a failure the value held before, with slot and stamp
    /// unchanged; or `NoDataAvailable` where the fetch failed and nothing is
    /// held.
    pub fn complete(&mut self, outcome: FetchOutcome<T>, now: i64) -> (r: Result<&T, CacheError>)
        ensures
            *final(self) == old(self).after(outcome, now),
            match r {
                Ok(value) => final(self).slot matches Some(entry) && *value == entry.value,
                Err(e) => e == CacheError::NoDataAvailable && outcome is Failed && old(self).slot
                    is None,
            },
    {
        match outcome {
            FetchOutcome::Fetched(value) => {
                self.slot = Some(CacheEntry { value, fetched_at: now });
            },
            FetchOutcome::Failed => {},
        }
        match &self.slot {
            Some(entry) => Ok(&entry.value),
            None => Err(CacheError::NoDataAvailable),
        }
    }
}

/// What a fetch came to, given the HTTP status of the answer and the
/// document parsed from its body, if it parsed: `Fetched` for a success
/// status with a document, `Failed` otherwise.
pub open spec fn fetch_outcome<T>(status: u16, document: Option<T>) -> FetchOutcome<T> {
    match document {
        Some(value) => if is_success(status) {
            FetchOutcome::Fetched(value)
        } else {
            FetchOutcome::Failed
        },
        None => FetchOutcome::Failed,
    }
}

/// Tells what a fetch came to, given the HTTP status of the answer and
/// the document parsed from its body, if it parsed.
pub fn outcome_of<T>(status: u16, document: Option<T>) -> (r: FetchOutcome<T>)
    ensures
        r == fetch_outcome(status, document),
{
    match document {
        Some(value) => if 200 <= status && status <= 299 {
            FetchOutcome::Fetched(value)
        } else {
            FetchOutcome::Failed
        },
        None => FetchOutcome::Failed,
    }
}

/// A value fetched at `at` is served without a fetch at every time before
/// it reaches the time to live, and every read from that age on asks for
/// a fetch.
pub proof fn lemma_fresh_until_ttl<T>(c: Cache<T>, value: T, at: i64, now: int)
    ensures
        now - at < c.ttl ==> c.after(FetchOutcome::Fetched(value), at).freshness(now)
            == Freshness::Fresh,
        now - at >= c.ttl ==> c.after(FetchOutcome::Fetched(value), at).freshness(now)
            == Freshness::Stale,
{
}

/// A successful fetch replaces the held value and resets its time, so the
/// new value is fresh for any positive time to live.
pub proof fn lemma_refresh_resets<T>(c: Cache<T>, value: T, now: i64)
    ensures
        c.after(FetchOutcome::Fetched(value), now).slot == Some(
            CacheEntry { value, fetched_at: now },
        ),
        c.ttl > 0 ==> c.after(FetchOutcome::Fetched(value), now).freshness(now as int)
            == Freshness::Fresh,
{
}

/// A failed fetch, such as an answer with status 500, leaves value and
/// time as they were; the slot does not turn fresh by waiting, so every
/// later read asks for a fetch again.
pub proof fn lemma_failure_keeps_and_retries<T>(
    c: Cache<T>,
    status: u16,
    document: Option<T>,
    now: i64,
    later: int,
)
    requires
        !is_success(status),
        c.freshness(now as int) != Freshness::Fresh,
        later >= now,
    ensures
        c.after(fetch_outcome(status, document), now) == c,
        c.after(fetch_outcome(status, document), now).freshness(later) != Freshness::Fresh,
{
}

} // verus!
