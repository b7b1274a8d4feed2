//! The background prober's front end: requests go to a worker thread over a
//! channel, results come back over another and are cached by path with the
//! time they arrived.

use vstd::prelude::*;

use std::sync::mpsc::{Receiver, Sender};
use std::time::Instant;

use crate::detect::DetectedProject;
use crate::git_status::GitStatus;
use crate::table::NamedTable;

verus! {

#[verifier::external_type_specification]
#[verifier::external_body]
#[verifier::reject_recursive_types(T)]
pub struct ExSender<T>(Sender<T>);

#[verifier::external_type_specification]
#[verifier::external_body]
#[verifier::reject_recursive_types(T)]
pub struct ExReceiver<T>(Receiver<T>);

#[verifier::external_type_specification]
#[verifier::external_body]
pub struct ExInstant(Instant);

/// Relies on `Sender::send`; a send to a worker that has gone away is dropped.
#[verifier::external_body]
fn send_request(tx: &Sender<String>, path: String) {
    let _ = tx.send(path);
}

/// Relies on `Receiver::try_iter`: the results waiting now, without blocking.
#[verifier::external_body]
fn drain_results(rx: &Receiver<GitStatusResult>) -> (r: Vec<GitStatusResult>) {
    rx.try_iter().collect()
}

/// Relies on `Instant::now`.
#[verifier::external_body]
fn clock_start() -> (r: Instant) {
    Instant::now()
}

/// Relies on `Instant::elapsed` and `Duration::as_millis`: milliseconds since `origin`.
#[verifier::external_body]
fn millis_since(origin: &Instant) -> (r: u64) {
    origin.elapsed().as_millis() as u64
}

/// Seconds after which a cache entry is stale.
pub const STALE_AFTER_SECS: u64 = 30;

/// The outcome of probing one path.
#[derive(Debug)]
pub struct GitStatusResult {
    pub path: String,
    pub git_status: Option<GitStatus>,
    pub detection: Option<DetectedProject>,
}

/// A cached probe result and when it arrived, in milliseconds of the
/// worker's clock.
pub struct CacheEntry {
    pub git_status: Option<GitStatus>,
    pub detection: Option<DetectedProject>,
    pub fetched_at: u64,
}

pub open spec fn entry_of(r: GitStatusResult, now: u64) -> CacheEntry {
    CacheEntry { git_status: r.git_status, detection: r.detection, fetched_at: now }
}

/// The cache after one result has arrived at time `now`.
pub open spec fn ingested(cache: Map<Seq<char>, CacheEntry>, r: GitStatusResult, now: u64) -> Map<Seq<char>, CacheEntry> {
    cache.insert(r.path@, entry_of(r, now))
}

/// The cache after the results `rs` have arrived in order at time `now`.
pub open spec fn ingested_all(cache: Map<Seq<char>, CacheEntry>, rs: Seq<GitStatusResult>, now: u64) -> Map<Seq<char>, CacheEntry>
    decreases rs.len(),
{
    if rs.len() == 0 {
        cache
    } else {
        ingested(ingested_all(cache, rs.drop_last(), now), rs.last(), now)
    }
}

/// Whole seconds from `from` to `to`, zero when `to` is earlier.
pub open spec fn elapsed_secs(from: u64, to: u64) -> int {
    if to >= from {
        (to - from) as int / 1000
    } else {
        0
    }
}

/// Whether the cache holds nothing for `path`, or only an entry older than
/// the staleness window at time `now`.
pub open spec fn stale_at(cache: Map<Seq<char>, CacheEntry>, path: Seq<char>, now: u64) -> bool {
    !cache.contains_key(path) || elapsed_secs(cache[path].fetched_at, now) > STALE_AFTER_SECS
}

/// Queues probes on a worker thread and caches what comes back.
pub struct GitWorker {
    request_tx: Sender<String>,
    result_rx: Receiver<GitStatusResult>,
    cache: NamedTable<CacheEntry>,
    clock: Instant,
}

impl GitWorker {
    /// The cached entries, by path.
    pub closed spec fn cache(&self) -> Map<Seq<char>, CacheEntry> {
        self.cache@
    }

    pub closed spec fn wf(&self) -> bool {
        self.cache.wf()
    }

    /// A worker front end over the two ends of the worker thread's channels,
    /// with an empty cache.
    pub fn new(request_tx: Sender<String>, result_rx: Receiver<GitStatusResult>) -> (r: GitWorker)
        ensures
            r.wf(),
            r.cache() == Map::<Seq<char>, CacheEntry>::empty(),
    {
        GitWorker { request_tx, result_rx, cache: NamedTable::new(), clock: clock_start() }
    }

    /// Asks the worker to probe `path`; never blocks, and does nothing once
    /// the worker has gone.
    pub fn request(&self, path: &str) {
        send_request(&self.request_tx, String::from_str(path));
    }

    /// Stores one result as having arrived at time `now`.
    pub fn ingest(&mut self, result: GitStatusResult, now: u64)
        requires
            old(self).wf(),
        ensures
            final(self).wf(),
            final(self).cache() == ingested(old(self).cache(), result, now),
    {
        let ghost r0 = result;
        let GitStatusResult { path, git_status, detection } = result;
        self.cache.insert(path, CacheEntry { git_status, detection, fetched_at: now });
        proof {
            assert(entry_of(r0, now) == (CacheEntry { git_status, detection, fetched_at: now }));
        }
    }

    /// Stores the results `results`, in order, as having arrived at time
    /// `now`; tells whether there was any.
    pub fn ingest_all(&mut self, results: Vec<GitStatusResult>, now: u64) -> (r: bool)
        requires
            old(self).wf(),
        ensures
            final(self).wf(),
            final(self).cache() == ingested_all(old(self).cache(), results@, now),
            r == (results@.len() > 0),
    {
        let ghost all = results@;
        let n = results.len();
        let mut rest = results;
        let mut done: usize = 0;
        proof {
            assert(all.subrange(0, 0) =~= Seq::<GitStatusResult>::empty());
        }
        while done < n
            invariant
                self.wf(),
                n == all.len(),
                done <= n,
                rest@ == all.subrange(done as int, n as int),
                self.cache() == ingested_all(old(self).cache(), all.subrange(0, done as int), now),
            decreases n - done,
        {
            let item = rest.remove(0);
            proof {
                assert(item == all[done as int]);
                assert(all.subrange(0, done + 1).drop_last() =~= all.subrange(0, done as int));
            }
            self.ingest(item, now);
            done = done + 1;
        }
        proof {
            assert(all.subrange(0, n as int) =~= all);
        }
        n > 0
    }

    /// Takes in every result the worker has finished, without blocking;
    /// tells whether there was any.
    pub fn poll(&mut self) -> (r: bool)
        requires
            old(self).wf(),
        ensures
            final(self).wf(),
            !r ==> final(self).cache() == old(self).cache(),
            exists|rs: Seq<GitStatusResult>, now: u64|
                final(self).cache() == #[trigger] ingested_all(old(self).cache(), rs, now) && r == (rs.len()
                    > 0),
    {
        let results = drain_results(&self.result_rx);
        let now = millis_since(&self.clock);
        self.ingest_all(results, now)
    }

    /// The cached git status of `path`, if a probe of it found one.
    pub fn get_git_status(&self, path: &str) -> (r: Option<&GitStatus>)
        requires
            self.wf(),
        ensures
            r.is_some() == (self.cache().contains_key(path@) && self.cache()[path@].git_status.is_some()),
            r matches Some(g) ==> Some(*g) == self.cache()[path@].git_status,
    {
        match self.cache.get(path) {
            Some(e) => match &e.git_status {
                Some(g) => Some(g),
                None => None,
            },
            None => None,
        }
    }

    /// The cached project detection of `path`, if a probe of it found one.
    pub fn get_detection(&self, path: &str) -> (r: Option<&DetectedProject>)
        requires
            self.wf(),
        ensures
            r.is_some() == (self.cache().contains_key(path@) && self.cache()[path@].detection.is_some()),
            r matches Some(d) ==> Some(*d) == self.cache()[path@].detection,
    {
        match self.cache.get(path) {
            Some(e) => match &e.detection {
                Some(d) => Some(d),
                None => None,
            },
            None => None,
        }
    }

    /// Whether `path` is due for a new probe at time `now`.
    pub fn is_stale_at(&self, path: &str, now: u64) -> (r: bool)
        requires
            self.wf(),
        ensures
            r == stale_at(self.cache(), path@, now),
    {
        match self.cache.get(path) {
            Some(e) => {
                if now >= e.fetched_at {
                    (now - e.fetched_at) / 1000 > STALE_AFTER_SECS
                } else {
                    false
                }
            },
            None => true,
        }
    }

    /// Whether `path` is due for a new probe now.
    pub fn is_stale(&self, path: &str) -> (r: bool)
        requires
            self.wf(),
        ensures
            !self.cache().contains_key(path@) ==> r,
            exists|now: u64| r == #[trigger] stale_at(self.cache(), path@, now),
    {
        let now = millis_since(&self.clock);
        self.is_stale_at(path, now)
    }

    /// Drops every cached entry.
    pub fn invalidate_all(&mut self)
        requires
            old(self).wf(),
        ensures
            final(self).wf(),
            final(self).cache() == Map::<Seq<char>, CacheEntry>::empty(),
    {
        self.cache.clear();
    }
}

/// A result that has just arrived is fresh, and it turns stale once more
/// than the staleness window has passed without a newer one.
pub proof fn lemma_fresh_then_stale(cache: Map<Seq<char>, CacheEntry>, r: GitStatusResult, now: u64, later: u64)
    ensures
        !stale_at(ingested(cache, r, now), r.path@, now),
        later >= now + (STALE_AFTER_SECS + 1) * 1000 ==> stale_at(ingested(cache, r, now), r.path@, later),
{
}

/// When results arrive in order, the cache for a path holds the last result
/// for that path: a later probe overwrites an earlier one.
pub proof fn lemma_last_result_wins(cache: Map<Seq<char>, CacheEntry>, rs: Seq<GitStatusResult>, now: u64, k: int)
    requires
        0 <= k < rs.len(),
        forall|j: int| k < j < rs.len() ==> (#[trigger] rs[j]).path@ != rs[k].path@,
    ensures
        ingested_all(cache, rs, now).contains_key(rs[k].path@),
        ingested_all(cache, rs, now)[rs[k].path@] == entry_of(rs[k], now),
    decreases rs.len(),
{
    if k < rs.len() - 1 {
        let prev = rs.drop_last();
        assert forall|j: int| k < j < prev.len() implies (#[trigger] prev[j]).path@ != prev[k].path@ by {
            assert(prev[j] == rs[j]);
        }
        lemma_last_result_wins(cache, prev, now, k);
        assert(rs.last() == rs[rs.len() - 1]);
    }
}

} // verus!
