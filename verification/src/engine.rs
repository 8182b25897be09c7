//! The engine: indexing and search over one store.
//!
//! It owns the store, the last query's results, the cached `similar:`
//! reference record, and the indexing progress counters.  Computing a
//! reference record's hashes is the caller's step: when a query needs
//! one, the engine hands back the path and the caller supplies the
//! record; while the cached reference's path still matches the
//! requested one (ASCII-case-insensitively), the cache is reused and
//! nothing is recomputed.

use vstd::prelude::*;

use crate::distance::Distance;
use crate::query::{
    parse_tokens, parse_tokens_spec, similar_request, similar_request_spec, tokenize_query,
    tokenize_spec, PredV, Predicate, QueryError,
};
use crate::record::{record_valid, Record, RecordV};
use crate::store::{
    has_glob, has_path, ids_unique, rec_hash_agree, ref_view, remove_glob_spec, results_within,
    scan_err, scan_result_complete, scan_sound, sorted_by_key, Store, StoreError,
};
use crate::text::{seq_eq_ci, str_eq_ci};

verus! {

/// The most results a query returns.
pub const MAX_SEARCH_RESULTS: usize = 100;

/// How many recently indexed names are kept for display.
pub const LAST_INDEXED_CAP: usize = 10;

/// Why a query failed.
#[derive(Clone, Copy, Debug, PartialEq, Eq, Structural)]
pub enum EngineError {
    /// The query text could not be tokenized.
    Syntax(QueryError),
    /// The scan rejected the reference vector.
    Scan(StoreError),
}

/// What a query call asks of its caller.
#[derive(Debug, PartialEq, Eq)]
pub enum QueryStep {
    /// The query ran; the results are cached.
    Completed,
    /// The query names a `similar:` path whose reference record is not
    /// cached: compute it and call `query_with_reference`.
    NeedsReference(String),
}

/// What the drain task did with one extracted record.
#[derive(Clone, Copy, Debug, PartialEq, Eq, Structural)]
pub enum DrainOutcome {
    /// The record was new and is now stored.
    Stored,
    /// A record with that canonical path was already stored; the
    /// duplicate is dropped silently.
    AlreadyPresent,
    /// The store refused the record.
    Failed(StoreError),
}

/// The cached reference must be recomputed when there is none, or when
/// its path differs (ASCII-case-insensitively) from the requested one.
pub open spec fn needs_recalculation_spec(cached: Option<Record>, path: Seq<char>) -> bool {
    match cached {
        Option::None => true,
        Option::Some(r) => !seq_eq_ci(r.path@, path),
    }
}

/// Whether a `similar:` request requires recomputing the reference.
pub fn needs_recalculation(cached: &Option<Record>, path: &str) -> (b: bool)
    ensures
        b == needs_recalculation_spec(*cached, path@),
{
    match cached {
        Option::None => true,
        Option::Some(r) => !str_eq_ci(r.path.as_str(), path),
    }
}

/// The memoization law: once a reference record whose path matches the
/// requested path (up to ASCII case) is cached, re-issuing the same
/// `similar:` request recomputes nothing.
pub proof fn lemma_reference_memoized(cached: Record, path: Seq<char>)
    requires
        seq_eq_ci(cached.path@, path),
    ensures
        !needs_recalculation_spec(Some(cached), path),
{
}

/// The reference vector a query ranks by: the cached record's visual
/// hash when the query has a `similar:` term, nothing otherwise.
pub open spec fn used_ref_spec(cached: Option<Record>, pv: Seq<PredV>) -> Option<Seq<u8>> {
    match similar_request_spec(pv) {
        Option::None => Option::None,
        Option::Some(_) => match cached {
            Option::None => Option::None,
            Option::Some(r) => r.visual_hash.deep_view(),
        },
    }
}

/// Everything an executed query guarantees of the cached result list.
pub open spec fn query_results_ok(
    out: Seq<Record>,
    rs: Seq<Record>,
    pv: Seq<PredV>,
    rv: Option<Seq<u8>>,
    maxd: Distance,
) -> bool {
    &&& out.len() <= MAX_SEARCH_RESULTS
    &&& sorted_by_key(out)
    &&& ids_unique(out)
    &&& scan_sound(out, rs, pv, rv, maxd, rs.len() as int)
    &&& scan_result_complete(out, rs, pv, rv, maxd, MAX_SEARCH_RESULTS as int)
    &&& results_within(out, rv, maxd)
}

/// What an executed query leaves behind: on a reference the scan
/// rejects, the error with the results cleared; otherwise success with
/// the ranked results cached.
pub open spec fn query_outcome(
    r: Result<QueryStep, EngineError>,
    rs: Seq<Record>,
    pv: Seq<PredV>,
    rv: Option<Seq<u8>>,
    maxd: Distance,
    results: Option<Vec<Record>>,
) -> bool {
    &&& scan_err(rs, pv, rv) ==> {
        &&& r == Err::<QueryStep, EngineError>(EngineError::Scan(StoreError::HashLengthMismatch))
        &&& results is None
    }
    &&& !scan_err(rs, pv, rv) ==> {
        &&& r is Ok
        &&& r->Ok_0 is Completed
        &&& results is Some
        &&& query_results_ok((results->0)@, rs, pv, rv, maxd)
    }
}

/// As `query_outcome`, for the calls whose success carries no step.
pub open spec fn query_unit_outcome(
    r: Result<(), EngineError>,
    rs: Seq<Record>,
    pv: Seq<PredV>,
    rv: Option<Seq<u8>>,
    maxd: Distance,
    results: Option<Vec<Record>>,
) -> bool {
    &&& scan_err(rs, pv, rv) ==> {
        &&& r == Err::<(), EngineError>(EngineError::Scan(StoreError::HashLengthMismatch))
        &&& results is None
    }
    &&& !scan_err(rs, pv, rv) ==> {
        &&& r == Ok::<(), EngineError>(())
        &&& results is Some
        &&& query_results_ok((results->0)@, rs, pv, rv, maxd)
    }
}

/// The indexing and search engine.
pub struct Engine {
    store: Store,
    last_indexed: Vec<String>,
    cached_index_size: Option<usize>,
    cached_search_results: Option<Vec<Record>>,
    cached_image_search: Option<Record>,
    indexing_active: bool,
    pending_files: u64,
    pending_records: u64,
    completed_unread: u64,
}

impl Engine {
    /// The stored records, in insertion order.
    pub closed spec fn recs(&self) -> Seq<Record> {
        self.store.recs()
    }

    /// The next id the store will assign.
    pub closed spec fn next(&self) -> int {
        self.store.next()
    }

    /// The watched directory globs.
    pub closed spec fn globs(&self) -> Seq<String> {
        self.store.globs()
    }

    /// The distance cutoff for ranked queries.
    pub closed spec fn max_dist(&self) -> Distance {
        self.store.max_dist()
    }

    /// The last query's cached results.
    pub closed spec fn results(&self) -> Option<Vec<Record>> {
        self.cached_search_results
    }

    /// The cached `similar:` reference record.
    pub closed spec fn reference(&self) -> Option<Record> {
        self.cached_image_search
    }

    /// The recently indexed names not yet trimmed.
    pub closed spec fn last_shown(&self) -> Seq<String> {
        self.last_indexed@
    }

    /// Whether an indexing run is underway.
    pub closed spec fn active(&self) -> bool {
        self.indexing_active
    }

    /// Discovered files not yet extracted.
    pub closed spec fn pending_files(&self) -> int {
        self.pending_files as int
    }

    /// Extracted records not yet drained into the store.
    pub closed spec fn pending_records(&self) -> int {
        self.pending_records as int
    }

    /// Stored names not yet read by the caller.
    pub closed spec fn completed_unread(&self) -> int {
        self.completed_unread as int
    }

    /// The cached index size, if a count has been taken since the last
    /// insertion.
    pub closed spec fn cached_count(&self) -> Option<usize> {
        self.cached_index_size
    }

    /// The engine's invariant: its store's invariant, and a cached
    /// index size that is never stale.
    pub closed spec fn inv(&self) -> bool {
        &&& self.store.inv()
        &&& match self.cached_index_size {
            Option::Some(n) => n == self.store.recs().len(),
            Option::None => true,
        }
    }

    /// A fresh engine over an empty store: idle, nothing cached.
    pub fn new() -> (e: Engine)
        ensures
            e.inv(),
            e.recs() =~= Seq::<Record>::empty(),
            e.globs() =~= Seq::<String>::empty(),
            e.next() == 1,
            e.results() is None,
            e.reference() is None,
            e.cached_count() is None,
            !e.active(),
            e.pending_files() == 0 && e.pending_records() == 0 && e.completed_unread() == 0,
            e.last_shown() =~= Seq::<String>::empty(),
            e.max_dist() == (Distance { num: 1_000_000, den: 1 }),
    {
        Engine {
            store: Store::new(),
            last_indexed: Vec::new(),
            cached_index_size: None,
            cached_search_results: None,
            cached_image_search: None,
            indexing_active: false,
            pending_files: 0,
            pending_records: 0,
            completed_unread: 0,
        }
    }

    /// Sets the distance cutoff for ranked queries.
    pub fn set_max_distance(&mut self, d: Distance)
        requires
            old(self).inv(),
            d.den >= 1,
        ensures
            final(self).inv(),
            final(self).max_dist() == d,
            final(self).recs() == old(self).recs(),
            final(self).next() == old(self).next(),
            final(self).globs() == old(self).globs(),
            final(self).results() == old(self).results(),
            final(self).reference() == old(self).reference(),
            final(self).last_shown() == old(self).last_shown(),
            final(self).active() == old(self).active(),
            final(self).pending_files() == old(self).pending_files(),
            final(self).pending_records() == old(self).pending_records(),
            final(self).completed_unread() == old(self).completed_unread(),
            final(self).cached_count() == old(self).cached_count(),
    {
        self.store.set_max_distance(d);
    }

    /// Whether a record with this canonical path is already indexed.
    pub fn exists_by_path(&self, path: &String) -> (r: bool)
        ensures
            r == has_path(self.recs(), path@),
    {
        self.store.exists_by_path(path)
    }

    /// Drains one extracted record into the store: an unseen canonical
    /// path under a valid record is inserted and its name queued for
    /// the recently-indexed display; an already-present path is dropped
    /// silently, queueing nothing (an idempotent re-run); anything the
    /// store refuses is reported, queueing nothing.
    pub fn drain_record(&mut self, rec: Record) -> (r: DrainOutcome)
        requires
            old(self).inv(),
            old(self).next() < 0x7FFF_FFFF_FFFF_FFFF,
        ensures
            final(self).inv(),
            final(self).globs() == old(self).globs(),
            final(self).results() == old(self).results(),
            final(self).reference() == old(self).reference(),
            final(self).active() == old(self).active(),
            final(self).pending_files() == old(self).pending_files(),
            final(self).max_dist() == old(self).max_dist(),
            has_path(old(self).recs(), rec.path@) ==> {
                &&& r == DrainOutcome::AlreadyPresent
                &&& final(self).recs() == old(self).recs()
            },
            !has_path(old(self).recs(), rec.path@) && record_valid(rec@) && rec_hash_agree(
                rec@,
                rec@,
            ) && (forall|i: int|
                0 <= i < old(self).recs().len() ==> rec_hash_agree(
                    #[trigger] old(self).recs()[i]@,
                    rec@,
                )) ==> r is Stored,
            r is Stored ==> {
                &&& !has_path(old(self).recs(), rec.path@)
                &&& final(self).recs().len() == old(self).recs().len() + 1
                &&& final(self).recs().drop_last() == old(self).recs()
                &&& final(self).recs().last()@ == (RecordV {
                    id: old(self).next(),
                    distance_from_query: None,
                    ..rec@
                })
                &&& final(self).last_shown() == old(self).last_shown().push(rec.filename)
                &&& final(self).cached_count() is None
            },
            !(r is Stored) ==> {
                &&& final(self).recs() == old(self).recs()
                &&& final(self).last_shown() == old(self).last_shown()
                &&& final(self).pending_records() == old(self).pending_records()
                &&& final(self).completed_unread() == old(self).completed_unread()
                &&& final(self).cached_count() == old(self).cached_count()
                &&& final(self).next() == old(self).next()
            },
    {
        if self.store.exists_by_path(&rec.path) {
            return DrainOutcome::AlreadyPresent;
        }
        let fname = rec.filename.clone();
        match self.store.insert(rec) {
            Result::Ok(_) => {
                self.last_indexed.push(fname);
                if self.pending_records > 0 {
                    self.pending_records = self.pending_records - 1;
                }
                if self.completed_unread < 0xFFFF_FFFF_FFFF_FFFF {
                    self.completed_unread = self.completed_unread + 1;
                }
                self.cached_index_size = None;
                DrainOutcome::Stored
            },
            Result::Err(e) => DrainOutcome::Failed(e),
        }
    }

    /// The recently indexed names, trimmed to the newest ten.
    pub fn get_last_indexed(&mut self) -> (r: &Vec<String>)
        requires
            old(self).inv(),
        ensures
            final(self).inv(),
            final(self).recs() == old(self).recs(),
            final(self).next() == old(self).next(),
            final(self).globs() == old(self).globs(),
            final(self).results() == old(self).results(),
            final(self).reference() == old(self).reference(),
            final(self).active() == old(self).active(),
            final(self).pending_files() == old(self).pending_files(),
            final(self).pending_records() == old(self).pending_records(),
            final(self).completed_unread() == old(self).completed_unread(),
            final(self).cached_count() == old(self).cached_count(),
            final(self).max_dist() == old(self).max_dist(),
            r@ == final(self).last_shown(),
            final(self).last_shown() == old(self).last_shown().skip(
                if old(self).last_shown().len() > LAST_INDEXED_CAP {
                    old(self).last_shown().len() - LAST_INDEXED_CAP
                } else {
                    0
                },
            ),
    {
        let n = self.last_indexed.len();
        if n > LAST_INDEXED_CAP {
            let cut = n - LAST_INDEXED_CAP;
            let mut trimmed: Vec<String> = Vec::new();
            let mut i: usize = cut;
            while i < n
                invariant
                    n == self.last_indexed@.len(),
                    cut <= i <= n,
                    cut == n - LAST_INDEXED_CAP,
                    trimmed@ == self.last_indexed@.subrange(cut as int, i as int),
                decreases n - i,
            {
                let s = self.last_indexed[i].clone();
                let ghost pre = trimmed@;
                trimmed.push(s);
                proof {
                    assert(trimmed@ =~= self.last_indexed@.subrange(cut as int, i + 1));
                }
                i = i + 1;
            }
            proof {
                assert(self.last_indexed@.subrange(cut as int, n as int) =~= self.last_indexed@.skip(
                    cut as int,
                ));
            }
            self.last_indexed = trimmed;
        } else {
            proof {
                assert(self.last_indexed@.skip(0) =~= self.last_indexed@);
            }
        }
        &self.last_indexed
    }

    /// The cached index size, if one has been computed.
    pub fn try_get_num_indexed_images(&self) -> (r: Option<usize>)
        requires
            self.inv(),
        ensures
            r == self.cached_count(),
            r is Some ==> r->0 == self.recs().len(),
    {
        self.cached_index_size
    }

    /// Counts the indexed images and caches the count.
    pub fn get_num_indexed_images(&mut self) -> (r: usize)
        requires
            old(self).inv(),
        ensures
            final(self).inv(),
            final(self).recs() == old(self).recs(),
            final(self).globs() == old(self).globs(),
            final(self).results() == old(self).results(),
            final(self).reference() == old(self).reference(),
            final(self).last_shown() == old(self).last_shown(),
            final(self).active() == old(self).active(),
            final(self).pending_files() == old(self).pending_files(),
            final(self).pending_records() == old(self).pending_records(),
            final(self).completed_unread() == old(self).completed_unread(),
            final(self).max_dist() == old(self).max_dist(),
            final(self).next() == old(self).next(),
            r == old(self).recs().len(),
            final(self).cached_count() == Some(r),
    {
        let n = self.store.len();
        self.cached_index_size = Some(n);
        n
    }

    /// Registers a watched directory glob; duplicates are rejected.
    pub fn add_tracked_folder(&mut self, folder_glob: String) -> (r: Result<(), StoreError>)
        requires
            old(self).inv(),
        ensures
            final(self).inv(),
            final(self).recs() == old(self).recs(),
            final(self).next() == old(self).next(),
            final(self).results() == old(self).results(),
            final(self).reference() == old(self).reference(),
            final(self).last_shown() == old(self).last_shown(),
            final(self).active() == old(self).active(),
            final(self).pending_files() == old(self).pending_files(),
            final(self).pending_records() == old(self).pending_records(),
            final(self).completed_unread() == old(self).completed_unread(),
            final(self).cached_count() == old(self).cached_count(),
            final(self).max_dist() == old(self).max_dist(),
            has_glob(old(self).globs(), folder_glob@) ==> {
                &&& r == Err::<(), StoreError>(StoreError::Conflict)
                &&& final(self).globs() == old(self).globs()
            },
            !has_glob(old(self).globs(), folder_glob@) ==> {
                &&& r == Ok::<(), StoreError>(())
                &&& final(self).globs() == old(self).globs().push(folder_glob)
            },
    {
        self.store.add_watched_directory(folder_glob)
    }

    /// Drops a watched directory glob: the registry keeps every other
    /// glob in order, and removing an absent glob changes nothing.
    pub fn remove_tracked_folder(&mut self, folder_glob: &String)
        requires
            old(self).inv(),
        ensures
            final(self).inv(),
            final(self).recs() == old(self).recs(),
            final(self).next() == old(self).next(),
            final(self).results() == old(self).results(),
            final(self).reference() == old(self).reference(),
            final(self).last_shown() == old(self).last_shown(),
            final(self).active() == old(self).active(),
            final(self).pending_files() == old(self).pending_files(),
            final(self).pending_records() == old(self).pending_records(),
            final(self).completed_unread() == old(self).completed_unread(),
            final(self).cached_count() == old(self).cached_count(),
            final(self).max_dist() == old(self).max_dist(),
            final(self).globs() == remove_glob_spec(old(self).globs(), folder_glob@),
            !has_glob(final(self).globs(), folder_glob@),
            forall|g: Seq<char>|
                g != folder_glob@ ==> #[trigger] has_glob(final(self).globs(), g) == has_glob(
                    old(self).globs(),
                    g,
                ),
    {
        self.store.remove_watched_directory(folder_glob)
    }

    /// The watched directory globs, in registration order.
    pub fn get_tracked_folders(&self) -> (r: &Vec<String>)
        ensures
            r@ == self.globs(),
    {
        self.store.list_watched_directories()
    }

    /// The last query's cached results.
    pub fn get_query_results(&self) -> (r: &Option<Vec<Record>>)
        ensures
            *r == self.results(),
    {
        &self.cached_search_results
    }

    /// Forgets the last query's results; everything else keeps its
    /// value.
    pub fn clear_query_results(&mut self)
        requires
            old(self).inv(),
        ensures
            final(self).inv(),
            final(self).recs() == old(self).recs(),
            final(self).next() == old(self).next(),
            final(self).globs() == old(self).globs(),
            final(self).reference() == old(self).reference(),
            final(self).last_shown() == old(self).last_shown(),
            final(self).active() == old(self).active(),
            final(self).pending_files() == old(self).pending_files(),
            final(self).pending_records() == old(self).pending_records(),
            final(self).completed_unread() == old(self).completed_unread(),
            final(self).cached_count() == old(self).cached_count(),
            final(self).max_dist() == old(self).max_dist(),
            final(self).results() is None,
    {
        self.cached_search_results = None;
    }

    /// Whether an indexing run is underway.
    pub fn is_indexing_active(&self) -> (b: bool)
        ensures
            b == self.active(),
    {
        self.indexing_active
    }

    /// Starts an indexing run: a no-op while one is already underway,
    /// else the counters reset and the watched globs to crawl are
    /// handed back.
    pub fn start_reindexing(&mut self) -> (r: Option<Vec<String>>)
        requires
            old(self).inv(),
        ensures
            final(self).inv(),
            final(self).recs() == old(self).recs(),
            final(self).next() == old(self).next(),
            final(self).globs() == old(self).globs(),
            final(self).results() == old(self).results(),
            final(self).reference() == old(self).reference(),
            final(self).last_shown() == old(self).last_shown(),
            final(self).completed_unread() == old(self).completed_unread(),
            final(self).cached_count() == old(self).cached_count(),
            final(self).max_dist() == old(self).max_dist(),
            old(self).active() ==> {
                &&& r is None
                &&& final(self).active()
                &&& final(self).pending_files() == old(self).pending_files()
                &&& final(self).pending_records() == old(self).pending_records()
            },
            !old(self).active() ==> {
                &&& r is Some
                &&& r->0@ == old(self).globs()
                &&& final(self).active()
                &&& final(self).pending_files() == 0
                &&& final(self).pending_records() == 0
            },
    {
        if self.indexing_active {
            return None;
        }
        self.indexing_active = true;
        self.pending_files = 0;
        self.pending_records = 0;
        let globs = self.store.list_watched_directories();
        let n = globs.len();
        let mut out: Vec<String> = Vec::new();
        let mut i: usize = 0;
        while i < n
            invariant
                n == globs@.len(),
                globs@ == self.store.globs(),
                0 <= i <= n,
                out@ == globs@.subrange(0, i as int),
            decreases n - i,
        {
            let s = globs[i].clone();
            proof {
                assert(out@.push(globs@[i as int]) =~= globs@.subrange(0, i + 1));
            }
            out.push(s);
            i = i + 1;
        }
        proof {
            assert(globs@.subrange(0, n as int) =~= globs@);
        }
        Some(out)
    }

    /// Notes one discovered file awaiting extraction.
    pub fn note_file_discovered(&mut self)
        requires
            old(self).inv(),
        ensures
            final(self).inv(),
            final(self).recs() == old(self).recs(),
            final(self).next() == old(self).next(),
            final(self).globs() == old(self).globs(),
            final(self).pending_files() == if old(self).pending_files() < 0xFFFF_FFFF_FFFF_FFFF {
                old(self).pending_files() + 1
            } else {
                old(self).pending_files()
            },
            final(self).pending_records() == old(self).pending_records(),
            final(self).completed_unread() == old(self).completed_unread(),
            final(self).results() == old(self).results(),
            final(self).reference() == old(self).reference(),
            final(self).last_shown() == old(self).last_shown(),
            final(self).active() == old(self).active(),
            final(self).cached_count() == old(self).cached_count(),
            final(self).max_dist() == old(self).max_dist(),
    {
        if self.pending_files < 0xFFFF_FFFF_FFFF_FFFF {
            self.pending_files = self.pending_files + 1;
        }
    }

    /// Notes one file turned into a record awaiting the drain.
    pub fn note_record_ready(&mut self)
        requires
            old(self).inv(),
        ensures
            final(self).inv(),
            final(self).recs() == old(self).recs(),
            final(self).next() == old(self).next(),
            final(self).globs() == old(self).globs(),
            final(self).pending_files() == if old(self).pending_files() > 0 {
                old(self).pending_files() - 1
            } else {
                0
            },
            final(self).pending_records() == if old(self).pending_records()
                < 0xFFFF_FFFF_FFFF_FFFF {
                old(self).pending_records() + 1
            } else {
                old(self).pending_records()
            },
            final(self).completed_unread() == old(self).completed_unread(),
            final(self).results() == old(self).results(),
            final(self).reference() == old(self).reference(),
            final(self).last_shown() == old(self).last_shown(),
            final(self).active() == old(self).active(),
            final(self).cached_count() == old(self).cached_count(),
            final(self).max_dist() == old(self).max_dist(),
    {
        if self.pending_files > 0 {
            self.pending_files = self.pending_files - 1;
        }
        if self.pending_records < 0xFFFF_FFFF_FFFF_FFFF {
            self.pending_records = self.pending_records + 1;
        }
    }

    /// Notes that discovery finished and the drain ran dry: the run is
    /// over.
    pub fn note_indexing_finished(&mut self)
        requires
            old(self).inv(),
        ensures
            final(self).inv(),
            final(self).recs() == old(self).recs(),
            final(self).next() == old(self).next(),
            final(self).globs() == old(self).globs(),
            !final(self).active(),
            final(self).pending_files() == 0,
            final(self).pending_records() == 0,
            final(self).completed_unread() == old(self).completed_unread(),
            final(self).results() == old(self).results(),
            final(self).reference() == old(self).reference(),
            final(self).last_shown() == old(self).last_shown(),
            final(self).cached_count() == old(self).cached_count(),
            final(self).max_dist() == old(self).max_dist(),
    {
        self.indexing_active = false;
        self.pending_files = 0;
        self.pending_records = 0;
    }

    /// Runs a parsed query against the store with the current cached
    /// reference and caches what comes back.
    fn execute_query(&mut self, preds: &Vec<Predicate>) -> (r: Result<(), EngineError>)
        requires
            old(self).inv(),
        ensures
            final(self).inv(),
            final(self).recs() == old(self).recs(),
            final(self).next() == old(self).next(),
            final(self).globs() == old(self).globs(),
            final(self).reference() == old(self).reference(),
            final(self).last_shown() == old(self).last_shown(),
            final(self).active() == old(self).active(),
            final(self).pending_files() == old(self).pending_files(),
            final(self).pending_records() == old(self).pending_records(),
            final(self).completed_unread() == old(self).completed_unread(),
            final(self).cached_count() == old(self).cached_count(),
            final(self).max_dist() == old(self).max_dist(),
            ({
                let rv = used_ref_spec(old(self).reference(), preds.deep_view());
                &&& scan_err(old(self).recs(), preds.deep_view(), rv) ==> {
                    &&& r == Err::<(), EngineError>(
                        EngineError::Scan(StoreError::HashLengthMismatch),
                    )
                    &&& final(self).results() is None
                }
                &&& !scan_err(old(self).recs(), preds.deep_view(), rv) ==> {
                    &&& r == Ok::<(), EngineError>(())
                    &&& final(self).results() is Some
                    &&& query_results_ok(
                        (final(self).results()->0)@,
                        old(self).recs(),
                        preds.deep_view(),
                        rv,
                        old(self).max_dist(),
                    )
                }
            }),
    {
        self.cached_search_results = None;
        let ghost rv = used_ref_spec(self.cached_image_search, preds.deep_view());
        let has_similar = match similar_request(preds) {
            Option::Some(_) => true,
            Option::None => false,
        };
        let res = if has_similar {
            match &self.cached_image_search {
                Option::Some(cached) => {
                    match &cached.visual_hash {
                        Option::Some(h) => {
                            proof {
                                assert(ref_view(Some(h)) == rv);
                            }
                            self.store.find_by_predicate(preds, Some(h), MAX_SEARCH_RESULTS)
                        },
                        Option::None => {
                            proof {
                                assert(ref_view(None::<&Vec<u8>>) == rv);
                            }
                            self.store.find_by_predicate(preds, None, MAX_SEARCH_RESULTS)
                        },
                    }
                },
                Option::None => {
                    proof {
                        assert(ref_view(None::<&Vec<u8>>) == rv);
                    }
                    self.store.find_by_predicate(preds, None, MAX_SEARCH_RESULTS)
                },
            }
        } else {
            proof {
                assert(ref_view(None::<&Vec<u8>>) == rv);
            }
            self.store.find_by_predicate(preds, None, MAX_SEARCH_RESULTS)
        };
        match res {
            Result::Ok(out) => {
                self.cached_search_results = Some(out);
                Ok(())
            },
            Result::Err(_) => {
                self.cached_search_results = None;
                Err(EngineError::Scan(StoreError::HashLengthMismatch))
            },
        }
    }

    /// Parses and runs a query.  Empty input is a no-op that preserves
    /// the previous results; malformed input is rejected with the
    /// previous results retained.  A `similar:` term whose path differs
    /// from the cached reference's asks the caller for a fresh
    /// reference record instead of running; everything else executes
    /// against the store and caches the results.
    pub fn query(&mut self, user_input: &String) -> (r: Result<QueryStep, EngineError>)
        requires
            old(self).inv(),
        ensures
            final(self).inv(),
            final(self).recs() == old(self).recs(),
            final(self).next() == old(self).next(),
            final(self).globs() == old(self).globs(),
            final(self).reference() == old(self).reference(),
            final(self).last_shown() == old(self).last_shown(),
            final(self).active() == old(self).active(),
            final(self).pending_files() == old(self).pending_files(),
            final(self).pending_records() == old(self).pending_records(),
            final(self).completed_unread() == old(self).completed_unread(),
            final(self).cached_count() == old(self).cached_count(),
            final(self).max_dist() == old(self).max_dist(),
            user_input@.len() == 0 ==> {
                &&& r is Ok
                &&& r->Ok_0 is Completed
                &&& final(self).results() == old(self).results()
            },
            user_input@.len() > 0 ==> match tokenize_spec(user_input@) {
                Result::Err(e) => {
                    &&& r == Err::<QueryStep, EngineError>(EngineError::Syntax(e))
                    &&& final(self).results() == old(self).results()
                },
                Result::Ok(toks) => {
                    let pv = parse_tokens_spec(toks);
                    let rv = used_ref_spec(old(self).reference(), pv);
                    match similar_request_spec(pv) {
                        Option::Some(p) => {
                            if needs_recalculation_spec(old(self).reference(), p) {
                                &&& r is Ok
                                &&& r->Ok_0 is NeedsReference
                                &&& r->Ok_0->NeedsReference_0@ == p
                                &&& final(self).results() == old(self).results()
                            } else {
                                query_outcome(
                                    r,
                                    old(self).recs(),
                                    pv,
                                    rv,
                                    old(self).max_dist(),
                                    final(self).results(),
                                )
                            }
                        },
                        Option::None => query_outcome(
                            r,
                            old(self).recs(),
                            pv,
                            rv,
                            old(self).max_dist(),
                            final(self).results(),
                        ),
                    }
                },
            },
    {
        if user_input.as_str().unicode_len() == 0 {
            return Ok(QueryStep::Completed);
        }
        let tokens = match tokenize_query(user_input) {
            Result::Ok(t) => t,
            Result::Err(e) => {
                return Err(EngineError::Syntax(e));
            },
        };
        let preds = parse_tokens(&tokens);
        match similar_request(&preds) {
            Option::Some(p) => {
                if needs_recalculation(&self.cached_image_search, p.as_str()) {
                    return Ok(QueryStep::NeedsReference(p));
                }
                match self.execute_query(&preds) {
                    Result::Ok(()) => Ok(QueryStep::Completed),
                    Result::Err(e) => Err(e),
                }
            },
            Option::None => {
                match self.execute_query(&preds) {
                    Result::Ok(()) => Ok(QueryStep::Completed),
                    Result::Err(e) => Err(e),
                }
            },
        }
    }

    /// Replaces the cached reference record and runs the query with
    /// it, never asking the caller for anything further: the answer to
    /// a `NeedsReference` step, with whatever the caller managed to
    /// compute (nothing, when the path could not be read — the query
    /// then runs unranked, as its reference has no hash).
    pub fn query_with_reference(&mut self, user_input: &String, fresh: Option<Record>) -> (r:
        Result<(), EngineError>)
        requires
            old(self).inv(),
        ensures
            final(self).inv(),
            final(self).recs() == old(self).recs(),
            final(self).next() == old(self).next(),
            final(self).globs() == old(self).globs(),
            final(self).last_shown() == old(self).last_shown(),
            final(self).active() == old(self).active(),
            final(self).pending_files() == old(self).pending_files(),
            final(self).pending_records() == old(self).pending_records(),
            final(self).completed_unread() == old(self).completed_unread(),
            final(self).cached_count() == old(self).cached_count(),
            final(self).max_dist() == old(self).max_dist(),
            final(self).reference() == fresh,
            user_input@.len() == 0 ==> {
                &&& r is Ok
                &&& final(self).results() == old(self).results()
            },
            user_input@.len() > 0 ==> match tokenize_spec(user_input@) {
                Result::Err(e) => {
                    &&& r == Err::<(), EngineError>(EngineError::Syntax(e))
                    &&& final(self).results() == old(self).results()
                },
                Result::Ok(toks) => {
                    let pv = parse_tokens_spec(toks);
                    let rv = used_ref_spec(fresh, pv);
                    query_unit_outcome(
                        r,
                        old(self).recs(),
                        pv,
                        rv,
                        old(self).max_dist(),
                        final(self).results(),
                    )
                },
            },
    {
        self.cached_image_search = fresh;
        if user_input.as_str().unicode_len() == 0 {
            return Ok(());
        }
        let tokens = match tokenize_query(user_input) {
            Result::Ok(t) => t,
            Result::Err(e) => {
                return Err(EngineError::Syntax(e));
            },
        };
        let preds = parse_tokens(&tokens);
        self.execute_query(&preds)
    }

    /// Ranks the whole index against one record's visual hash and
    /// caches the result.  A record without a visual hash is a no-op.
    pub fn query_by_image_hash_from_image(&mut self, img: &Record) -> (r: Result<
        (),
        EngineError,
    >)
        requires
            old(self).inv(),
        ensures
            final(self).inv(),
            final(self).recs() == old(self).recs(),
            final(self).next() == old(self).next(),
            final(self).globs() == old(self).globs(),
            final(self).reference() == old(self).reference(),
            final(self).last_shown() == old(self).last_shown(),
            final(self).active() == old(self).active(),
            final(self).pending_files() == old(self).pending_files(),
            final(self).pending_records() == old(self).pending_records(),
            final(self).completed_unread() == old(self).completed_unread(),
            final(self).cached_count() == old(self).cached_count(),
            final(self).max_dist() == old(self).max_dist(),
            img.visual_hash is None ==> {
                &&& r is Ok
                &&& final(self).results() == old(self).results()
            },
            img.visual_hash is Some ==> query_unit_outcome(
                r,
                old(self).recs(),
                Seq::<PredV>::empty(),
                img.visual_hash.deep_view(),
                old(self).max_dist(),
                final(self).results(),
            ),
    {
        let h = match &img.visual_hash {
            Option::Some(h) => h,
            Option::None => {
                return Ok(());
            },
        };
        self.cached_search_results = None;
        let preds: Vec<Predicate> = Vec::new();
        proof {
            assert(preds.deep_view() =~= Seq::<PredV>::empty());
        }
        let ghost rs = self.store.recs();
        let ghost rv = img.visual_hash.deep_view();
        let ghost maxd = self.store.max_dist();
        let res = self.store.find_by_predicate(&preds, Some(h), MAX_SEARCH_RESULTS);
        proof {
            assert(ref_view(Some(h)) == rv);
        }
        match res {
            Result::Ok(out) => {
                proof {
                    assert(!scan_err(rs, Seq::<PredV>::empty(), rv));
                    assert(query_results_ok(out@, rs, Seq::<PredV>::empty(), rv, maxd));
                }
                self.cached_search_results = Some(out);
                Ok(())
            },
            Result::Err(_) => {
                proof {
                    assert(scan_err(rs, Seq::<PredV>::empty(), rv));
                }
                self.cached_search_results = None;
                Err(EngineError::Scan(StoreError::HashLengthMismatch))
            },
        }
    }

    /// Indexing progress as an exact fraction: indexed records over
    /// everything known of — indexed, discovered, extracted and
    /// stored-but-unread — with the denominator clamped to at least
    /// one.
    pub fn get_indexing_progress(&self) -> (r: (u64, u64))
        requires
            self.recs().len() + self.pending_files() + self.pending_records()
                + self.completed_unread() < 0xFFFF_FFFF_FFFF_FFFF,
        ensures
            r.0 == self.recs().len(),
            r.1 == if self.recs().len() + self.pending_files() + self.pending_records()
                + self.completed_unread() >= 1 {
                self.recs().len() + self.pending_files() + self.pending_records()
                    + self.completed_unread()
            } else {
                1
            },
            r.0 <= r.1,
    {
        let indexed = self.store.len() as u64;
        let total = indexed + self.pending_files + self.pending_records + self.completed_unread;
        if total < 1 {
            (indexed, 1)
        } else {
            (indexed, total)
        }
    }
}

} // verus!
