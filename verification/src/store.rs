//! The in-memory index: the logical model of the persisted store.
//!
//! Records are keyed by canonical path (dedup on insert), ids are
//! assigned in insertion order, watched-directory globs are kept unique,
//! and queries run filtered, distance-ranked scans.  The caller mirrors
//! each mutation onto durable storage; this type is the specification
//! the mirror must agree with.

use vstd::prelude::*;

use crate::distance::{
    cosine_distance, cosine_micro_spec, distance_eq_val, distance_lt, distance_lt_exec,
    distance_wf, lemma_distance_eq_lt_trans, lemma_distance_eq_trans, lemma_distance_lt_eq_trans,
    lemma_distance_lt_trans, Distance, MAX_HASH_LEN, MICRO,
};
use crate::query::{matches_all, record_matches_all, PredV, Predicate};
use crate::record::{clone_record, record_valid, Record, RecordV};

verus! {

/// Why a store operation failed.
#[derive(Clone, Copy, Debug, PartialEq, Eq, Structural)]
pub enum StoreError {
    /// The canonical path (or watched glob) is already present.
    Conflict,
    /// The record does not meet the store's validity demands.
    InvalidRecord,
    /// A hash vector's length disagrees with the store's uniform length.
    HashLengthMismatch,
}

/// Some stored record has the path `p`.
pub open spec fn has_path(rs: Seq<Record>, p: Seq<char>) -> bool {
    exists|i: int| 0 <= i < rs.len() && rs[i]@.path == p
}

/// Two optional hash vectors, when both present, have equal lengths.
pub open spec fn opt_len_agree(a: Option<Seq<u8>>, b: Option<Seq<u8>>) -> bool {
    a is Some && b is Some ==> a->0.len() == b->0.len()
}

/// All hash vectors of both kinds across two records agree in length.
pub open spec fn rec_hash_agree(a: RecordV, b: RecordV) -> bool {
    &&& opt_len_agree(a.phash, b.phash)
    &&& opt_len_agree(a.phash, b.visual_hash)
    &&& opt_len_agree(a.visual_hash, b.phash)
    &&& opt_len_agree(a.visual_hash, b.visual_hash)
}

/// The record's own two hashes agree, and it agrees with every other.
pub open spec fn recs_wf(rs: Seq<Record>, next_id: int) -> bool {
    &&& forall|i: int| 0 <= i < rs.len() ==> record_valid(#[trigger] rs[i]@)
    &&& forall|i: int|
        0 <= i < rs.len() ==> 1 <= #[trigger] rs[i]@.id && rs[i]@.id < next_id
    &&& forall|i: int, j: int| 0 <= i < j < rs.len() ==> rs[i]@.id < rs[j]@.id
    &&& forall|i: int, j: int| 0 <= i < j < rs.len() ==> rs[i]@.path != rs[j]@.path
    &&& forall|i: int, j: int|
        0 <= i < rs.len() && 0 <= j < rs.len() ==> rec_hash_agree(#[trigger] rs[i]@, #[trigger] rs[j]@)
    &&& forall|i: int| 0 <= i < rs.len() ==> (#[trigger] rs[i]@).distance_from_query is None
}

/// No watched glob occurs twice.
pub open spec fn globs_unique(gs: Seq<String>) -> bool {
    forall|i: int, j: int| 0 <= i < j < gs.len() ==> gs[i]@ != gs[j]@
}

/// The durable index: records keyed by canonical path, the watched
/// directory registry, and the query-distance cutoff.
pub struct Store {
    records: Vec<Record>,
    next_id: i64,
    watched: Vec<String>,
    max_distance: Distance,
}

impl Store {
    /// The stored records, in insertion (id) order.
    pub closed spec fn recs(&self) -> Seq<Record> {
        self.records@
    }

    /// The next id to be assigned.
    pub closed spec fn next(&self) -> int {
        self.next_id as int
    }

    /// The watched directory globs.
    pub closed spec fn globs(&self) -> Seq<String> {
        self.watched@
    }

    /// The configured distance cutoff for ranked queries.
    pub closed spec fn max_dist(&self) -> Distance {
        self.max_distance
    }

    /// The store's invariant.
    pub closed spec fn inv(&self) -> bool {
        &&& recs_wf(self.records@, self.next_id as int)
        &&& 1 <= self.next_id
        &&& globs_unique(self.watched@)
        &&& distance_wf(self.max_distance)
    }

    /// The invariant, as every caller may rely on it: well-formed
    /// records, increasing unique ids, unique paths, unique globs.
    pub proof fn lemma_inv_parts(&self)
        requires
            self.inv(),
        ensures
            recs_wf(self.recs(), self.next()),
            globs_unique(self.globs()),
            distance_wf(self.max_dist()),
            self.next() >= 1,
    {
    }

    /// An empty store; ids start at one and the distance cutoff starts
    /// at one million (no practical cutoff).
    pub fn new() -> (s: Store)
        ensures
            s.inv(),
            s.recs() =~= Seq::<Record>::empty(),
            s.globs() =~= Seq::<String>::empty(),
            s.next() == 1,
            s.max_dist() == (Distance { num: 1_000_000, den: 1 }),
    {
        Store {
            records: Vec::new(),
            next_id: 1,
            watched: Vec::new(),
            max_distance: Distance { num: 1_000_000, den: 1 },
        }
    }

    /// Sets the distance cutoff for ranked queries.
    pub fn set_max_distance(&mut self, d: Distance)
        requires
            old(self).inv(),
            d.den >= 1,
        ensures
            final(self).inv(),
            final(self).max_dist() == d,
            final(self).recs() == old(self).recs(),
            final(self).globs() == old(self).globs(),
            final(self).next() == old(self).next(),
    {
        self.max_distance = d;
    }

    /// The configured distance cutoff.
    pub fn get_max_distance(&self) -> (d: Distance)
        ensures
            d == self.max_dist(),
    {
        self.max_distance
    }

    /// How many records are stored.
    pub fn len(&self) -> (n: usize)
        ensures
            n == self.recs().len(),
    {
        self.records.len()
    }

    /// Whether a record with this canonical path is already stored.
    pub fn exists_by_path(&self, path: &String) -> (r: bool)
        ensures
            r == has_path(self.recs(), path@),
    {
        let n = self.records.len();
        let mut i: usize = 0;
        while i < n
            invariant
                n == self.records@.len(),
                0 <= i <= n,
                forall|j: int| 0 <= j < i ==> self.records@[j]@.path != path@,
            decreases n - i,
        {
            if self.records[i].path.eq(path) {
                return true;
            }
            i = i + 1;
        }
        false
    }

    /// Stores a record under a fresh id.  Fails with `Conflict` exactly
    /// when the canonical path is already present, with `InvalidRecord`
    /// when the record is not well formed, and with
    /// `HashLengthMismatch` when one of its hash vectors disagrees in
    /// length with those already stored.  On failure nothing changes;
    /// on success the record is appended with the next id, its
    /// transient query distance cleared.
    pub fn insert(&mut self, r: Record) -> (res: Result<i64, StoreError>)
        requires
            old(self).inv(),
            old(self).next() < 0x7FFF_FFFF_FFFF_FFFF,
        ensures
            final(self).inv(),
            final(self).globs() == old(self).globs(),
            final(self).max_dist() == old(self).max_dist(),
            !record_valid(r@) ==> res == Err::<i64, StoreError>(StoreError::InvalidRecord),
            record_valid(r@) && !(rec_hash_agree(r@, r@) && (forall|i: int|
                0 <= i < old(self).recs().len() ==> rec_hash_agree(
                    #[trigger] old(self).recs()[i]@,
                    r@,
                ))) ==> res == Err::<i64, StoreError>(StoreError::HashLengthMismatch),
            record_valid(r@) && rec_hash_agree(r@, r@) && (forall|i: int|
                0 <= i < old(self).recs().len() ==> rec_hash_agree(
                    #[trigger] old(self).recs()[i]@,
                    r@,
                )) && has_path(old(self).recs(), r@.path) ==> res == Err::<i64, StoreError>(
                StoreError::Conflict,
            ),
            res is Err ==> final(self).recs() == old(self).recs() && final(self).next() == old(
                self,
            ).next(),
            record_valid(r@) && rec_hash_agree(r@, r@) && (forall|i: int|
                0 <= i < old(self).recs().len() ==> rec_hash_agree(
                    #[trigger] old(self).recs()[i]@,
                    r@,
                )) && !has_path(old(self).recs(), r@.path) ==> {
                &&& res == Ok::<i64, StoreError>(old(self).next() as i64)
                &&& final(self).recs().len() == old(self).recs().len() + 1
                &&& final(self).recs().drop_last() == old(self).recs()
                &&& final(self).recs().last()@ == (RecordV {
                    id: old(self).next(),
                    distance_from_query: None,
                    ..r@
                })
                &&& final(self).next() == old(self).next() + 1
            },
    {
        if !r.check_valid() {
            return Err(StoreError::InvalidRecord);
        }
        if !two_recs_agree(&r, &r) || !self.hashes_agree(&r) {
            return Err(StoreError::HashLengthMismatch);
        }
        if self.exists_by_path(&r.path) {
            return Err(StoreError::Conflict);
        }
        let id = self.next_id;
        let stored = Record { id, distance_from_query: None, ..r };
        let ghost pre = self.records@;
        self.records.push(stored);
        self.next_id = self.next_id + 1;
        proof {
            assert(self.records@.drop_last() =~= pre);
            assert(self.records@.last()@ =~= (RecordV {
                id: id as int,
                distance_from_query: None,
                ..r@
            }));
            assert forall|i: int, j: int|
                0 <= i < self.records@.len() && 0 <= j < self.records@.len() implies rec_hash_agree(
                #[trigger] self.records@[i]@,
                #[trigger] self.records@[j]@,
            ) by {
                if i < pre.len() && j < pre.len() {
                    assert(rec_hash_agree(pre[i]@, pre[j]@));
                } else if i < pre.len() {
                    assert(rec_hash_agree(pre[i]@, r@));
                } else if j < pre.len() {
                    assert(rec_hash_agree(pre[j]@, r@));
                } else {
                    assert(rec_hash_agree(r@, r@));
                }
            }
        }
        Ok(id)
    }

    fn hashes_agree(&self, r: &Record) -> (b: bool)
        ensures
            b == (forall|i: int|
                0 <= i < self.recs().len() ==> rec_hash_agree(#[trigger] self.recs()[i]@, r@)),
    {
        let n = self.records.len();
        let mut i: usize = 0;
        while i < n
            invariant
                n == self.records@.len(),
                0 <= i <= n,
                forall|j: int| 0 <= j < i ==> rec_hash_agree(#[trigger] self.records@[j]@, r@),
            decreases n - i,
        {
            if !two_recs_agree(&self.records[i], r) {
                proof {
                    assert(!rec_hash_agree(self.recs()[i as int]@, r@));
                }
                return false;
            }
            i = i + 1;
        }
        true
    }

    /// Runs a filtered, optionally distance-ranked scan.  Only records
    /// carrying a visual hash are searchable.  With a reference vector,
    /// the results are exactly the candidates whose cosine distance to
    /// the reference lies strictly under the cutoff, in ascending
    /// distance order with ties broken by insertion id, each carrying
    /// its computed distance; without one, every candidate is returned
    /// in insertion order with no distance attached.  `limit` caps the
    /// result count, dropping the worst ranked.  The scan fails exactly
    /// when a reference was supplied that is empty, oversized, or
    /// disagrees in length with some candidate's hash; the store is
    /// never changed.
    #[verifier::rlimit(20)]
    #[verifier::spinoff_prover]
    /// Runs a filtered, optionally distance-ranked scan.  Only records
    /// carrying a visual hash are searchable.  With a reference vector,
    /// the results are exactly the candidates whose cosine distance to
    /// the reference lies strictly under the cutoff, in ascending
    /// distance order with ties broken by insertion id, each carrying
    /// its computed distance; without one, every candidate is returned
    /// in insertion order with no distance attached.  `limit` caps the
    /// result count, dropping the worst ranked.  The scan fails exactly
    /// when a reference was supplied that is empty, oversized, or
    /// disagrees in length with some candidate's hash; the store is
    /// never changed.
    pub fn find_by_predicate(
        &self,
        preds: &Vec<Predicate>,
        reference: Option<&Vec<u8>>,
        limit: usize,
    ) -> (res: Result<Vec<Record>, StoreError>)
        requires
            self.inv(),
        ensures
            res is Ok <==> !scan_err(self.recs(), preds.deep_view(), ref_view(reference)),
            res is Err ==> res == Err::<Vec<Record>, StoreError>(StoreError::HashLengthMismatch),
            res is Ok ==> {
                let out = res->Ok_0;
                let rs = self.recs();
                let pv = preds.deep_view();
                let rv = ref_view(reference);
                let maxd = self.max_dist();
                &&& out@.len() <= limit
                &&& sorted_by_key(out@)
                &&& ids_unique(out@)
                &&& scan_sound(out@, rs, pv, rv, maxd, rs.len() as int)
                &&& scan_result_complete(out@, rs, pv, rv, maxd, limit as int)
                &&& results_within(out@, rv, maxd)
            },
    {
        let ghost rs = self.records@;
        let ghost pv = preds.deep_view();
        let ghost rv = ref_view(reference);
        let ghost maxd = self.max_distance;
        match reference {
            Option::Some(v) => {
                if v.len() < 1 || v.len() > MAX_HASH_LEN {
                    return Err(StoreError::HashLengthMismatch);
                }
            },
            Option::None => {},
        }
        let n = self.records.len();
        let mut out: Vec<Record> = Vec::new();
        let mut i: usize = 0;
        proof {
            lemma_scan_empty(out@, rs, pv, rv, maxd);
        }
        while i < n
            invariant
                self.inv(),
                rs == self.records@,
                pv == preds.deep_view(),
                rv == ref_view(reference),
                maxd == self.max_distance,
                match reference {
                    Option::Some(v) => 1 <= v@.len() <= MAX_HASH_LEN,
                    Option::None => true,
                },
                n == rs.len(),
                0 <= i <= n,
                sorted_by_key(out@),
                keys_wf(out@),
                ids_unique(out@),
                scan_sound(out@, rs, pv, rv, maxd, i as int),
                scan_complete(out@, rs, pv, rv, maxd, i as int),
                rv is Some ==> forall|j: int|
                    0 <= j < i && candidate(rs, j, pv) ==> (#[trigger] rs[j])@.visual_hash->0.len()
                        == rv->0.len(),
            decreases n - i,
        {
            let rec = &self.records[i];
            let matches = record_matches_all(rec, preds);
            let mut pushed = false;
            match (&rec.visual_hash, reference) {
                (Option::Some(h), Option::Some(v)) => {
                    if matches {
                        proof {
                            assert(record_valid(rs[i as int]@));
                        }
                        match cosine_distance(v, h) {
                            Result::Err(_) => {
                                proof {
                                    assert(candidate(rs, i as int, pv));
                                    assert(rs[i as int]@.visual_hash->0.len() != rv->0.len());
                                    assert(scan_err(rs, pv, rv));
                                }
                                return Err(StoreError::HashLengthMismatch);
                            },
                            Result::Ok(d) => {
                                proof {
                                    assert(rv->0 == v@);
                                    assert(rs[i as int]@.visual_hash->0 == h@);
                                    assert(d.num == cosine_micro_spec(v@, h@));
                                    assert(d == ranked_dist(rv->0, rs[i as int]@));
                                }
                                let keep = distance_lt_exec(&d, &self.max_distance);
                                if keep {
                                    let mut c = clone_record(rec);
                                    c.distance_from_query = Some(d);
                                    proof {
                                        assert(c@ =~= scored_view(rs, i as int, rv));
                                        assert(kept(rs, i as int, pv, rv, maxd));
                                    }
                                    let ghost pre_out = out@;
                                    insert_sorted(&mut out, c);
                                    proof {
                                        lemma_scan_step(
                                            pre_out,
                                            out@,
                                            c,
                                            rs,
                                            pv,
                                            rv,
                                            maxd,
                                            i as int,
                                        );
                                    }
                                    pushed = true;
                                } else {
                                    proof {
                                        assert(!kept(rs, i as int, pv, rv, maxd));
                                    }
                                }
                            },
                        }
                    } else {
                        proof {
                            assert(!matches_all(rs[i as int]@, pv));
                            assert(!kept(rs, i as int, pv, rv, maxd));
                        }
                    }
                },
                (Option::Some(_), Option::None) => {
                    if matches {
                        let c = clone_record(rec);
                        proof {
                            assert(rs[i as int]@.distance_from_query is None);
                            assert(c@ =~= scored_view(rs, i as int, rv));
                            assert(kept(rs, i as int, pv, rv, maxd));
                        }
                        let ghost pre_out = out@;
                        insert_sorted(&mut out, c);
                        proof {
                            lemma_scan_step(pre_out, out@, c, rs, pv, rv, maxd, i as int);
                        }
                        pushed = true;
                    } else {
                        proof {
                            assert(!kept(rs, i as int, pv, rv, maxd));
                        }
                    }
                },
                (Option::None, _) => {
                    proof {
                        assert(rs[i as int]@.visual_hash is None);
                        assert(!candidate(rs, i as int, pv));
                        assert(!kept(rs, i as int, pv, rv, maxd));
                    }
                },
            }
            proof {
                if !pushed {
                    lemma_scan_skip(out@, rs, pv, rv, maxd, i as int);
                }
            }
            i = i + 1;
        }
        let ghost full = out@;
        out.truncate(limit);
        proof {
            lemma_scan_finish(full, out@, rs, pv, rv, maxd, limit as int);
            assert(!scan_err(rs, pv, rv));
        }
        Ok(out)
    }
    /// Registers a watched directory glob; duplicates are rejected.
    pub fn add_watched_directory(&mut self, glob: String) -> (res: Result<(), StoreError>)
        requires
            old(self).inv(),
        ensures
            final(self).inv(),
            final(self).recs() == old(self).recs(),
            final(self).next() == old(self).next(),
            final(self).max_dist() == old(self).max_dist(),
            has_glob(old(self).globs(), glob@) ==> {
                &&& res == Err::<(), StoreError>(StoreError::Conflict)
                &&& final(self).globs() == old(self).globs()
            },
            !has_glob(old(self).globs(), glob@) ==> {
                &&& res == Ok::<(), StoreError>(())
                &&& final(self).globs() == old(self).globs().push(glob)
            },
    {
        let n = self.watched.len();
        let mut i: usize = 0;
        while i < n
            invariant
                *self == *old(self),
                self.inv(),
                n == self.watched@.len(),
                0 <= i <= n,
                forall|j: int| 0 <= j < i ==> self.watched@[j]@ != glob@,
            decreases n - i,
        {
            if self.watched[i].eq(&glob) {
                return Err(StoreError::Conflict);
            }
            i = i + 1;
        }
        let ghost pre = self.watched@;
        self.watched.push(glob);
        proof {
            assert forall|a: int, b: int|
                0 <= a < b < self.watched@.len() implies self.watched@[a]@ != self.watched@[b]@
            by {
                if b < pre.len() {
                    assert(self.watched@[a] == pre[a] && self.watched@[b] == pre[b]);
                } else {
                    assert(self.watched@[b] == glob);
                }
            }
        }
        Ok(())
    }

    /// Drops a watched directory glob; absent globs are left alone.
    pub fn remove_watched_directory(&mut self, glob: &String)
        requires
            old(self).inv(),
        ensures
            final(self).inv(),
            final(self).recs() == old(self).recs(),
            final(self).next() == old(self).next(),
            final(self).max_dist() == old(self).max_dist(),
            final(self).globs() == remove_glob_spec(old(self).globs(), glob@),
            !has_glob(final(self).globs(), glob@),
            forall|g: Seq<char>|
                g != glob@ ==> #[trigger] has_glob(final(self).globs(), g) == has_glob(
                    old(self).globs(),
                    g,
                ),
    {
        let n = self.watched.len();
        let mut out: Vec<String> = Vec::new();
        let mut i: usize = 0;
        proof {
            assert(self.watched@.subrange(0, 0) =~= Seq::<String>::empty());
        }
        while i < n
            invariant
                *self == *old(self),
                self.inv(),
                n == self.watched@.len(),
                0 <= i <= n,
                out@ == remove_glob_spec(self.watched@.subrange(0, i as int), glob@),
                globs_unique(self.watched@),
                forall|j: int| 0 <= j < out@.len() ==> #[trigger] out@[j]@ != glob@,
                forall|j: int|
                    0 <= j < out@.len() ==> exists|k: int|
                        0 <= k < i && (#[trigger] out@[j])@ == self.watched@[k]@,
                forall|k: int|
                    0 <= k < i && self.watched@[k]@ != glob@ ==> has_glob(
                        out@,
                        #[trigger] self.watched@[k]@,
                    ),
                globs_unique(out@),
            decreases n - i,
        {
            proof {
                let p = self.watched@.subrange(0, i + 1);
                assert(p.drop_last() =~= self.watched@.subrange(0, i as int));
                assert(p.last() == self.watched@[i as int]);
            }
            if !self.watched[i].eq(glob) {
                let ghost pre = out@;
                let g = self.watched[i].clone();
                proof {
                    assert(g == self.watched@[i as int]);
                    assert forall|a: int, b: int|
                        0 <= a < b < pre.push(g).len() implies pre.push(g)[a]@ != pre.push(g)[b]@
                    by {
                        if b < pre.len() {
                            assert(pre.push(g)[a] == pre[a] && pre.push(g)[b] == pre[b]);
                        } else {
                            let k = choose|k: int|
                                0 <= k < i && (#[trigger] pre[a])@ == self.watched@[k]@;
                            assert(pre.push(g)[b]@ == self.watched@[i as int]@);
                        }
                    }
                }
                out.push(g);
                proof {
                    assert forall|k: int|
                        0 <= k < i + 1 && self.watched@[k]@ != glob@ implies has_glob(
                        out@,
                        #[trigger] self.watched@[k]@,
                    ) by {
                        if k < i {
                            let j = choose|j: int|
                                0 <= j < pre.len() && pre[j]@ == self.watched@[k]@;
                            assert(out@[j]@ == self.watched@[k]@);
                        } else {
                            assert(out@[pre.len() as int]@ == self.watched@[i as int]@);
                        }
                    }
                }
            } else {
                proof {
                    assert forall|k: int|
                        0 <= k < i + 1 && self.watched@[k]@ != glob@ implies has_glob(
                        out@,
                        #[trigger] self.watched@[k]@,
                    ) by {
                        if k < i {
                            assert(has_glob(out@, self.watched@[k]@));
                        }
                    }
                }
            }
            i = i + 1;
        }
        proof {
            assert(self.watched@.subrange(0, n as int) =~= self.watched@);
        }
        self.watched = out;
    }

    /// The watched directory globs, in registration order.
    pub fn list_watched_directories(&self) -> (r: &Vec<String>)
        ensures
            r@ == self.globs(),
    {
        &self.watched
    }
}

/// Some glob in `gs` reads `g`.
pub open spec fn has_glob(gs: Seq<String>, g: Seq<char>) -> bool {
    exists|i: int| 0 <= i < gs.len() && gs[i]@ == g
}

/// The glob list with every entry reading `g` removed, order kept.
pub open spec fn remove_glob_spec(gs: Seq<String>, g: Seq<char>) -> Seq<String>
    decreases gs.len(),
{
    if gs.len() == 0 {
        Seq::empty()
    } else {
        let prev = remove_glob_spec(gs.drop_last(), g);
        if gs.last()@ == g {
            prev
        } else {
            prev.push(gs.last())
        }
    }
}

/// Removing a glob that is not registered leaves the list unchanged.
pub proof fn lemma_remove_glob_absent(gs: Seq<String>, g: Seq<char>)
    requires
        !has_glob(gs, g),
    ensures
        remove_glob_spec(gs, g) == gs,
    decreases gs.len(),
{
    if gs.len() > 0 {
        let m = gs.len() - 1;
        assert(gs[m]@ != g);
        if has_glob(gs.drop_last(), g) {
            let i = choose|i: int| 0 <= i < gs.drop_last().len() && gs.drop_last()[i]@ == g;
            assert(gs[i]@ == g);
        }
        lemma_remove_glob_absent(gs.drop_last(), g);
        assert(remove_glob_spec(gs, g) =~= gs);
    }
}

fn opt_lens_agree(a: &Option<Vec<u8>>, b: &Option<Vec<u8>>) -> (r: bool)
    ensures
        r == opt_len_agree(a.deep_view(), b.deep_view()),
{
    match (a, b) {
        (Option::Some(x), Option::Some(y)) => x.len() == y.len(),
        _ => true,
    }
}

fn two_recs_agree(a: &Record, b: &Record) -> (r: bool)
    ensures
        r == rec_hash_agree(a@, b@),
{
    opt_lens_agree(&a.phash, &b.phash) && opt_lens_agree(&a.phash, &b.visual_hash)
        && opt_lens_agree(&a.visual_hash, &b.phash) && opt_lens_agree(
        &a.visual_hash,
        &b.visual_hash,
    )
}

/// The ranking key of a result record: its query distance (absent
/// ranks as zero, so an unranked scan orders by id alone).
pub open spec fn opt_dist(d: Option<Distance>) -> Distance {
    match d {
        Option::Some(x) => x,
        Option::None => Distance { num: 0, den: 1 },
    }
}

/// The distance key of a record.
pub open spec fn dist_key(rv: RecordV) -> Distance {
    opt_dist(rv.distance_from_query)
}

/// Result order: ascending distance, ties broken by ascending id.
pub open spec fn key_le(a: RecordV, b: RecordV) -> bool {
    distance_lt(dist_key(a), dist_key(b)) || (distance_eq_val(dist_key(a), dist_key(b)) && a.id
        <= b.id)
}

/// A result list in ranked order.
pub open spec fn sorted_by_key(rs: Seq<Record>) -> bool {
    forall|k: int, l: int| 0 <= k < l < rs.len() ==> key_le(rs[k]@, rs[l]@)
}

/// The result order is total.
pub proof fn lemma_key_total(a: RecordV, b: RecordV)
    ensures
        key_le(a, b) || key_le(b, a),
{
}

/// The result order is transitive.
pub proof fn lemma_key_trans(a: RecordV, b: RecordV, c: RecordV)
    requires
        distance_wf(dist_key(a)),
        distance_wf(dist_key(b)),
        distance_wf(dist_key(c)),
        key_le(a, b),
        key_le(b, c),
    ensures
        key_le(a, c),
{
    let da = dist_key(a);
    let db = dist_key(b);
    let dc = dist_key(c);
    if distance_lt(da, db) {
        if distance_lt(db, dc) {
            lemma_distance_lt_trans(da, db, dc);
        } else {
            lemma_distance_lt_eq_trans(da, db, dc);
        }
    } else {
        if distance_lt(db, dc) {
            lemma_distance_eq_lt_trans(da, db, dc);
        } else {
            lemma_distance_eq_trans(da, db, dc);
        }
    }
}

fn opt_dist_exec(d: &Option<Distance>) -> (r: Distance)
    ensures
        r == opt_dist(*d),
{
    match d {
        Option::Some(x) => *x,
        Option::None => Distance { num: 0, den: 1 },
    }
}

fn key_le_exec(a: &Record, b: &Record) -> (r: bool)
    ensures
        r == key_le(a@, b@),
{
    let da = opt_dist_exec(&a.distance_from_query);
    let db = opt_dist_exec(&b.distance_from_query);
    if distance_lt_exec(&da, &db) {
        true
    } else if distance_lt_exec(&db, &da) {
        false
    } else {
        a.id <= b.id
    }
}

/// Inserts a record into a ranked list, keeping it ranked; the new
/// record lands after everything that ranks at or before it.
fn insert_sorted(out: &mut Vec<Record>, x: Record)
    requires
        sorted_by_key(old(out)@),
        distance_wf(dist_key(x@)),
        keys_wf(old(out)@),
    ensures
        final(out)@.len() == old(out)@.len() + 1,
        sorted_by_key(final(out)@),
        exists|pos: int|
            0 <= pos <= old(out)@.len() && final(out)@ == #[trigger] old(out)@.insert(pos, x),
        keys_wf(final(out)@),
{
    proof {
        reveal(keys_wf);
    }
    let n = out.len();
    let mut pos: usize = 0;
    while pos < n && key_le_exec(&out[pos], &x)
        invariant
            n == out@.len(),
            0 <= pos <= n,
            sorted_by_key(out@),
            forall|k: int| 0 <= k < pos ==> key_le(#[trigger] out@[k]@, x@),
            distance_wf(dist_key(x@)),
            forall|k: int| 0 <= k < out@.len() ==> distance_wf(dist_key(#[trigger] out@[k]@)),
        decreases n - pos,
    {
        pos = pos + 1;
    }
    let ghost pre = out@;
    let ghost gpos = pos as int;
    proof {
        if gpos < pre.len() {
            assert(!key_le(pre[gpos]@, x@));
            lemma_key_total(pre[gpos]@, x@);
        }
    }
    out.insert(pos, x);
    proof {
        pre.insert_ensures(gpos, x);
        assert forall|k: int, l: int|
            0 <= k < l < out@.len() implies key_le(#[trigger] out@[k]@, #[trigger] out@[l]@) by {
            if k < gpos && l < gpos {
                assert(out@[k] == pre[k] && out@[l] == pre[l]);
            } else if k < gpos && l == gpos {
                assert(out@[k] == pre[k]);
                assert(out@[l] == x);
            } else if k < gpos && l > gpos {
                assert(out@[k] == pre[k] && out@[l] == pre[l - 1]);
            } else if k == gpos && l > gpos {
                assert(out@[k] == x && out@[l] == pre[l - 1]);
                assert(key_le(x@, pre[gpos]@));
                if l - 1 > gpos {
                    assert(key_le(pre[gpos]@, pre[l - 1]@));
                    lemma_key_trans(x@, pre[gpos]@, pre[l - 1]@);
                }
            } else {
                assert(out@[k] == pre[k - 1] && out@[l] == pre[l - 1]);
            }
        }
        assert forall|k: int|
            0 <= k < out@.len() implies distance_wf(dist_key(#[trigger] out@[k]@)) by {
            if k < gpos {
                assert(out@[k] == pre[k]);
            } else if k == gpos {
                assert(out@[k] == x);
            } else {
                assert(out@[k] == pre[k - 1]);
            }
        }
    }
}

/// The distance a ranked scan attaches to a candidate record.
pub open spec fn ranked_dist(reference: Seq<u8>, rv: RecordV) -> Distance {
    Distance { num: cosine_micro_spec(reference, rv.visual_hash->0) as u64, den: MICRO }
}

/// A stored record that a query even considers: it has a visual hash
/// and satisfies every predicate.
pub open spec fn candidate(rs: Seq<Record>, i: int, preds: Seq<crate::query::PredV>) -> bool {
    rs[i]@.visual_hash is Some && matches_all(rs[i]@, preds)
}

/// The view a candidate contributes to the result list: unchanged for
/// an unranked scan, the computed distance attached for a ranked one.
pub open spec fn scored_view(rs: Seq<Record>, i: int, reference: Option<Seq<u8>>) -> RecordV {
    match reference {
        Option::None => rs[i]@,
        Option::Some(v) => RecordV {
            distance_from_query: Some(ranked_dist(v, rs[i]@)),
            ..rs[i]@
        },
    }
}

/// A candidate that makes it into the result set: for a ranked scan
/// its distance must lie strictly under the cutoff.
pub open spec fn kept(
    rs: Seq<Record>,
    i: int,
    preds: Seq<crate::query::PredV>,
    reference: Option<Seq<u8>>,
    maxd: Distance,
) -> bool {
    candidate(rs, i, preds) && match reference {
        Option::None => true,
        Option::Some(v) => distance_lt(ranked_dist(v, rs[i]@), maxd),
    }
}

/// The reference vector as a sequence, if one was supplied.
pub open spec fn ref_view(r: Option<&Vec<u8>>) -> Option<Seq<u8>> {
    match r {
        Option::Some(v) => Option::Some(v@),
        Option::None => Option::None,
    }
}

/// A scan errs exactly when a reference vector was supplied that is
/// empty, oversized, or disagrees in length with some candidate's hash.
pub open spec fn scan_err(
    rs: Seq<Record>,
    preds: Seq<PredV>,
    rv: Option<Seq<u8>>,
) -> bool {
    match rv {
        Option::None => false,
        Option::Some(v) => v.len() < 1 || v.len() > MAX_HASH_LEN || exists|i: int|
            0 <= i < rs.len() && candidate(rs, i, preds) && (#[trigger] rs[i]@).visual_hash->0.len()
                != v.len(),
    }
}

/// Every result element is a kept candidate among the first `i`
/// stored records, carrying its scan view.
#[verifier::opaque]
pub open spec fn scan_sound(
    out: Seq<Record>,
    rs: Seq<Record>,
    pv: Seq<PredV>,
    rv: Option<Seq<u8>>,
    maxd: Distance,
    i: int,
) -> bool {
    forall|k: int|
        0 <= k < out.len() ==> exists|j: int|
            0 <= j < i && kept(rs, j, pv, rv, maxd) && (#[trigger] out[k])@ == scored_view(
                rs,
                j,
                rv,
            )
}

/// Every kept candidate among the first `i` stored records appears in
/// the result.
#[verifier::opaque]
pub open spec fn scan_complete(
    out: Seq<Record>,
    rs: Seq<Record>,
    pv: Seq<PredV>,
    rv: Option<Seq<u8>>,
    maxd: Distance,
    i: int,
) -> bool {
    forall|j: int|
        0 <= j < i && kept(rs, j, pv, rv, maxd) ==> exists|k: int|
            0 <= k < out.len() && (#[trigger] out[k])@ == scored_view(rs, j, rv)
}

/// No id occurs twice in the result.
#[verifier::opaque]
pub open spec fn ids_unique(out: Seq<Record>) -> bool {
    forall|k: int, l: int| 0 <= k < l < out.len() ==> out[k]@.id != out[l]@.id
}

/// Every result element carries a usable distance key.
#[verifier::opaque]
pub open spec fn keys_wf(out: Seq<Record>) -> bool {
    forall|k: int| 0 <= k < out.len() ==> distance_wf(dist_key(#[trigger] out[k]@))
}

proof fn lemma_scan_step_sound(
    pre_out: Seq<Record>,
    out_new: Seq<Record>,
    x: Record,
    rs: Seq<Record>,
    pv: Seq<PredV>,
    rv: Option<Seq<u8>>,
    maxd: Distance,
    i: int,
    pos: int,
)
    requires
        0 <= i < rs.len(),
        0 <= pos <= pre_out.len(),
        out_new == pre_out.insert(pos, x),
        x@ == scored_view(rs, i, rv),
        kept(rs, i, pv, rv, maxd),
        scan_sound(pre_out, rs, pv, rv, maxd, i),
    ensures
        scan_sound(out_new, rs, pv, rv, maxd, i + 1),
{
    reveal(scan_sound);
    pre_out.insert_ensures(pos, x);
    assert forall|k: int|
        0 <= k < out_new.len() implies exists|j: int|
        0 <= j < i + 1 && kept(rs, j, pv, rv, maxd) && (#[trigger] out_new[k])@ == scored_view(
            rs,
            j,
            rv,
        ) by {
        if k < pos {
            assert(out_new[k] == pre_out[k]);
            let j = choose|j: int|
                0 <= j < i && kept(rs, j, pv, rv, maxd) && (#[trigger] pre_out[k])@ == scored_view(
                    rs,
                    j,
                    rv,
                );
            assert(0 <= j < i + 1 && kept(rs, j, pv, rv, maxd) && out_new[k]@ == scored_view(
                rs,
                j,
                rv,
            ));
        } else if k == pos {
            assert(out_new[k] == x);
            assert(0 <= i < i + 1 && kept(rs, i, pv, rv, maxd) && out_new[k]@ == scored_view(
                rs,
                i,
                rv,
            ));
        } else {
            assert(out_new[k] == pre_out[k - 1]);
            let j = choose|j: int|
                0 <= j < i && kept(rs, j, pv, rv, maxd) && (#[trigger] pre_out[k - 1])@
                    == scored_view(rs, j, rv);
            assert(0 <= j < i + 1 && kept(rs, j, pv, rv, maxd) && out_new[k]@ == scored_view(
                rs,
                j,
                rv,
            ));
        }
    }
}

proof fn lemma_scan_step_complete(
    pre_out: Seq<Record>,
    out_new: Seq<Record>,
    x: Record,
    rs: Seq<Record>,
    pv: Seq<PredV>,
    rv: Option<Seq<u8>>,
    maxd: Distance,
    i: int,
    pos: int,
)
    requires
        0 <= i < rs.len(),
        0 <= pos <= pre_out.len(),
        out_new == pre_out.insert(pos, x),
        x@ == scored_view(rs, i, rv),
        kept(rs, i, pv, rv, maxd),
        scan_complete(pre_out, rs, pv, rv, maxd, i),
    ensures
        scan_complete(out_new, rs, pv, rv, maxd, i + 1),
{
    reveal(scan_complete);
    pre_out.insert_ensures(pos, x);
    assert forall|j: int|
        0 <= j < i + 1 && kept(rs, j, pv, rv, maxd) implies exists|k: int|
        0 <= k < out_new.len() && (#[trigger] out_new[k])@ == scored_view(rs, j, rv) by {
        if j < i {
            let k = choose|k: int|
                0 <= k < pre_out.len() && (#[trigger] pre_out[k])@ == scored_view(rs, j, rv);
            if k < pos {
                assert(out_new[k]@ == scored_view(rs, j, rv));
            } else {
                assert(out_new[k + 1] == pre_out[k]);
                assert(out_new[k + 1]@ == scored_view(rs, j, rv));
            }
        } else {
            assert(out_new[pos]@ == scored_view(rs, j, rv));
        }
    }
}

proof fn lemma_scan_step_unique(
    pre_out: Seq<Record>,
    out_new: Seq<Record>,
    x: Record,
    rs: Seq<Record>,
    pv: Seq<PredV>,
    rv: Option<Seq<u8>>,
    maxd: Distance,
    i: int,
    pos: int,
)
    requires
        0 <= i < rs.len(),
        forall|a: int, b: int| 0 <= a < b < rs.len() ==> rs[a]@.id < rs[b]@.id,
        0 <= pos <= pre_out.len(),
        out_new == pre_out.insert(pos, x),
        x@ == scored_view(rs, i, rv),
        scan_sound(pre_out, rs, pv, rv, maxd, i),
        ids_unique(pre_out),
    ensures
        ids_unique(out_new),
{
    reveal(scan_sound);
    reveal(ids_unique);
    pre_out.insert_ensures(pos, x);
    assert forall|k: int, l: int|
        0 <= k < l < out_new.len() implies out_new[k]@.id != out_new[l]@.id by {
        if k == pos {
            assert(out_new[k] == x);
            assert(out_new[l] == pre_out[l - 1]);
            let j = choose|j: int|
                0 <= j < i && kept(rs, j, pv, rv, maxd) && (#[trigger] pre_out[l - 1])@
                    == scored_view(rs, j, rv);
            assert(pre_out[l - 1]@.id == rs[j]@.id);
            assert(x@.id == rs[i]@.id);
            assert(rs[j]@.id < rs[i]@.id);
        } else if l == pos {
            assert(out_new[l] == x);
            assert(out_new[k] == pre_out[k]);
            let j = choose|j: int|
                0 <= j < i && kept(rs, j, pv, rv, maxd) && (#[trigger] pre_out[k])@ == scored_view(
                    rs,
                    j,
                    rv,
                );
            assert(pre_out[k]@.id == rs[j]@.id);
            assert(x@.id == rs[i]@.id);
            assert(rs[j]@.id < rs[i]@.id);
        } else {
            let ka = if k < pos {
                k
            } else {
                k - 1
            };
            let la = if l < pos {
                l
            } else {
                l - 1
            };
            assert(out_new[k] == pre_out[ka] && out_new[l] == pre_out[la]);
            assert(0 <= ka < la < pre_out.len());
            assert(pre_out[ka]@.id != pre_out[la]@.id);
        }
    }
}

proof fn lemma_scan_step(
    pre_out: Seq<Record>,
    out_new: Seq<Record>,
    x: Record,
    rs: Seq<Record>,
    pv: Seq<PredV>,
    rv: Option<Seq<u8>>,
    maxd: Distance,
    i: int,
)
    requires
        0 <= i < rs.len(),
        forall|a: int, b: int| 0 <= a < b < rs.len() ==> rs[a]@.id < rs[b]@.id,
        exists|pos: int| 0 <= pos <= pre_out.len() && out_new == #[trigger] pre_out.insert(pos, x),
        x@ == scored_view(rs, i, rv),
        kept(rs, i, pv, rv, maxd),
        scan_sound(pre_out, rs, pv, rv, maxd, i),
        scan_complete(pre_out, rs, pv, rv, maxd, i),
        ids_unique(pre_out),
    ensures
        scan_sound(out_new, rs, pv, rv, maxd, i + 1),
        scan_complete(out_new, rs, pv, rv, maxd, i + 1),
        ids_unique(out_new),
{
    let pos = choose|pos: int|
        0 <= pos <= pre_out.len() && out_new == #[trigger] pre_out.insert(pos, x);
    lemma_scan_step_sound(pre_out, out_new, x, rs, pv, rv, maxd, i, pos);
    lemma_scan_step_complete(pre_out, out_new, x, rs, pv, rv, maxd, i, pos);
    lemma_scan_step_unique(pre_out, out_new, x, rs, pv, rv, maxd, i, pos);
}

/// Every kept candidate is either in the result, or the result is full
/// and everything in it ranks at or before the candidate.
#[verifier::opaque]
pub open spec fn scan_result_complete(
    out: Seq<Record>,
    rs: Seq<Record>,
    pv: Seq<PredV>,
    rv: Option<Seq<u8>>,
    maxd: Distance,
    limit: int,
) -> bool {
    forall|i: int|
        0 <= i < rs.len() && kept(rs, i, pv, rv, maxd) ==> (exists|k: int|
            0 <= k < out.len() && (#[trigger] out[k])@ == scored_view(rs, i, rv)) || (out.len()
            == limit && (limit == 0 || key_le(out[limit - 1]@, scored_view(rs, i, rv))))
}

/// In a ranked scan, every result carries a computed distance strictly
/// under the cutoff.
#[verifier::opaque]
pub open spec fn results_within(out: Seq<Record>, rv: Option<Seq<u8>>, maxd: Distance) -> bool {
    match rv {
        Option::None => true,
        Option::Some(_) => forall|k: int|
            0 <= k < out.len() ==> (#[trigger] out[k])@.distance_from_query is Some && distance_lt(
                dist_key(out[k]@),
                maxd,
            ),
    }
}

proof fn lemma_scan_empty(
    out: Seq<Record>,
    rs: Seq<Record>,
    pv: Seq<PredV>,
    rv: Option<Seq<u8>>,
    maxd: Distance,
)
    requires
        out.len() == 0,
    ensures
        sorted_by_key(out),
        keys_wf(out),
        ids_unique(out),
        scan_sound(out, rs, pv, rv, maxd, 0),
        scan_complete(out, rs, pv, rv, maxd, 0),
{
    reveal(keys_wf);
    reveal(ids_unique);
    reveal(scan_sound);
    reveal(scan_complete);
}

proof fn lemma_scan_skip(
    out: Seq<Record>,
    rs: Seq<Record>,
    pv: Seq<PredV>,
    rv: Option<Seq<u8>>,
    maxd: Distance,
    i: int,
)
    requires
        0 <= i,
        scan_sound(out, rs, pv, rv, maxd, i),
        scan_complete(out, rs, pv, rv, maxd, i),
        !kept(rs, i, pv, rv, maxd),
    ensures
        scan_sound(out, rs, pv, rv, maxd, i + 1),
        scan_complete(out, rs, pv, rv, maxd, i + 1),
{
    reveal(scan_sound);
    reveal(scan_complete);
    assert forall|k: int|
        0 <= k < out.len() implies exists|j: int|
        0 <= j < i + 1 && kept(rs, j, pv, rv, maxd) && (#[trigger] out[k])@ == scored_view(
            rs,
            j,
            rv,
        ) by {
        let j = choose|j: int|
            0 <= j < i && kept(rs, j, pv, rv, maxd) && (#[trigger] out[k])@ == scored_view(
                rs,
                j,
                rv,
            );
        assert(0 <= j < i + 1 && kept(rs, j, pv, rv, maxd) && out[k]@ == scored_view(rs, j, rv));
    }
}

#[verifier::rlimit(40)]
proof fn lemma_scan_finish(
    full: Seq<Record>,
    outv: Seq<Record>,
    rs: Seq<Record>,
    pv: Seq<PredV>,
    rv: Option<Seq<u8>>,
    maxd: Distance,
    limit: int,
)
    requires
        0 <= limit,
        sorted_by_key(full),
        ids_unique(full),
        scan_sound(full, rs, pv, rv, maxd, rs.len() as int),
        scan_complete(full, rs, pv, rv, maxd, rs.len() as int),
        outv == if limit <= full.len() {
            full.subrange(0, limit)
        } else {
            full
        },
    ensures
        outv.len() <= limit,
        sorted_by_key(outv),
        ids_unique(outv),
        scan_sound(outv, rs, pv, rv, maxd, rs.len() as int),
        scan_result_complete(outv, rs, pv, rv, maxd, limit),
        results_within(outv, rv, maxd),
{
    reveal(scan_sound);
    reveal(scan_complete);
    reveal(ids_unique);
    reveal(scan_result_complete);
    reveal(results_within);
    assert forall|k: int| 0 <= k < outv.len() implies outv[k] == full[k] by {}
    assert forall|k: int|
        0 <= k < outv.len() implies exists|j: int|
        0 <= j < rs.len() && kept(rs, j, pv, rv, maxd) && (#[trigger] outv[k])@ == scored_view(
            rs,
            j,
            rv,
        ) by {
        assert(outv[k] == full[k]);
        let j = choose|j: int|
            0 <= j < rs.len() && kept(rs, j, pv, rv, maxd) && (#[trigger] full[k])@ == scored_view(
                rs,
                j,
                rv,
            );
        assert(0 <= j < rs.len() && kept(rs, j, pv, rv, maxd) && outv[k]@ == scored_view(
            rs,
            j,
            rv,
        ));
    }
    assert forall|i: int|
        0 <= i < rs.len() && kept(rs, i, pv, rv, maxd) implies (exists|k: int|
        0 <= k < outv.len() && (#[trigger] outv[k])@ == scored_view(rs, i, rv)) || (outv.len()
        == limit && (limit == 0 || key_le(outv[limit - 1]@, scored_view(rs, i, rv)))) by {
        let k = choose|k: int|
            0 <= k < full.len() && (#[trigger] full[k])@ == scored_view(rs, i, rv);
        if k < outv.len() {
            assert(outv[k]@ == scored_view(rs, i, rv));
        } else {
            assert(full.len() > limit);
            assert(outv.len() == limit);
            if limit > 0 {
                assert(outv[limit - 1] == full[limit - 1]);
                assert(key_le(full[limit - 1]@, full[k]@));
            }
        }
    }
    if rv is Some {
        assert forall|k: int|
            0 <= k < outv.len() implies (#[trigger] outv[k])@.distance_from_query is Some
                && distance_lt(dist_key(outv[k]@), maxd) by {
            let j = choose|j: int|
                0 <= j < rs.len() && kept(rs, j, pv, rv, maxd) && (#[trigger] outv[k])@
                    == scored_view(rs, j, rv);
            assert(outv[k]@.distance_from_query == Some(ranked_dist(rv->0, rs[j]@)));
        }
    }
}

/// How many stored records carry the path `p`.
pub open spec fn count_with_path(rs: Seq<Record>, p: Seq<char>) -> int
    decreases rs.len(),
{
    if rs.len() == 0 {
        0
    } else {
        count_with_path(rs.drop_last(), p) + if rs.last()@.path == p {
            1int
        } else {
            0int
        }
    }
}

/// Dedup on insert is idempotent: under the store's invariant no
/// canonical path is ever held by more than one record, however many
/// times a record with that path was offered.
pub proof fn lemma_path_stored_at_most_once(rs: Seq<Record>, next_id: int, p: Seq<char>)
    requires
        recs_wf(rs, next_id),
    ensures
        count_with_path(rs, p) <= 1,
        has_path(rs, p) ==> count_with_path(rs, p) == 1,
{
    lemma_count_unique_paths(rs, p);
}

proof fn lemma_count_unique_paths(rs: Seq<Record>, p: Seq<char>)
    requires
        forall|i: int, j: int| 0 <= i < j < rs.len() ==> rs[i]@.path != rs[j]@.path,
    ensures
        count_with_path(rs, p) >= 0,
        count_with_path(rs, p) <= 1,
        has_path(rs, p) ==> count_with_path(rs, p) == 1,
        count_with_path(rs, p) == 1 ==> has_path(rs, p),
        !has_path(rs, p) ==> count_with_path(rs, p) == 0,
    decreases rs.len(),
{
    if rs.len() > 0 {
        let rest = rs.drop_last();
        lemma_count_unique_paths(rest, p);
        let m = rs.len() - 1;
        if rs.last()@.path == p {
            if has_path(rest, p) {
                let i = choose|i: int| 0 <= i < rest.len() && rest[i]@.path == p;
                assert(rs[i]@.path == p);
                assert(false);
            }
        } else {
            if has_path(rest, p) {
                let i = choose|i: int| 0 <= i < rest.len() && rest[i]@.path == p;
                assert(rs[i]@.path == p);
            }
            if has_path(rs, p) {
                let i = choose|i: int| 0 <= i < rs.len() && rs[i]@.path == p;
                assert(i < m);
                assert(rest[i]@.path == p);
            }
        }
    }
}

} // verus!
