//! The indexed-image record: identity fields, thumbnail bytes, EXIF tags
//! and the two hash vectors, with the validity predicate the store
//! demands of everything it persists.

use vstd::prelude::*;

use crate::distance::{Distance, MAX_HASH_LEN};

verus! {

/// One indexed image.  `id` is zero until the store assigns one;
/// `distance_from_query` is transient and only set on records returned
/// from a similarity query.
#[derive(Clone, Debug)]
pub struct Record {
    pub id: i64,
    pub filename: String,
    pub path: String,
    pub width: u32,
    pub height: u32,
    pub thumbnail: Vec<u8>,
    pub thumbnail_width: u32,
    pub thumbnail_height: u32,
    pub tags: Vec<(String, String)>,
    pub phash: Option<Vec<u8>>,
    pub visual_hash: Option<Vec<u8>>,
    pub distance_from_query: Option<Distance>,
}

/// The mathematical model of a record: every field as a plain value or
/// sequence.
#[verifier::ext_equal]
pub ghost struct RecordV {
    pub id: int,
    pub filename: Seq<char>,
    pub path: Seq<char>,
    pub width: int,
    pub height: int,
    pub thumbnail: Seq<u8>,
    pub thumbnail_width: int,
    pub thumbnail_height: int,
    pub tags: Seq<(Seq<char>, Seq<char>)>,
    pub phash: Option<Seq<u8>>,
    pub visual_hash: Option<Seq<u8>>,
    pub distance_from_query: Option<Distance>,
}

impl View for Record {
    type V = RecordV;

    open spec fn view(&self) -> RecordV {
        RecordV {
            id: self.id as int,
            filename: self.filename@,
            path: self.path@,
            width: self.width as int,
            height: self.height as int,
            thumbnail: self.thumbnail@,
            thumbnail_width: self.thumbnail_width as int,
            thumbnail_height: self.thumbnail_height as int,
            tags: tags_view(self.tags@),
            phash: self.phash.deep_view(),
            visual_hash: self.visual_hash.deep_view(),
            distance_from_query: self.distance_from_query,
        }
    }
}

fn clone_bytes(v: &Vec<u8>) -> (r: Vec<u8>)
    ensures
        r@ == v@,
{
    let n = v.len();
    let mut out: Vec<u8> = Vec::new();
    let mut i: usize = 0;
    while i < n
        invariant
            n == v@.len(),
            0 <= i <= n,
            out@ == v@.subrange(0, i as int),
        decreases n - i,
    {
        out.push(v[i]);
        proof {
            assert(out@ =~= v@.subrange(0, i + 1));
        }
        i = i + 1;
    }
    proof {
        assert(v@.subrange(0, n as int) =~= v@);
    }
    out
}

fn clone_opt_bytes(v: &Option<Vec<u8>>) -> (r: Option<Vec<u8>>)
    ensures
        r.deep_view() == v.deep_view(),
        r is Some <==> v is Some,
{
    match v {
        Option::None => None,
        Option::Some(b) => Some(clone_bytes(b)),
    }
}

fn clone_tags(tags: &Vec<(String, String)>) -> (r: Vec<(String, String)>)
    ensures
        r@ == tags@,
{
    let n = tags.len();
    let mut out: Vec<(String, String)> = Vec::new();
    let mut i: usize = 0;
    while i < n
        invariant
            n == tags@.len(),
            0 <= i <= n,
            out@ == tags@.subrange(0, i as int),
        decreases n - i,
    {
        let pair = (tags[i].0.clone(), tags[i].1.clone());
        proof {
            assert(pair == tags@[i as int]);
            assert(out@.push(pair) =~= tags@.subrange(0, i + 1));
        }
        out.push(pair);
        i = i + 1;
    }
    proof {
        assert(tags@.subrange(0, n as int) =~= tags@);
    }
    out
}

/// A deep copy whose model is identical to the original's.
pub fn clone_record(r: &Record) -> (c: Record)
    ensures
        c@ == r@,
{
    let c = Record {
        id: r.id,
        filename: r.filename.clone(),
        path: r.path.clone(),
        width: r.width,
        height: r.height,
        thumbnail: clone_bytes(&r.thumbnail),
        thumbnail_width: r.thumbnail_width,
        thumbnail_height: r.thumbnail_height,
        tags: clone_tags(&r.tags),
        phash: clone_opt_bytes(&r.phash),
        visual_hash: clone_opt_bytes(&r.visual_hash),
        distance_from_query: r.distance_from_query,
    };
    proof {
        assert(c@ =~= r@);
    }
    c
}

/// Why a record cannot be assembled or persisted.
#[derive(Clone, Copy, Debug, PartialEq, Eq, Structural)]
pub enum RecordError {
    /// The canonical path is empty.
    EmptyPath,
    /// The thumbnail holds no bytes, or its pixel data does not match
    /// its stated dimensions.
    BadThumbnail,
    /// A hash vector is empty or longer than `MAX_HASH_LEN`.
    BadHashLength,
}

/// The tag list as sequences of characters.
pub open spec fn tags_view(ts: Seq<(String, String)>) -> Seq<(Seq<char>, Seq<char>)> {
    ts.map_values(|p: (String, String)| (p.0@, p.1@))
}

/// An optional hash vector is either absent or non-empty and small
/// enough for the distance functions.
pub open spec fn hash_opt_valid(h: Option<Seq<u8>>) -> bool {
    match h {
        Option::None => true,
        Option::Some(v) => 1 <= v.len() <= MAX_HASH_LEN,
    }
}

/// No tag name occurs twice.
pub open spec fn tags_unique(tags: Seq<(Seq<char>, Seq<char>)>) -> bool {
    forall|i: int, j: int| 0 <= i < j < tags.len() ==> tags[i].0 != tags[j].0
}

/// What the store demands of a record: a canonical path, thumbnail
/// bytes, well-sized hash vectors and unique tag names.
pub open spec fn record_valid(r: RecordV) -> bool {
    &&& r.path.len() > 0
    &&& r.thumbnail.len() > 0
    &&& hash_opt_valid(r.phash)
    &&& hash_opt_valid(r.visual_hash)
    &&& tags_unique(r.tags)
}

/// First-occurrence deduplication of tag pairs by name.
pub open spec fn dedup_tags_spec(tags: Seq<(Seq<char>, Seq<char>)>) -> Seq<(Seq<char>, Seq<char>)>
    decreases tags.len(),
{
    if tags.len() == 0 {
        Seq::empty()
    } else {
        let prev = dedup_tags_spec(tags.drop_last());
        if has_tag_key(prev, tags.last().0) {
            prev
        } else {
            prev.push(tags.last())
        }
    }
}

/// Some pair in `tags` has the name `k`.
pub open spec fn has_tag_key(tags: Seq<(Seq<char>, Seq<char>)>, k: Seq<char>) -> bool {
    exists|i: int| 0 <= i < tags.len() && tags[i].0 == k
}

/// Deduplication leaves unique names, keeps exactly the names that were
/// offered, and never grows the list.
pub proof fn lemma_dedup_tags_props(tags: Seq<(Seq<char>, Seq<char>)>)
    ensures
        tags_unique(dedup_tags_spec(tags)),
        forall|k: Seq<char>| has_tag_key(dedup_tags_spec(tags), k) == has_tag_key(tags, k),
        dedup_tags_spec(tags).len() <= tags.len(),
    decreases tags.len(),
{
    if tags.len() > 0 {
        lemma_dedup_tags_props(tags.drop_last());
        let d = dedup_tags_spec(tags);
        let rest = tags.drop_last();
        let prev = dedup_tags_spec(rest);
        let last = tags.last();
        let m = tags.len() - 1;
        assert forall|k: Seq<char>| has_tag_key(d, k) implies has_tag_key(tags, k) by {
            let i = choose|i: int| 0 <= i < d.len() && d[i].0 == k;
            if i < prev.len() {
                assert(d[i] == prev[i]);
                assert(has_tag_key(prev, k));
                assert(has_tag_key(rest, k));
                let j = choose|j: int| 0 <= j < rest.len() && rest[j].0 == k;
                assert(tags[j].0 == k);
            } else {
                assert(d[i] == last);
                assert(tags[m].0 == k);
            }
        }
        assert forall|k: Seq<char>| has_tag_key(tags, k) implies has_tag_key(d, k) by {
            let i = choose|i: int| 0 <= i < tags.len() && tags[i].0 == k;
            if i < m {
                assert(rest[i].0 == k);
                assert(has_tag_key(rest, k));
                assert(has_tag_key(prev, k));
                let j = choose|j: int| 0 <= j < prev.len() && prev[j].0 == k;
                assert(d[j].0 == k);
            } else {
                if has_tag_key(prev, last.0) {
                    let j = choose|j: int| 0 <= j < prev.len() && prev[j].0 == last.0;
                    assert(d[j].0 == k);
                } else {
                    assert(d[prev.len() as int] == last);
                }
            }
        }
        if !has_tag_key(prev, last.0) {
            assert forall|i: int, j: int| 0 <= i < j < d.len() implies d[i].0 != d[j].0 by {
                if j < prev.len() {
                    assert(d[i] == prev[i] && d[j] == prev[j]);
                } else {
                    assert(d[j] == last);
                    assert(d[i] == prev[i]);
                    if d[i].0 == last.0 {
                        assert(has_tag_key(prev, last.0));
                    }
                }
            }
        }
    }
}

fn tags_contain_key(tags: &Vec<(String, String)>, k: &String) -> (r: bool)
    ensures
        r == has_tag_key(tags_view(tags@), k@),
{
    let n = tags.len();
    let mut i: usize = 0;
    while i < n
        invariant
            n == tags@.len(),
            0 <= i <= n,
            forall|j: int| 0 <= j < i ==> tags@[j].0@ != k@,
        decreases n - i,
    {
        if tags[i].0.eq(k) {
            proof {
                assert(tags_view(tags@)[i as int].0 == tags@[i as int].0@);
            }
            return true;
        }
        i = i + 1;
    }
    proof {
        assert forall|j: int| 0 <= j < n implies tags_view(tags@)[j].0 != k@ by {
            assert(tags_view(tags@)[j].0 == tags@[j].0@);
        }
    }
    false
}

/// Drops every tag pair whose name already occurred earlier in the list.
pub fn dedup_tags(tags: Vec<(String, String)>) -> (r: Vec<(String, String)>)
    ensures
        tags_view(r@) == dedup_tags_spec(tags_view(tags@)),
        tags_unique(tags_view(r@)),
{
    let n = tags.len();
    let mut out: Vec<(String, String)> = Vec::new();
    let mut i: usize = 0;
    proof {
        assert(tags_view(out@) =~= dedup_tags_spec(tags_view(tags@).subrange(0, 0)));
    }
    while i < n
        invariant
            n == tags@.len(),
            0 <= i <= n,
            tags_view(out@) == dedup_tags_spec(tags_view(tags@).subrange(0, i as int)),
        decreases n - i,
    {
        let pair = (tags[i].0.clone(), tags[i].1.clone());
        proof {
            let tv = tags_view(tags@);
            let p = tv.subrange(0, i + 1);
            assert(p.drop_last() =~= tv.subrange(0, i as int));
            assert(p.last() == tv[i as int]);
            assert(tv[i as int] == (tags@[i as int].0@, tags@[i as int].1@));
        }
        if !tags_contain_key(&out, &pair.0) {
            let ghost pre = out@;
            out.push(pair);
            proof {
                assert(tags_view(out@) =~= tags_view(pre).push(
                    (tags@[i as int].0@, tags@[i as int].1@),
                ));
            }
        }
        i = i + 1;
    }
    proof {
        assert(tags_view(tags@).subrange(0, n as int) =~= tags_view(tags@));
        lemma_dedup_tags_props(tags_view(tags@));
    }
    out
}

impl Record {
    /// Assembles a transient record (id zero, no query distance) from
    /// already-extracted parts, validating what the store will demand:
    /// a non-empty path, non-empty thumbnail bytes and well-sized hash
    /// vectors.  Tag names are deduplicated, first occurrence winning.
    pub fn from_parts(
        filename: String,
        path: String,
        width: u32,
        height: u32,
        thumbnail: Vec<u8>,
        thumbnail_width: u32,
        thumbnail_height: u32,
        tags: Vec<(String, String)>,
        phash: Option<Vec<u8>>,
        visual_hash: Option<Vec<u8>>,
    ) -> (r: Result<Record, RecordError>)
        ensures
            path@.len() == 0 ==> r == Err::<Record, RecordError>(RecordError::EmptyPath),
            path@.len() > 0 && thumbnail@.len() == 0 ==> r == Err::<Record, RecordError>(
                RecordError::BadThumbnail,
            ),
            path@.len() > 0 && thumbnail@.len() > 0 && !(hash_opt_valid(phash.deep_view())
                && hash_opt_valid(visual_hash.deep_view())) ==> r == Err::<Record, RecordError>(
                RecordError::BadHashLength,
            ),
            path@.len() > 0 && thumbnail@.len() > 0 && hash_opt_valid(phash.deep_view())
                && hash_opt_valid(visual_hash.deep_view()) ==> {
                &&& r is Ok
                &&& record_valid(r->Ok_0@)
                &&& r->Ok_0.id == 0
                &&& r->Ok_0.filename == filename
                &&& r->Ok_0.path == path
                &&& r->Ok_0.width == width
                &&& r->Ok_0.height == height
                &&& r->Ok_0.thumbnail == thumbnail
                &&& r->Ok_0.thumbnail_width == thumbnail_width
                &&& r->Ok_0.thumbnail_height == thumbnail_height
                &&& tags_view(r->Ok_0.tags@) == dedup_tags_spec(tags_view(tags@))
                &&& r->Ok_0.phash == phash
                &&& r->Ok_0.visual_hash == visual_hash
                &&& r->Ok_0.distance_from_query is None
            },
    {
        if path.unicode_len() == 0 {
            return Err(RecordError::EmptyPath);
        }
        if thumbnail.len() == 0 {
            return Err(RecordError::BadThumbnail);
        }
        if !hash_opt_ok(&phash) || !hash_opt_ok(&visual_hash) {
            return Err(RecordError::BadHashLength);
        }
        Ok(
            Record {
                id: 0,
                filename,
                path,
                width,
                height,
                thumbnail,
                thumbnail_width,
                thumbnail_height,
                tags: dedup_tags(tags),
                phash,
                visual_hash,
                distance_from_query: None,
            },
        )
    }

    /// Whether this record meets everything the store demands.
    pub fn check_valid(&self) -> (r: bool)
        ensures
            r == record_valid(self@),
    {
        if self.path.unicode_len() == 0 {
            return false;
        }
        if self.thumbnail.len() == 0 {
            return false;
        }
        if !hash_opt_ok(&self.phash) || !hash_opt_ok(&self.visual_hash) {
            return false;
        }
        tags_all_unique(&self.tags)
    }
}

fn hash_opt_ok(h: &Option<Vec<u8>>) -> (r: bool)
    ensures
        r == hash_opt_valid(h.deep_view()),
{
    match h {
        Option::None => true,
        Option::Some(v) => v.len() >= 1 && v.len() <= MAX_HASH_LEN,
    }
}

fn tags_all_unique(tags: &Vec<(String, String)>) -> (r: bool)
    ensures
        r == tags_unique(tags_view(tags@)),
{
    let n = tags.len();
    let mut i: usize = 0;
    while i < n
        invariant
            n == tags@.len(),
            0 <= i <= n,
            forall|a: int, b: int| 0 <= a < b < tags.len() && b < i ==> tags@[a].0@ != tags@[b].0@,
        decreases n - i,
    {
        let mut j: usize = 0;
        while j < i
            invariant
                n == tags@.len(),
                0 <= j <= i < n,
                forall|a: int| 0 <= a < j ==> tags@[a].0@ != tags@[i as int].0@,
            decreases i - j,
        {
            if tags[j].0.eq(&tags[i].0) {
                proof {
                    assert(tags_view(tags@)[j as int].0 == tags@[j as int].0@);
                    assert(tags_view(tags@)[i as int].0 == tags@[i as int].0@);
                }
                return false;
            }
            j = j + 1;
        }
        i = i + 1;
    }
    proof {
        assert forall|a: int, b: int|
            0 <= a < b < tags@.len() implies tags_view(tags@)[a].0 != tags_view(tags@)[b].0 by {
            assert(tags_view(tags@)[a].0 == tags@[a].0@);
            assert(tags_view(tags@)[b].0 == tags@[b].0@);
        }
    }
    true
}

} // verus!
