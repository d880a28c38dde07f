//! Banded locality-sensitive index over MinHash signatures.
//!
//! A signature of length `n` is split into `bands` contiguous bands of
//! `n / bands` rows each.  Every band is hashed to a bucket key, and the id
//! is appended to that band's bucket.  A query unions the buckets matching
//! the query signature's bands: it returns candidates only, which callers
//! must verify with an exact similarity comparison.  There is no delete:
//! ids stay retrievable forever once inserted.

use crate::minhash::MinHash;
use std::collections::HashMap;
use vstd::prelude::*;

verus! {

pub const BAND_KEY_SEED: u64 = 0xCBF2_9CE4_8422_2325;

pub const BAND_KEY_MULTIPLIER: u64 = 0x0000_0100_0000_01B3;

/// Folds a sequence of slot values into one bucket key.
pub open spec fn key_fold(s: Seq<u64>) -> u64
    decreases s.len(),
{
    if s.len() == 0 {
        BAND_KEY_SEED
    } else {
        (key_fold(s.drop_last()) ^ s.last()).wrapping_mul(BAND_KEY_MULTIPLIER)
    }
}

/// Bucket key of band `b` of a signature, with `rows` slots per band.
pub open spec fn band_key(sig: Seq<u64>, b: int, rows: int) -> u64 {
    key_fold(sig.subrange(b * rows, b * rows + rows))
}

/// One band table, as a map from bucket key to the ids in that bucket.
pub type BandTable = Map<u64, Seq<u64>>;

/// The ids held by the bucket `key` of table `t`.
pub open spec fn bucket_of(t: BandTable, key: u64) -> Seq<u64> {
    if t.contains_key(key) {
        t[key]
    } else {
        Seq::empty()
    }
}

/// `id` sits in bucket `key` of table `t`.
pub open spec fn bucket_has(t: BandTable, key: u64, id: u64) -> bool {
    t.contains_key(key) && t[key].contains(id)
}

/// Table `t` with `id` appended to bucket `key`.
pub open spec fn bucket_insert(t: BandTable, key: u64, id: u64) -> BandTable {
    t.insert(key, bucket_of(t, key).push(id))
}

/// The whole index after inserting `id` under signature `sig`.
pub open spec fn index_insert(v: Seq<BandTable>, sig: Seq<u64>, id: u64) -> Seq<BandTable> {
    Seq::new(
        v.len(),
        |b: int| bucket_insert(v[b], band_key(sig, b, sig.len() as int / v.len() as int), id),
    )
}

/// `id` is a candidate for `sig`: some band's bucket holds it.
pub open spec fn query_matches(v: Seq<BandTable>, sig: Seq<u64>, id: u64) -> bool {
    exists|b: int|
        0 <= b < v.len() && bucket_has(
            v[b],
            band_key(sig, b, sig.len() as int / v.len() as int),
            id,
        )
}

/// Inserting under a signature makes the id a candidate for that same
/// signature: identical vectors share every band, so the very first band's
/// bucket already holds the id.
pub proof fn lemma_insert_then_query(v: Seq<BandTable>, sig: Seq<u64>, id: u64)
    requires
        v.len() >= 1,
    ensures
        query_matches(index_insert(v, sig, id), sig, id),
{
    let v2 = index_insert(v, sig, id);
    let rows = sig.len() as int / v.len() as int;
    let key = band_key(sig, 0, rows);
    assert(v2[0] == bucket_insert(v[0], key, id));
    assert(v2[0][key].last() == id);
    assert(bucket_has(v2[0], key, id));
}

/// In-memory banded index from band-bucket keys to course ids.
///
/// Mutable and shared by every ingestion operation; the caller guards it
/// with one exclusive lock, so insert and query never interleave.
pub struct LshIndex {
    bands: usize,
    tables: Vec<HashMap<u64, Vec<u64>>>,
}

impl View for LshIndex {
    type V = Seq<BandTable>;

    closed spec fn view(&self) -> Seq<BandTable> {
        Seq::new(
            self.tables@.len(),
            |b: int| Map::new(
                |k: u64| self.tables@[b]@.contains_key(k),
                |k: u64| self.tables@[b]@[k]@,
            ),
        )
    }
}

impl LshIndex {
    /// Number of bands the index was created with.
    pub closed spec fn spec_bands(&self) -> int {
        self.bands as int
    }

    /// The index is well formed: as many band tables as bands, at least one.
    pub open spec fn wf(&self) -> bool {
        &&& self@.len() == self.spec_bands()
        &&& self.spec_bands() >= 1
    }

    /// An empty index with `bands` band tables.
    pub fn new(bands: usize) -> (r: LshIndex)
        requires
            bands >= 1,
        ensures
            r.wf(),
            r.spec_bands() == bands,
            forall|b: int| 0 <= b < bands ==> r@[b] == Map::<u64, Seq<u64>>::empty(),
    {
        let mut tables: Vec<HashMap<u64, Vec<u64>>> = Vec::new();
        let mut b: usize = 0;
        while b < bands
            invariant
                b <= bands,
                tables@.len() == b,
                forall|i: int| 0 <= i < b ==> tables@[i]@ == Map::<u64, Vec<u64>>::empty(),
            decreases bands - b,
        {
            tables.push(HashMap::new());
            b = b + 1;
        }
        let r = LshIndex { bands, tables };
        assert forall|i: int| 0 <= i < bands implies r@[i] == Map::<u64, Seq<u64>>::empty() by {
            assert(r@[i] =~= Map::<u64, Seq<u64>>::empty());
        }
        r
    }

    /// Number of bands, as a value.
    pub fn bands(&self) -> (r: usize)
        ensures
            r == self.spec_bands(),
    {
        self.bands
    }

    /// Adds `id` to the bucket of every band of `sig`.  Append-only.
    pub fn insert(&mut self, id: u64, sig: &MinHash)
        requires
            old(self).wf(),
            sig@.len() as int % (old(self).spec_bands() as int) == 0,
        ensures
            final(self).wf(),
            final(self).spec_bands() == old(self).spec_bands(),
            final(self)@ == index_insert(old(self)@, sig@, id),
    {
        let ghost orig = self@;
        let bands = self.bands;
        let rows = sig.len() / bands;
        let ghost rows_g = sig@.len() as int / self.spec_bands();
        let mut b: usize = 0;
        while b < bands
            invariant
                b <= bands,
                self.bands == bands,
                self.tables@.len() == bands,
                self@.len() == bands,
                orig.len() == bands,
                bands >= 1,
                sig@.len() <= usize::MAX,
                sig@.len() as int % (bands as int) == 0,
                rows == rows_g,
                rows_g == sig@.len() as int / (bands as int),
                forall|i: int|
                    0 <= i < b ==> self@[i] == bucket_insert(
                        orig[i],
                        band_key(sig@, i, rows_g),
                        id,
                    ),
                forall|i: int| b <= i < bands ==> self@[i] == orig[i],
            decreases bands - b,
        {
            proof {
                crate::lsh::lemma_band_bounds(b as int, bands as int, rows_g, sig@.len() as int);
            }
            let ghost snap = self@;
            let key = band_key_exec(sig, b, rows);
            let mut bucket: Vec<u64> = match self.tables[b].remove(&key) {
                Some(v) => v,
                None => Vec::new(),
            };
            bucket.push(id);
            self.tables[b].insert(key, bucket);
            proof {
                assert forall|i: int|
                    0 <= i < b + 1 implies self@[i] == bucket_insert(
                        orig[i],
                        band_key(sig@, i, rows_g),
                        id,
                    ) by {
                    if i == b {
                        assert(snap[i] == orig[i]);
                        assert(self@[i] =~= bucket_insert(snap[i], band_key(sig@, i, rows_g), id));
                    } else {
                        assert(snap[i] == bucket_insert(orig[i], band_key(sig@, i, rows_g), id));
                        assert(self@[i] =~= snap[i]);
                    }
                }
                assert forall|i: int| b + 1 <= i < bands implies self@[i] == orig[i] by {
                    assert(snap[i] == orig[i]);
                    assert(self@[i] =~= snap[i]);
                }
            }
            b = b + 1;
        }
        proof {
            assert(self@ =~= index_insert(orig, sig@, id));
        }
    }

    /// Unions, across all bands, every bucket matching the query signature's
    /// band keys.  The result holds exactly the candidate ids; sharing one
    /// band does not imply similarity, so callers verify each candidate.
    pub fn query(&self, sig: &MinHash) -> (r: Vec<u64>)
        requires
            self.wf(),
            sig@.len() as int % (self.spec_bands() as int) == 0,
        ensures
            forall|id: u64| r@.contains(id) <==> query_matches(self@, sig@, id),
    {
        let bands = self.bands;
        let rows = sig.len() / bands;
        let ghost rows_g = sig@.len() as int / self.spec_bands();
        let mut out: Vec<u64> = Vec::new();
        let mut b: usize = 0;
        while b < bands
            invariant
                b <= bands,
                self.wf(),
                self.bands == bands,
                self@.len() == bands,
                bands >= 1,
                sig@.len() <= usize::MAX,
                sig@.len() as int % (bands as int) == 0,
                rows == rows_g,
                rows_g == sig@.len() as int / (bands as int),
                out@ == query_concat(self@, sig@, rows_g, b as int),
            decreases bands - b,
        {
            proof {
                crate::lsh::lemma_band_bounds(b as int, bands as int, rows_g, sig@.len() as int);
            }
            let key = band_key_exec(sig, b, rows);
            let ghost pre = out@;
            match self.tables[b].get(&key) {
                Some(bucket) => {
                    let mut j: usize = 0;
                    while j < bucket.len()
                        invariant
                            j <= bucket@.len(),
                            bucket@ == self@[b as int][key],
                            self@.len() > b,
                            self@[b as int].contains_key(key),
                            out@ == pre + bucket@.take(j as int),
                        decreases bucket@.len() - j,
                    {
                        out.push(bucket[j]);
                        proof {
                            assert(out@ =~= pre + bucket@.take(j + 1));
                        }
                        j = j + 1;
                    }
                    proof {
                        assert(bucket@.take(bucket@.len() as int) =~= bucket@);
                        assert(bucket_of(self@[b as int], key) == bucket@);
                        assert(out@ == query_concat(self@, sig@, rows_g, b + 1));
                    }
                },
                None => {
                    proof {
                        assert(!self@[b as int].contains_key(key));
                        assert(bucket_of(self@[b as int], key) =~= Seq::<u64>::empty());
                        assert(out@ =~= pre + bucket_of(self@[b as int], key));
                        assert(out@ == query_concat(self@, sig@, rows_g, b + 1));
                    }
                },
            }
            b = b + 1;
        }
        proof {
            assert forall|id: u64|
                out@.contains(id) <==> query_matches(self@, sig@, id) by {
                lemma_query_concat_contains(self@, sig@, rows_g, bands as int, id);
            }
        }
        out
    }
}

/// The concatenation of the first `b` band buckets matching `sig`.
pub open spec fn query_concat(v: Seq<BandTable>, sig: Seq<u64>, rows: int, b: int) -> Seq<u64>
    decreases b,
{
    if b <= 0 {
        Seq::empty()
    } else {
        query_concat(v, sig, rows, b - 1) + bucket_of(v[b - 1], band_key(sig, b - 1, rows))
    }
}

/// Membership in a concatenation of two sequences.
pub proof fn lemma_concat_contains(a: Seq<u64>, c: Seq<u64>, id: u64)
    ensures
        (a + c).contains(id) <==> a.contains(id) || c.contains(id),
{
    if (a + c).contains(id) {
        let w = choose|w: int| 0 <= w < (a + c).len() && (#[trigger] (a + c)[w]) == id;
        if w < a.len() {
            assert(a[w] == id);
        } else {
            assert(c[w - a.len()] == id);
        }
    }
    if a.contains(id) {
        let w = choose|w: int| 0 <= w < a.len() && (#[trigger] a[w]) == id;
        assert((a + c)[w] == id);
    }
    if c.contains(id) {
        let w = choose|w: int| 0 <= w < c.len() && (#[trigger] c[w]) == id;
        assert((a + c)[a.len() + w] == id);
    }
}

/// Membership in the union of the first `b` buckets is membership in one of
/// them.
pub proof fn lemma_query_concat_contains(
    v: Seq<BandTable>,
    sig: Seq<u64>,
    rows: int,
    b: int,
    id: u64,
)
    requires
        b <= v.len(),
        rows == sig.len() as int / v.len() as int,
    ensures
        query_concat(v, sig, rows, b).contains(id) <==> exists|i: int|
            0 <= i < b && bucket_has(#[trigger] v[i], band_key(sig, i, rows), id),
    decreases b,
{
    if b <= 0 {
        assert(!Seq::<u64>::empty().contains(id));
    } else {
        lemma_query_concat_contains(v, sig, rows, b - 1, id);
        lemma_concat_contains(
            query_concat(v, sig, rows, b - 1),
            bucket_of(v[b - 1], band_key(sig, b - 1, rows)),
            id,
        );
        let prevq = exists|i: int|
            0 <= i < b - 1 && bucket_has(#[trigger] v[i], band_key(sig, i, rows), id);
        if query_concat(v, sig, rows, b).contains(id) {
            if !prevq {
                assert(bucket_of(v[b - 1], band_key(sig, b - 1, rows)).contains(id));
                assert(bucket_has(v[b - 1], band_key(sig, b - 1, rows), id));
            }
        }
        if exists|i: int| 0 <= i < b && bucket_has(#[trigger] v[i], band_key(sig, i, rows), id) {
            let i = choose|i: int|
                0 <= i < b && bucket_has(#[trigger] v[i], band_key(sig, i, rows), id);
            if i < b - 1 {
                assert(prevq);
                assert(query_concat(v, sig, rows, b - 1).contains(id));
            } else {
                assert(bucket_of(v[b - 1], band_key(sig, b - 1, rows)).contains(id));
            }
        }
    }
}

/// What `push` adds to the members of a sequence: the new element, nothing
/// else.
pub proof fn lemma_push_contains(s: Seq<u64>, x: u64, id: u64)
    ensures
        s.push(x).contains(id) <==> s.contains(id) || id == x,
{
    if s.push(x).contains(id) {
        let w = choose|w: int| 0 <= w < s.push(x).len() && (#[trigger] s.push(x)[w]) == id;
        if w < s.len() {
            assert(s[w] == id);
        }
    }
    if s.contains(id) {
        let w = choose|w: int| 0 <= w < s.len() && (#[trigger] s[w]) == id;
        assert(s.push(x)[w] == id);
    }
    assert(s.push(x)[s.len() as int] == x);
}

/// Extending a prefix by one element adds that element to its members.
pub proof fn lemma_take_one_more(s: Seq<u64>, j: int, id: u64)
    requires
        0 <= j < s.len(),
    ensures
        s.take(j + 1).contains(id) <==> s.take(j).contains(id) || id == s[j],
{
    assert(s.take(j + 1) =~= s.take(j).push(s[j]));
    lemma_push_contains(s.take(j), s[j], id);
}

/// An insert only appends to buckets, so every id already retrievable from
/// a band bucket stays retrievable.
pub proof fn lemma_index_insert_preserves(
    v: Seq<BandTable>,
    sig: Seq<u64>,
    id2: u64,
    b: int,
    key: u64,
    id: u64,
)
    requires
        0 <= b < v.len(),
        bucket_has(v[b], key, id),
    ensures
        bucket_has(index_insert(v, sig, id2)[b], key, id),
{
    let rows = sig.len() as int / v.len() as int;
    let k2 = band_key(sig, b, rows);
    if key == k2 {
        lemma_push_contains(bucket_of(v[b], key), id2, id);
    }
}

/// An insert puts the id into the matching bucket of every band.
pub proof fn lemma_index_insert_new_id(v: Seq<BandTable>, sig: Seq<u64>, id: u64, b: int)
    requires
        0 <= b < v.len(),
    ensures
        bucket_has(
            index_insert(v, sig, id)[b],
            band_key(sig, b, sig.len() as int / v.len() as int),
            id,
        ),
{
    let rows = sig.len() as int / v.len() as int;
    let key = band_key(sig, b, rows);
    assert(index_insert(v, sig, id)[b][key].last() == id);
}

/// Every band of a signature of length `bands * rows` lies inside it.
pub proof fn lemma_band_bounds(b: int, bands: int, rows: int, len: int)
    requires
        0 <= b < bands,
        bands >= 1,
        0 <= len,
        len % bands == 0,
        rows == len / bands,
    ensures
        0 <= b * rows,
        b * rows + rows <= len,
        rows >= 0,
{
    vstd::arithmetic::div_mod::lemma_fundamental_div_mod(len, bands);
    vstd::arithmetic::div_mod::lemma_div_is_ordered_by_denominator(len, 1, bands);
    assert(rows >= 0) by (nonlinear_arith)
        requires
            len == bands * rows,
            bands >= 1,
            len >= 0,
    ;
    assert(0 <= b * rows && b * rows + rows <= bands * rows) by (nonlinear_arith)
        requires
            0 <= b < bands,
            rows >= 0,
    ;
}

fn band_key_exec(sig: &MinHash, b: usize, rows: usize) -> (k: u64)
    requires
        b * rows + rows <= sig@.len(),
        sig@.len() <= usize::MAX,
    ensures
        k == band_key(sig@, b as int, rows as int),
{
    let start = b * rows;
    let mut k: u64 = BAND_KEY_SEED;
    let mut j: usize = 0;
    while j < rows
        invariant
            j <= rows,
            start == b * rows,
            start + rows <= sig@.len(),
            sig@.len() <= usize::MAX,
            k == key_fold(sig@.subrange(start as int, start + j)),
        decreases rows - j,
    {
        proof {
            assert(sig@.subrange(start as int, start + j + 1).drop_last() =~= sig@.subrange(
                start as int,
                start + j,
            ));
            assert(sig@.subrange(start as int, start + j + 1).last() == sig@[start + j]);
        }
        k = (k ^ sig.slot(start + j)).wrapping_mul(BAND_KEY_MULTIPLIER);
        j = j + 1;
    }
    proof {
        assert(sig@.subrange(start as int, start + rows) =~= sig@.subrange(
            b as int * rows as int,
            b as int * rows as int + rows as int,
        ));
    }
    k
}

} // verus!
