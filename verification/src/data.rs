//! The ingestion pipeline and the state it guards: the shared permutation
//! family, the banded index, and the in-memory course store.
//!
//! `Data` is constructed once in the application context and passed by
//! reference.  The caller serializes all ingestion operations (a production
//! deployment holds one exclusive lock around them); exclusive access is
//! what `&mut self` models here, so the verify-then-insert span of each
//! course is one atomic region and a check-then-act race cannot admit two
//! near-duplicates.

use crate::course::Course2;
use crate::course::Course2SimilarityError;
use crate::course::Difficulty;
use crate::course::DownloadCourse2Error;
use crate::course::NewCourse2;
use crate::course::PutCourses2Error;
use crate::course::PutCourses2Response;
use crate::lsh::BandTable;
use crate::lsh::LshIndex;
use crate::lsh::band_key;
use crate::lsh::bucket_has;
use crate::lsh::index_insert;
use crate::lsh::query_matches;
use crate::minhash::PermGen;
use crate::minhash::agree_count;
use crate::minhash::sig_of;
use crate::sim::THRESHOLD_DEN;
use crate::sim::THRESHOLD_NUM;
use crate::sim::band_slice;
use crate::sim::exceeds_threshold;
use crate::sim::lemma_similar_share_band;
use vstd::prelude::*;

verus! {

/// What the duplicate decision and the conflict report depend on for one
/// stored course: its id, its signature, and its title.
pub struct StoredSig {
    pub id: u64,
    pub sig: Seq<u64>,
    pub title: Seq<char>,
}

/// The decision-relevant projection of the course store.
pub open spec fn sigs_of(store: Seq<Course2>) -> Seq<StoredSig> {
    Seq::new(
        store.len(),
        |k: int| StoredSig { id: store[k].id, sig: store[k].hash@, title: store[k].title@ },
    )
}

/// Some stored signature is similar to `sig` above the threshold.
pub open spec fn sig_conflict(sigs: Seq<StoredSig>, sig: Seq<u64>) -> bool {
    exists|k: int| 0 <= k < sigs.len() && exceeds_threshold(#[trigger] sigs[k].sig, sig)
}

/// One rejection of a batch: the course that was turned away and the
/// stored projection its decision was taken against.
pub struct RejectedAt {
    pub sigs: Seq<StoredSig>,
    pub course: NewCourse2,
}

/// State of a batch ingestion after some prefix of the batch: the stored
/// projection, the index, the next fresh id, the per-course outcome so far
/// (`Some(id)` accepted, `None` rejected), and the rejections in order.
pub struct BatchState {
    pub sigs: Seq<StoredSig>,
    pub index: Seq<BandTable>,
    pub next_id: int,
    pub outcomes: Seq<Option<u64>>,
    pub rejected: Seq<RejectedAt>,
}

/// The whole batch, folded course by course: a course without a thumbnail
/// or with a stored near-duplicate is rejected and changes nothing; any
/// other course is stored under the next fresh id and indexed under its
/// signature.
pub open spec fn batch_fold(
    sigs: Seq<StoredSig>,
    index: Seq<BandTable>,
    next_id: int,
    perms: Seq<(u64, u64)>,
    inputs: Seq<NewCourse2>,
) -> BatchState
    decreases inputs.len(),
{
    if inputs.len() == 0 {
        BatchState { sigs, index, next_id, outcomes: Seq::empty(), rejected: Seq::empty() }
    } else {
        let c = inputs[0];
        let sig = sig_of(perms, c.data@);
        let accept = c.thumb is Some && !sig_conflict(sigs, sig);
        let rest = if accept {
            batch_fold(
                sigs.push(StoredSig { id: next_id as u64, sig, title: c.title@ }),
                index_insert(index, sig, next_id as u64),
                next_id + 1,
                perms,
                inputs.skip(1),
            )
        } else {
            batch_fold(sigs, index, next_id, perms, inputs.skip(1))
        };
        BatchState {
            sigs: rest.sigs,
            index: rest.index,
            next_id: rest.next_id,
            outcomes: seq![
                if accept {
                    Some(next_id as u64)
                } else {
                    None
                },
            ] + rest.outcomes,
            rejected: (if accept {
                Seq::empty()
            } else {
                seq![(RejectedAt { sigs, course: c })]
            }) + rest.rejected,
        }
    }
}

/// What a recorded batch failure must say of the course it rejected, held
/// against the stored projection at its turn: a missing thumbnail is
/// reported as such, and a similarity conflict names a stored course above
/// the threshold, with its id, its title, and the exact agreement count.
pub open spec fn failure_matches(
    e: PutCourses2Error,
    sigs: Seq<StoredSig>,
    c: NewCourse2,
    perms: Seq<(u64, u64)>,
) -> bool {
    match e {
        PutCourses2Error::ThumbnailMissing => c.thumb is None,
        PutCourses2Error::Similarity(err) => {
            &&& c.thumb is Some
            &&& err.total == perms.len()
            &&& exists|k: int|
                0 <= k < sigs.len() && {
                    let s = #[trigger] sigs[k];
                    &&& s.id == err.similar_course_id
                    &&& s.title == err.title@
                    &&& err.matching == agree_count(s.sig, sig_of(perms, c.data@))
                    &&& exceeds_threshold(s.sig, sig_of(perms, c.data@))
                }
        },
    }
}

/// The accepted ids of a batch outcome, in order.
pub open spec fn somes(outcomes: Seq<Option<u64>>) -> Seq<u64>
    decreases outcomes.len(),
{
    if outcomes.len() == 0 {
        Seq::empty()
    } else {
        (match outcomes[0] {
            Some(id) => seq![id],
            None => Seq::empty(),
        }) + somes(outcomes.skip(1))
    }
}

/// Extending a batch by one course folds that course against the state the
/// previous courses left behind.
pub proof fn lemma_batch_fold_snoc(
    sigs: Seq<StoredSig>,
    index: Seq<BandTable>,
    next_id: int,
    perms: Seq<(u64, u64)>,
    inputs: Seq<NewCourse2>,
    x: NewCourse2,
)
    ensures
        ({
            let mid = batch_fold(sigs, index, next_id, perms, inputs);
            let full = batch_fold(sigs, index, next_id, perms, inputs.push(x));
            let sig = sig_of(perms, x.data@);
            let accept = x.thumb is Some && !sig_conflict(mid.sigs, sig);
            &&& full.sigs == (if accept {
                mid.sigs.push(StoredSig { id: mid.next_id as u64, sig, title: x.title@ })
            } else {
                mid.sigs
            })
            &&& full.index == (if accept {
                index_insert(mid.index, sig, mid.next_id as u64)
            } else {
                mid.index
            })
            &&& full.next_id == (if accept {
                mid.next_id + 1
            } else {
                mid.next_id
            })
            &&& full.outcomes == mid.outcomes.push(
                if accept {
                    Some(mid.next_id as u64)
                } else {
                    None
                },
            )
            &&& full.rejected == (if accept {
                mid.rejected
            } else {
                mid.rejected.push((RejectedAt { sigs: mid.sigs, course: x }))
            })
        }),
    decreases inputs.len(),
{
    let sig = sig_of(perms, x.data@);
    if inputs.len() == 0 {
        assert(inputs.push(x)[0] == x);
        assert(inputs.push(x).skip(1) =~= Seq::<NewCourse2>::empty());
        let accept = x.thumb is Some && !sig_conflict(sigs, sig);
        let o = if accept {
            Some(next_id as u64)
        } else {
            None::<u64>
        };
        let sigs2 = if accept {
            sigs.push(StoredSig { id: next_id as u64, sig, title: x.title@ })
        } else {
            sigs
        };
        let index2 = if accept {
            index_insert(index, sig, next_id as u64)
        } else {
            index
        };
        let next2 = if accept {
            next_id + 1
        } else {
            next_id
        };
        let rest = batch_fold(sigs2, index2, next2, perms, inputs.push(x).skip(1));
        assert(rest.outcomes =~= Seq::<Option<u64>>::empty());
        assert(rest.rejected =~= Seq::<RejectedAt>::empty());
        assert(rest.sigs == sigs2);
        assert(rest.index == index2);
        assert(rest.next_id == next2);
        let full = batch_fold(sigs, index, next_id, perms, inputs.push(x));
        assert(full.outcomes == seq![o] + rest.outcomes);
        assert(full.outcomes =~= Seq::<Option<u64>>::empty().push(o));
        let mid = batch_fold(sigs, index, next_id, perms, inputs);
        assert(mid.outcomes == Seq::<Option<u64>>::empty());
        assert(mid.rejected == Seq::<RejectedAt>::empty());
        assert(mid.sigs == sigs);
        assert(mid.index == index);
        assert(mid.next_id == next_id);
        assert(full.outcomes =~= mid.outcomes.push(o));
        if accept {
            assert(full.rejected == Seq::<RejectedAt>::empty() + rest.rejected);
            assert(full.rejected =~= mid.rejected);
        } else {
            assert(full.rejected == seq![(RejectedAt { sigs, course: x })] + rest.rejected);
            assert(full.rejected =~= mid.rejected.push((RejectedAt { sigs: mid.sigs, course: x })));
        }
    } else {
        let c = inputs[0];
        assert(inputs.push(x)[0] == c);
        assert(inputs.push(x).skip(1) =~= inputs.skip(1).push(x));
        let csig = sig_of(perms, c.data@);
        let caccept = c.thumb is Some && !sig_conflict(sigs, csig);
        if caccept {
            lemma_batch_fold_snoc(
                sigs.push(StoredSig { id: next_id as u64, sig: csig, title: c.title@ }),
                index_insert(index, csig, next_id as u64),
                next_id + 1,
                perms,
                inputs.skip(1),
                x,
            );
        } else {
            lemma_batch_fold_snoc(sigs, index, next_id, perms, inputs.skip(1), x);
        }
        let mid = batch_fold(sigs, index, next_id, perms, inputs);
        let full = batch_fold(sigs, index, next_id, perms, inputs.push(x));
        let accept = x.thumb is Some && !sig_conflict(mid.sigs, sig);
        assert(full.outcomes =~= mid.outcomes.push(
            if accept {
                Some(mid.next_id as u64)
            } else {
                None
            },
        ));
        if accept {
            assert(full.rejected =~= mid.rejected);
        } else {
            assert(full.rejected =~= mid.rejected.push((RejectedAt { sigs: mid.sigs, course: x })));
        }
    }
}

/// Appending an accepted outcome appends its id; a rejection appends
/// nothing.
pub proof fn lemma_somes_snoc(outcomes: Seq<Option<u64>>, o: Option<u64>)
    ensures
        somes(outcomes.push(o)) == (match o {
            Some(id) => somes(outcomes).push(id),
            None => somes(outcomes),
        }),
    decreases outcomes.len(),
{
    if outcomes.len() == 0 {
        assert(outcomes.push(o)[0] == o);
        assert(outcomes.push(o).skip(1) =~= Seq::<Option<u64>>::empty());
        let rest = somes(outcomes.push(o).skip(1));
        assert(rest =~= Seq::<u64>::empty());
        match o {
            Some(id) => {
                assert(somes(outcomes.push(o)) == seq![id] + rest);
                assert(somes(outcomes.push(o)) =~= somes(outcomes).push(id));
            },
            None => {
                assert(somes(outcomes.push(o)) == Seq::<u64>::empty() + rest);
                assert(somes(outcomes.push(o)) =~= somes(outcomes));
            },
        }
    } else {
        assert(outcomes.push(o)[0] == outcomes[0]);
        assert(outcomes.push(o).skip(1) =~= outcomes.skip(1).push(o));
        lemma_somes_snoc(outcomes.skip(1), o);
        let head = (match outcomes[0] {
            Some(id) => seq![id],
            None => Seq::<u64>::empty(),
        });
        assert(somes(outcomes.push(o)) == head + somes(outcomes.skip(1).push(o)));
        assert(somes(outcomes) == head + somes(outcomes.skip(1)));
        match o {
            Some(id) => {
                assert(somes(outcomes.push(o)) =~= somes(outcomes).push(id));
            },
            None => {
                assert(somes(outcomes.push(o)) =~= somes(outcomes));
            },
        }
    }
}

/// The race between two concurrent near-duplicate uploads: the index lock
/// serializes their verify-then-insert spans into some order, and in every
/// order against an initially empty store the first upload is accepted and
/// the second one is rejected -- never both.
pub proof fn lemma_near_duplicates_one_acceptance(
    perms: Seq<(u64, u64)>,
    index: Seq<BandTable>,
    next_id: int,
    c1: NewCourse2,
    c2: NewCourse2,
)
    requires
        c1.thumb is Some,
        c2.thumb is Some,
        exceeds_threshold(sig_of(perms, c1.data@), sig_of(perms, c2.data@)),
    ensures
        batch_fold(Seq::empty(), index, next_id, perms, seq![c1, c2]).outcomes == seq![
            Some(next_id as u64),
            None::<u64>,
        ],
{
    let inputs = seq![c1, c2];
    let sig1 = sig_of(perms, c1.data@);
    let sig2 = sig_of(perms, c2.data@);
    assert(inputs[0] == c1);
    assert(!sig_conflict(Seq::empty(), sig1));
    let sigs1 = Seq::<StoredSig>::empty().push(
        StoredSig { id: next_id as u64, sig: sig1, title: c1.title@ },
    );
    let index1 = index_insert(index, sig1, next_id as u64);
    let tail = inputs.skip(1);
    assert(tail =~= seq![c2]);
    assert(tail[0] == c2);
    assert(sigs1[0].sig == sig1);
    assert(sig_conflict(sigs1, sig2));
    let tail2 = tail.skip(1);
    assert(tail2 =~= Seq::<NewCourse2>::empty());
    let rest2 = batch_fold(sigs1, index1, next_id + 1, perms, tail2);
    assert(rest2.outcomes =~= Seq::<Option<u64>>::empty());
    assert(sig_of(perms, tail[0].data@) == sig2);
    let st2 = batch_fold(sigs1, index1, next_id + 1, perms, tail);
    assert(st2.outcomes == seq![None::<u64>] + rest2.outcomes);
    assert(st2.outcomes =~= seq![None::<u64>]);
    let st = batch_fold(Seq::empty(), index, next_id, perms, inputs);
    assert(st.outcomes =~= seq![Some(next_id as u64), None::<u64>]);
}

/// Every course a well-formed pipeline has accepted is a candidate for its
/// own signature: identical vectors share every band, so a query with the
/// stored signature always surfaces the stored id.
pub proof fn lemma_stored_course_retrievable(d: &Data, k: int)
    requires
        d.wf(),
        0 <= k < d.courses@.len(),
    ensures
        query_matches(d.lsh_index@, d.courses@[k].hash@, d.courses@[k].id),
{
    assert(d.indexed(k));
    assert(d.course_ok(k));
    let sig = d.courses@[k].hash@;
    assert(sig.len() as int / d.lsh_index@.len() as int == d.rows());
    assert(bucket_has(d.lsh_index@[0], band_key(sig, 0, d.rows()), d.courses@[k].id));
}

/// No two courses a well-formed pipeline has accepted exceed the
/// similarity threshold relative to each other: ingestion preserves this,
/// so concurrent near-duplicates can never both end up stored.
pub proof fn lemma_stored_pairwise_dissimilar(d: &Data)
    requires
        d.wf(),
    ensures
        forall|k1: int, k2: int|
            0 <= k1 < d.courses@.len() && 0 <= k2 < d.courses@.len() && k1 != k2
                ==> !exceeds_threshold(
                #[trigger] d.courses@[k1].hash@,
                #[trigger] d.courses@[k2].hash@,
            ),
{
}

/// The application context of the ingestion pipeline: the process-wide
/// permutation family, the banded candidate index, and the course store.
pub struct Data {
    /// Permutation family every signature is computed under; generated once
    /// and never regenerated mid-process.
    pub perm_gen: PermGen,
    /// Banded candidate index over all stored courses.
    pub lsh_index: LshIndex,
    /// The stored course records.
    pub courses: Vec<Course2>,
    /// The vote rows cast on stored courses.
    pub votes: Vec<crate::vote::Vote>,
    /// Next id the store will assign.
    pub next_id: u64,
}

impl Data {
    /// Signature length, fixed by the permutation family.
    pub open spec fn n(&self) -> nat {
        self.perm_gen@.len()
    }

    /// Number of index bands.
    pub open spec fn bands(&self) -> int {
        self.lsh_index.spec_bands()
    }

    /// Rows per band.
    pub open spec fn rows(&self) -> int {
        self.n() as int / self.bands()
    }

    /// The stored course `k` has a signature of the right length and an id
    /// below the next fresh one.
    pub open spec fn course_ok(&self, k: int) -> bool {
        &&& self.courses@[k].hash@.len() == self.n()
        &&& self.courses@[k].id < self.next_id
    }

    /// Every band bucket of the stored course `k` holds its id.
    pub open spec fn indexed(&self, k: int) -> bool {
        forall|b: int|
            0 <= b < self.bands() ==> bucket_has(
                self.lsh_index@[b],
                band_key(self.courses@[k].hash@, b, self.rows()),
                self.courses@[k].id,
            )
    }

    /// Well-formedness of the whole pipeline state: the index is banded so
    /// that every above-threshold pair shares a band, every stored course is
    /// retrievable through the index, ids are unique, and no two stored
    /// courses exceed the similarity threshold relative to each other.
    pub open spec fn wf(&self) -> bool {
        &&& self.lsh_index.wf()
        &&& self.n() >= 1
        &&& self.n() as int % self.bands() == 0
        &&& self.n() <= THRESHOLD_DEN * self.bands()
        &&& forall|k: int| 0 <= k < self.courses@.len() ==> #[trigger] self.course_ok(k)
        &&& forall|k: int| 0 <= k < self.courses@.len() ==> #[trigger] self.indexed(k)
        &&& forall|k1: int, k2: int|
            0 <= k1 < k2 < self.courses@.len() ==> #[trigger] self.courses@[k1].id
                != #[trigger] self.courses@[k2].id
        &&& forall|k1: int, k2: int|
            0 <= k1 < self.courses@.len() && 0 <= k2 < self.courses@.len() && k1 != k2
                ==> !exceeds_threshold(
                #[trigger] self.courses@[k1].hash@,
                #[trigger] self.courses@[k2].hash@,
            )
    }

    /// A fresh, empty pipeline over a permutation family and a band count.
    /// The band width bound (`n <= THRESHOLD_DEN * bands`) is what makes
    /// candidate retrieval complete for above-threshold pairs.
    pub fn new(perm_gen: PermGen, bands: usize) -> (r: Data)
        requires
            bands >= 1,
            perm_gen@.len() >= 1,
            perm_gen@.len() as int % (bands as int) == 0,
            perm_gen@.len() <= THRESHOLD_DEN * bands,
        ensures
            r.wf(),
            r.courses@ == Seq::<Course2>::empty(),
            r.votes@ == Seq::<crate::vote::Vote>::empty(),
            crate::vote::votes_unique(r.votes@),
            r.next_id == 0,
            r.perm_gen == perm_gen,
            r.bands() == bands,
    {
        let lsh_index = LshIndex::new(bands);
        let r = Data { perm_gen, lsh_index, courses: Vec::new(), votes: Vec::new(), next_id: 0 };
        assert(r.courses@ =~= Seq::<Course2>::empty());
        assert(r.votes@ =~= Seq::<crate::vote::Vote>::empty());
        r
    }

    /// The stored course with id `id`, if any.
    fn find_course(&self, id: u64) -> (r: Option<&Course2>)
        ensures
            match r {
                Some(c) => exists|k: int|
                    0 <= k < self.courses@.len() && *c == #[trigger] self.courses@[k]
                        && self.courses@[k].id == id,
                None => forall|k: int|
                    0 <= k < self.courses@.len() ==> (#[trigger] self.courses@[k]).id != id,
            },
    {
        let mut k: usize = 0;
        while k < self.courses.len()
            invariant
                k <= self.courses@.len(),
                forall|j: int| 0 <= j < k ==> (#[trigger] self.courses@[j]).id != id,
            decreases self.courses@.len() - k,
        {
            if self.courses[k].get_id() == id {
                return Some(&self.courses[k]);
            }
            k = k + 1;
        }
        None
    }

    /// Ingests one decoded course: computes its signature, collects the
    /// index candidates, verifies each candidate exactly, and either
    /// persists-and-indexes the course under a fresh id or rejects it with
    /// a structured conflict, leaving the state untouched.
    ///
    /// The result is `Err(ThumbnailMissing)` exactly when the upload has no
    /// thumbnail; otherwise it is a similarity conflict naming a stored
    /// course above the threshold exactly when one exists, and acceptance
    /// under the next fresh id exactly otherwise.
    pub fn ingest_course(
        &mut self,
        course: NewCourse2,
        owner: u64,
        difficulty: Option<Difficulty>,
        uploaded: i64,
    ) -> (r: Result<u64, PutCourses2Error>)
        requires
            old(self).wf(),
            old(self).next_id < u64::MAX,
            old(self).courses@.len() < usize::MAX,
        ensures
            final(self).wf(),
            final(self).perm_gen == old(self).perm_gen,
            final(self).bands() == old(self).bands(),
            final(self).votes == old(self).votes,
            ({
                let sig = sig_of(old(self).perm_gen@, course.data@);
                let sigs = sigs_of(old(self).courses@);
                &&& (course.thumb is None ==> r == Err::<u64, PutCourses2Error>(
                    PutCourses2Error::ThumbnailMissing,
                ))
                &&& (course.thumb is Some ==> (r is Err <==> sig_conflict(sigs, sig)))
                &&& (match r {
                    Ok(id) => {
                        &&& course.thumb is Some
                        &&& !sig_conflict(sigs, sig)
                        &&& id == old(self).next_id
                        &&& final(self).next_id == old(self).next_id + 1
                        &&& final(self).courses@.len() == old(self).courses@.len() + 1
                        &&& final(self).courses@.take(old(self).courses@.len() as int) == old(
                            self,
                        ).courses@
                        &&& crate::course::accepted_record(
                            final(self).courses@.last(),
                            id,
                            owner,
                            course,
                            difficulty,
                            uploaded,
                            sig,
                        )
                        &&& final(self).lsh_index@ == index_insert(old(self).lsh_index@, sig, id)
                    },
                    Err(PutCourses2Error::Similarity(e)) => {
                        &&& exists|k: int|
                            0 <= k < old(self).courses@.len() && {
                                let c = #[trigger] old(self).courses@[k];
                                &&& c.id == e.similar_course_id
                                &&& c.title@ == e.title@
                                &&& e.matching == agree_count(c.hash@, sig)
                                &&& e.total == old(self).n()
                                &&& exceeds_threshold(c.hash@, sig)
                            }
                        &&& *final(self) == *old(self)
                    },
                    Err(PutCourses2Error::ThumbnailMissing) => {
                        &&& course.thumb is None
                        &&& *final(self) == *old(self)
                    },
                })
            }),
    {
        let ghost sig0 = sig_of(old(self).perm_gen@, course.data@);
        let ghost course_g = course;
        let NewCourse2 { data, thumb, title } = course;
        let thumb = match thumb {
            Some(t) => t,
            None => {
                return Err(PutCourses2Error::ThumbnailMissing);
            },
        };
        let course2 = Course2::insert(
            owner,
            title,
            data,
            thumb,
            difficulty,
            &self.perm_gen,
            uploaded,
        );
        proof {
            assert(course2.hash@ == sig0);
        }
        let n = self.perm_gen.len();
        let candidates = self.lsh_index.query(course2.get_hash());
        let mut conflict: Option<Course2SimilarityError> = None;
        let mut i: usize = 0;
        while i < candidates.len()
            invariant
                i <= candidates@.len(),
                *self == *old(self),
                self.wf(),
                n == self.n(),
                course2.hash@ == sig0,
                course2.hash@.len() == n,
                (match conflict {
                    Some(e) => {
                        &&& exists|k: int|
                            0 <= k < self.courses@.len() && {
                                let c = #[trigger] self.courses@[k];
                                &&& c.id == e.similar_course_id
                                &&& c.title@ == e.title@
                                &&& e.matching == agree_count(c.hash@, sig0)
                                &&& e.total == n
                                &&& exceeds_threshold(c.hash@, sig0)
                            }
                        &&& sig_conflict(sigs_of(self.courses@), sig0)
                    },
                    None => forall|k: int|
                        0 <= k < self.courses@.len() && candidates@.take(i as int).contains(
                            (#[trigger] self.courses@[k]).id,
                        ) ==> !exceeds_threshold(self.courses@[k].hash@, sig0),
                }),
            decreases candidates@.len() - i,
        {
            if conflict.is_none() {
                let cid = candidates[i];
                match self.find_course(cid) {
                    Some(c) => {
                        let ghost k0 = choose|k: int|
                            0 <= k < self.courses@.len() && *c == #[trigger] self.courses@[k]
                                && self.courses@[k].id == cid;
                        proof {
                            assert(self.course_ok(k0));
                        }
                        let matching = c.get_hash().equal_slots(course2.get_hash());
                        if threshold_exceeded(matching, n) {
                            let e = Course2SimilarityError::new(
                                c.get_id(),
                                clone_title(c),
                                matching,
                                n,
                            );
                            proof {
                                assert(exceeds_threshold(self.courses@[k0].hash@, sig0));
                                assert(sigs_of(self.courses@)[k0].sig == self.courses@[k0].hash@);
                                assert(sig_conflict(sigs_of(self.courses@), sig0));
                            }
                            conflict = Some(e);
                        } else {
                            proof {
                                assert(!exceeds_threshold(c.hash@, sig0));
                                assert forall|k: int|
                                    0 <= k < self.courses@.len() && candidates@.take(
                                        i + 1,
                                    ).contains((#[trigger] self.courses@[k]).id) implies !exceeds_threshold(
                                    self.courses@[k].hash@,
                                    sig0,
                                ) by {
                                    crate::lsh::lemma_take_one_more(
                                        candidates@,
                                        i as int,
                                        self.courses@[k].id,
                                    );
                                    if self.courses@[k].id == cid {
                                        if k != k0 {
                                            assert(self.courses@[k].id != self.courses@[k0].id);
                                        }
                                    }
                                }
                            }
                        }
                    },
                    None => {
                        proof {
                            assert forall|k: int|
                                0 <= k < self.courses@.len() && candidates@.take(i + 1).contains(
                                    (#[trigger] self.courses@[k]).id,
                                ) implies !exceeds_threshold(self.courses@[k].hash@, sig0) by {
                                crate::lsh::lemma_take_one_more(
                                    candidates@,
                                    i as int,
                                    self.courses@[k].id,
                                );
                                assert(self.courses@[k].id != cid);
                            }
                        }
                    },
                }
            }
            i = i + 1;
        }
        if let Some(e) = conflict {
            return Err(PutCourses2Error::Similarity(e));
        }
        proof {
            assert(candidates@.take(candidates@.len() as int) =~= candidates@);
            if sig_conflict(sigs_of(self.courses@), sig0) {
                let k = choose|k: int|
                    0 <= k < sigs_of(self.courses@).len() && exceeds_threshold(
                        (#[trigger] sigs_of(self.courses@)[k]).sig,
                        sig0,
                    );
                let a = self.courses@[k].hash@;
                assert(self.course_ok(k));
                assert(sig0.len() == n);
                assert(exceeds_threshold(a, sig0));
                lemma_similar_share_band(a, sig0, self.bands());
                let bd = choose|bd: int|
                    0 <= bd < self.bands() && #[trigger] band_slice(
                        a,
                        bd,
                        a.len() as int / self.bands(),
                    ) == band_slice(sig0, bd, a.len() as int / self.bands());
                assert(a.len() as int / self.bands() == self.rows());
                assert(self.indexed(k));
                assert(bucket_has(
                    self.lsh_index@[bd],
                    band_key(a, bd, self.rows()),
                    self.courses@[k].id,
                ));
                assert(a.subrange(bd * self.rows(), bd * self.rows() + self.rows())
                    == sig0.subrange(bd * self.rows(), bd * self.rows() + self.rows()));
                assert(band_key(a, bd, self.rows()) == band_key(sig0, bd, self.rows()));
                assert(sig0.len() as int / self.lsh_index@.len() as int == self.rows());
                assert(query_matches(self.lsh_index@, sig0, self.courses@[k].id));
                assert(candidates@.contains(self.courses@[k].id));
                assert(false);
            }
        }
        let id = self.next_id;
        let mut course2 = course2;
        course2.set_id(id);
        self.lsh_index.insert(id, course2.get_hash());
        let ghost mid_courses = self.courses@;
        self.courses.push(course2);
        self.next_id = id + 1;
        proof {
            let ghost oldlen = old(self).courses@.len() as int;
            assert(self.courses@ == mid_courses.push(course2));
            assert(self.courses@.take(oldlen) =~= old(self).courses@);
            assert(crate::course::accepted_record(
                self.courses@.last(),
                id,
                owner,
                course_g,
                difficulty,
                uploaded,
                sig0,
            ));
            assert(self.n() == old(self).n());
            assert(self.bands() == old(self).bands());
            assert(self.rows() == old(self).rows());
            assert forall|k: int| 0 <= k < self.courses@.len() implies #[trigger] self.course_ok(
                k,
            ) by {
                if k < oldlen {
                    assert(old(self).course_ok(k));
                    assert(self.courses@[k] == old(self).courses@[k]);
                }
            }
            assert forall|k: int| 0 <= k < self.courses@.len() implies #[trigger] self.indexed(
                k,
            ) by {
                if k < oldlen {
                    assert(old(self).indexed(k));
                    assert(self.courses@[k] == old(self).courses@[k]);
                    assert forall|b: int|
                        0 <= b < self.bands() implies bucket_has(
                            self.lsh_index@[b],
                            band_key(self.courses@[k].hash@, b, self.rows()),
                            self.courses@[k].id,
                        ) by {
                        assert(bucket_has(
                            old(self).lsh_index@[b],
                            band_key(old(self).courses@[k].hash@, b, old(self).rows()),
                            old(self).courses@[k].id,
                        ));
                        crate::lsh::lemma_index_insert_preserves(
                            old(self).lsh_index@,
                            sig0,
                            id,
                            b,
                            band_key(self.courses@[k].hash@, b, self.rows()),
                            self.courses@[k].id,
                        );
                    }
                } else {
                    assert(self.courses@[k] == self.courses@.last());
                    assert forall|b: int|
                        0 <= b < self.bands() implies bucket_has(
                            self.lsh_index@[b],
                            band_key(self.courses@[k].hash@, b, self.rows()),
                            self.courses@[k].id,
                        ) by {
                        crate::lsh::lemma_index_insert_new_id(old(self).lsh_index@, sig0, id, b);
                        assert(sig0.len() as int / old(self).lsh_index@.len() as int
                            == self.rows());
                    }
                }
            }
            assert forall|k1: int, k2: int|
                0 <= k1 < k2 < self.courses@.len() implies #[trigger] self.courses@[k1].id
                    != #[trigger] self.courses@[k2].id by {
                if k2 < oldlen {
                    assert(old(self).courses@[k1].id != old(self).courses@[k2].id);
                } else {
                    assert(old(self).course_ok(k1));
                }
            }
            assert forall|k1: int, k2: int|
                0 <= k1 < self.courses@.len() && 0 <= k2 < self.courses@.len() && k1 != k2
                    implies !exceeds_threshold(
                    #[trigger] self.courses@[k1].hash@,
                    #[trigger] self.courses@[k2].hash@,
                ) by {
                if k1 < oldlen && k2 < oldlen {
                    assert(old(self).courses@[k1].hash@ == self.courses@[k1].hash@);
                    assert(old(self).courses@[k2].hash@ == self.courses@[k2].hash@);
                } else if k1 < oldlen {
                    assert(self.courses@[k2].hash@ == sig0);
                    assert(sigs_of(old(self).courses@)[k1].sig == old(self).courses@[k1].hash@);
                    assert(!exceeds_threshold(old(self).courses@[k1].hash@, sig0));
                } else {
                    assert(self.courses@[k1].hash@ == sig0);
                    assert(sigs_of(old(self).courses@)[k2].sig == old(self).courses@[k2].hash@);
                    assert(!exceeds_threshold(old(self).courses@[k2].hash@, sig0));
                    assert(old(self).course_ok(k2));
                    crate::sim::lemma_agree_count_sym(sig0, old(self).courses@[k2].hash@);
                }
            }
        }
        Ok(id)
    }
}

impl Data {
    /// Ingests a whole batch of decoded courses under one owner.  Every
    /// course is either persisted-and-indexed under a fresh id or rejected
    /// with a structured failure; a failure never aborts or rolls back
    /// sibling courses, and the response carries all successes and all
    /// failures, each in input order.
    pub fn put_courses2(
        &mut self,
        courses: Vec<NewCourse2>,
        owner: u64,
        difficulty: Option<Difficulty>,
        uploaded: i64,
    ) -> (r: PutCourses2Response)
        requires
            old(self).wf(),
            old(self).next_id + courses@.len() <= u64::MAX,
            old(self).courses@.len() + courses@.len() <= usize::MAX,
        ensures
            final(self).wf(),
            final(self).perm_gen == old(self).perm_gen,
            final(self).bands() == old(self).bands(),
            final(self).votes == old(self).votes,
            ({
                let st = batch_fold(
                    sigs_of(old(self).courses@),
                    old(self).lsh_index@,
                    old(self).next_id as int,
                    old(self).perm_gen@,
                    courses@,
                );
                &&& sigs_of(final(self).courses@) == st.sigs
                &&& final(self).lsh_index@ == st.index
                &&& final(self).next_id == st.next_id
                &&& r.succeeded@ == somes(st.outcomes)
                &&& st.outcomes.len() == courses@.len()
                &&& r.succeeded@.len() + r.failed@.len() == courses@.len()
                &&& r.failed@.len() == st.rejected.len()
                &&& forall|j: int|
                    0 <= j < r.failed@.len() ==> failure_matches(
                        #[trigger] r.failed@[j],
                        st.rejected[j].sigs,
                        st.rejected[j].course,
                        old(self).perm_gen@,
                    )
                &&& final(self).courses@.take(old(self).courses@.len() as int) == old(
                    self,
                ).courses@
            }),
    {
        let ghost inputs = courses@;
        let ghost sigs0 = sigs_of(old(self).courses@);
        let ghost index0 = old(self).lsh_index@;
        let ghost next0 = old(self).next_id as int;
        let ghost perms = old(self).perm_gen@;
        let ghost oldlen = old(self).courses@.len() as int;
        let mut response = PutCourses2Response::new();
        let total = courses.len();
        let mut remaining = courses;
        let mut i: usize = 0;
        while i < total
            invariant
                i <= total,
                total == inputs.len(),
                remaining@ == inputs.skip(i as int),
                self.wf(),
                self.perm_gen == old(self).perm_gen,
                self.perm_gen@ == perms,
                self.bands() == old(self).bands(),
                self.votes == old(self).votes,
                oldlen == old(self).courses@.len() as int,
                sigs0 == sigs_of(old(self).courses@),
                index0 == old(self).lsh_index@,
                next0 == old(self).next_id as int,
                self.courses@.len() + remaining@.len() <= usize::MAX,
                self.next_id + remaining@.len() <= u64::MAX,
                oldlen <= self.courses@.len(),
                ({
                    let st = batch_fold(sigs0, index0, next0, perms, inputs.take(i as int));
                    &&& sigs_of(self.courses@) == st.sigs
                    &&& self.lsh_index@ == st.index
                    &&& self.next_id == st.next_id
                    &&& response.succeeded@ == somes(st.outcomes)
                    &&& st.outcomes.len() == i
                    &&& response.succeeded@.len() + response.failed@.len() == i
                    &&& response.failed@.len() == st.rejected.len()
                    &&& forall|j: int|
                        0 <= j < response.failed@.len() ==> failure_matches(
                            #[trigger] response.failed@[j],
                            st.rejected[j].sigs,
                            st.rejected[j].course,
                            perms,
                        )
                    &&& self.courses@.take(oldlen) == old(self).courses@
                }),
            decreases total - i,
        {
            let ghost st_pre = batch_fold(sigs0, index0, next0, perms, inputs.take(i as int));
            let c = remaining.remove(0);
            proof {
                assert(c == inputs[i as int]);
                assert(remaining@ =~= inputs.skip(i + 1));
                assert(inputs.take(i + 1) =~= inputs.take(i as int).push(c));
                lemma_batch_fold_snoc(sigs0, index0, next0, perms, inputs.take(i as int), c);
            }
            let ghost mid_courses = self.courses@;
            let ghost failed_pre = response.failed@;
            let ghost sig = sig_of(perms, c.data@);
            let res = self.ingest_course(c, owner, difficulty, uploaded);
            let ghost st_post = batch_fold(sigs0, index0, next0, perms, inputs.take(i + 1));
            match res {
                Ok(id) => {
                    response.succeeded.push(id);
                    proof {
                        lemma_somes_snoc(st_pre.outcomes, Some(id));
                        assert(self.courses@.last().hash@ == sig);
                        assert(self.courses@.last().id == id);
                        assert(self.courses@.last().title@ == c.title@);
                        assert(st_pre.next_id as u64 == id);
                        assert(sigs_of(self.courses@) =~= sigs_of(mid_courses).push(
                            StoredSig { id, sig, title: c.title@ },
                        ));
                        assert(self.lsh_index@ == index_insert(st_pre.index, sig, id));
                        assert(mid_courses.take(oldlen) == old(self).courses@);
                        assert(self.courses@.take(mid_courses.len() as int) == mid_courses);
                        assert(oldlen <= mid_courses.len());
                        assert forall|j: int| 0 <= j < oldlen implies self.courses@.take(oldlen)[j]
                            == old(self).courses@[j] by {
                            assert(self.courses@.take(mid_courses.len() as int)[j]
                                == mid_courses[j]);
                            assert(mid_courses.take(oldlen)[j] == old(self).courses@[j]);
                        }
                        assert(self.courses@.take(oldlen) =~= old(self).courses@);
                    }
                },
                Err(e) => {
                    proof {
                        lemma_somes_snoc(st_pre.outcomes, None);
                        assert(self.courses@ == mid_courses);
                        assert(sigs_of(self.courses@) == st_pre.sigs);
                        match &e {
                            PutCourses2Error::ThumbnailMissing => {
                                assert(c.thumb is None);
                            },
                            PutCourses2Error::Similarity(err) => {
                                let kk = choose|k: int|
                                    0 <= k < mid_courses.len() && {
                                        let cc = #[trigger] mid_courses[k];
                                        &&& cc.id == err.similar_course_id
                                        &&& cc.title@ == err.title@
                                        &&& err.matching == agree_count(cc.hash@, sig)
                                        &&& err.total == perms.len()
                                        &&& exceeds_threshold(cc.hash@, sig)
                                    };
                                assert(st_pre.sigs[kk].id == err.similar_course_id);
                                assert(st_pre.sigs[kk].title == err.title@);
                                assert(st_pre.sigs[kk].sig == mid_courses[kk].hash@);
                                assert(failure_matches(e, st_pre.sigs, c, perms));
                            },
                        }
                        assert(failure_matches(e, st_pre.sigs, c, perms));
                        assert(st_post.rejected == st_pre.rejected.push(
                            (RejectedAt { sigs: st_pre.sigs, course: c }),
                        ));
                    }
                    response.add_failed(e);
                    proof {
                        assert(response.failed@ == failed_pre.push(response.failed@.last()));
                        assert forall|j: int|
                            0 <= j < response.failed@.len() implies failure_matches(
                                #[trigger] response.failed@[j],
                                st_post.rejected[j].sigs,
                                st_post.rejected[j].course,
                                perms,
                            ) by {
                            if j < failed_pre.len() {
                                assert(response.failed@[j] == failed_pre[j]);
                                assert(st_post.rejected[j] == st_pre.rejected[j]);
                                assert(failure_matches(
                                    failed_pre[j],
                                    st_pre.rejected[j].sigs,
                                    st_pre.rejected[j].course,
                                    perms,
                                ));
                            } else {
                                assert(st_post.rejected[j] == (RejectedAt {
                                    sigs: st_pre.sigs,
                                    course: c,
                                }));
                            }
                        }
                    }
                },
            }
            i = i + 1;
        }
        proof {
            assert(inputs.take(total as int) =~= inputs);
        }
        response
    }
}

/// Updating one stored record without touching its id or its signature
/// preserves well-formedness: the index, the ids and the pairwise
/// similarity bounds all depend only on what stayed the same.
pub proof fn lemma_wf_record_update(pre: &Data, post: &Data, k: int)
    requires
        pre.wf(),
        0 <= k < pre.courses@.len(),
        post.courses@ == pre.courses@.update(k, post.courses@[k]),
        post.courses@[k].hash == pre.courses@[k].hash,
        post.courses@[k].id == pre.courses@[k].id,
        post.lsh_index == pre.lsh_index,
        post.perm_gen == pre.perm_gen,
        post.next_id == pre.next_id,
    ensures
        post.wf(),
{
    assert(post.courses@.len() == pre.courses@.len());
    assert forall|j: int| 0 <= j < post.courses@.len() implies #[trigger] post.course_ok(j) by {
        assert(pre.course_ok(j));
        if j != k {
            assert(post.courses@[j] == pre.courses@[j]);
        }
    }
    assert forall|j: int| 0 <= j < post.courses@.len() implies #[trigger] post.indexed(j) by {
        assert(pre.indexed(j));
        if j != k {
            assert(post.courses@[j] == pre.courses@[j]);
        }
        assert forall|b: int|
            0 <= b < post.bands() implies bucket_has(
                post.lsh_index@[b],
                band_key(post.courses@[j].hash@, b, post.rows()),
                post.courses@[j].id,
            ) by {
            assert(bucket_has(
                pre.lsh_index@[b],
                band_key(pre.courses@[j].hash@, b, pre.rows()),
                pre.courses@[j].id,
            ));
            assert(post.courses@[j].hash@ == pre.courses@[j].hash@);
            assert(post.courses@[j].id == pre.courses@[j].id);
        }
    }
    assert forall|k1: int, k2: int|
        0 <= k1 < k2 < post.courses@.len() implies #[trigger] post.courses@[k1].id
            != #[trigger] post.courses@[k2].id by {
        assert(pre.courses@[k1].id != pre.courses@[k2].id);
        if k1 != k {
            assert(post.courses@[k1] == pre.courses@[k1]);
        }
        if k2 != k {
            assert(post.courses@[k2] == pre.courses@[k2]);
        }
    }
    assert forall|k1: int, k2: int|
        0 <= k1 < post.courses@.len() && 0 <= k2 < post.courses@.len() && k1 != k2
            implies !exceeds_threshold(
            #[trigger] post.courses@[k1].hash@,
            #[trigger] post.courses@[k2].hash@,
        ) by {
        assert(!exceeds_threshold(pre.courses@[k1].hash@, pre.courses@[k2].hash@));
        if k1 != k {
            assert(post.courses@[k1] == pre.courses@[k1]);
        }
        if k2 != k {
            assert(post.courses@[k2] == pre.courses@[k2]);
        }
        assert(post.courses@[k1].hash@ == pre.courses@[k1].hash@);
        assert(post.courses@[k2].hash@ == pre.courses@[k2].hash@);
    }
}

/// Clones a stored course's title.
fn clone_title(c: &Course2) -> (r: String)
    ensures
        r@ == c.title@,
{
    c.title.clone()
}

/// A change that leaves the course store, the index, the permutation
/// family and the id counter alone preserves well-formedness.
pub proof fn lemma_wf_same_store(pre: &Data, post: &Data)
    requires
        pre.wf(),
        post.courses == pre.courses,
        post.lsh_index == pre.lsh_index,
        post.perm_gen == pre.perm_gen,
        post.next_id == pre.next_id,
    ensures
        post.wf(),
{
    assert forall|j: int| 0 <= j < post.courses@.len() implies #[trigger] post.course_ok(j) by {
        assert(pre.course_ok(j));
    }
    assert forall|j: int| 0 <= j < post.courses@.len() implies #[trigger] post.indexed(j) by {
        assert(pre.indexed(j));
        assert forall|b: int|
            0 <= b < post.bands() implies bucket_has(
                post.lsh_index@[b],
                band_key(post.courses@[j].hash@, b, post.rows()),
                post.courses@[j].id,
            ) by {
            assert(bucket_has(
                pre.lsh_index@[b],
                band_key(pre.courses@[j].hash@, b, pre.rows()),
                pre.courses@[j].id,
            ));
        }
    }
}

/// Removing one stored record preserves well-formedness: the remaining
/// records keep their ids, signatures and index entries, and the removed
/// course's index entries stay behind as ghost candidates, which nothing
/// forbids.
pub proof fn lemma_wf_record_remove(pre: &Data, post: &Data, k: int)
    requires
        pre.wf(),
        0 <= k < pre.courses@.len(),
        post.courses@ == pre.courses@.remove(k),
        post.lsh_index == pre.lsh_index,
        post.perm_gen == pre.perm_gen,
        post.next_id == pre.next_id,
    ensures
        post.wf(),
{
    let n = pre.courses@.len() as int;
    assert(post.courses@.len() == n - 1);
    assert forall|j: int|
        0 <= j < n - 1 implies post.courses@[j] == (if j < k {
            pre.courses@[j]
        } else {
            pre.courses@[j + 1]
        }) by {}
    assert forall|j: int| 0 <= j < post.courses@.len() implies #[trigger] post.course_ok(j) by {
        if j < k {
            assert(pre.course_ok(j));
        } else {
            assert(pre.course_ok(j + 1));
        }
    }
    assert forall|j: int| 0 <= j < post.courses@.len() implies #[trigger] post.indexed(j) by {
        let jj = if j < k {
            j
        } else {
            j + 1
        };
        assert(pre.indexed(jj));
        assert(post.courses@[j] == pre.courses@[jj]);
        assert forall|b: int|
            0 <= b < post.bands() implies bucket_has(
                post.lsh_index@[b],
                band_key(post.courses@[j].hash@, b, post.rows()),
                post.courses@[j].id,
            ) by {
            assert(bucket_has(
                pre.lsh_index@[b],
                band_key(pre.courses@[jj].hash@, b, pre.rows()),
                pre.courses@[jj].id,
            ));
        }
    }
    assert forall|k1: int, k2: int|
        0 <= k1 < k2 < post.courses@.len() implies #[trigger] post.courses@[k1].id
            != #[trigger] post.courses@[k2].id by {
        let j1 = if k1 < k {
            k1
        } else {
            k1 + 1
        };
        let j2 = if k2 < k {
            k2
        } else {
            k2 + 1
        };
        assert(pre.courses@[j1].id != pre.courses@[j2].id);
    }
    assert forall|k1: int, k2: int|
        0 <= k1 < post.courses@.len() && 0 <= k2 < post.courses@.len() && k1 != k2
            implies !exceeds_threshold(
            #[trigger] post.courses@[k1].hash@,
            #[trigger] post.courses@[k2].hash@,
        ) by {
        let j1 = if k1 < k {
            k1
        } else {
            k1 + 1
        };
        let j2 = if k2 < k {
            k2
        } else {
            k2 + 1
        };
        assert(!exceeds_threshold(pre.courses@[j1].hash@, pre.courses@[j2].hash@));
    }
}

impl Data {
    /// Whether the account owns the course with that id.
    pub fn does_account_own_course(&self, account_id: u64, course_oid: u64) -> (r: bool)
        requires
            self.wf(),
        ensures
            r <==> exists|k: int|
                0 <= k < self.courses@.len() && (#[trigger] self.courses@[k]).id == course_oid
                    && self.courses@[k].owner == account_id,
    {
        match self.find_course_idx(course_oid) {
            Some(k) => {
                let owned = self.courses[k].get_owner() == account_id;
                proof {
                    if !owned {
                        assert forall|j: int|
                            0 <= j < self.courses@.len() && (#[trigger] self.courses@[j]).id
                                == course_oid implies self.courses@[j].owner != account_id by {
                            if j != k as int {
                                assert(self.courses@[j].id != self.courses@[k as int].id);
                            }
                        }
                    }
                }
                owned
            },
            None => false,
        }
    }

    /// Sets or clears the difficulty tag of one stored course; fails
    /// exactly when no course has the requested id.  Ownership is checked
    /// by the caller at the boundary.
    pub fn post_course2_meta(&mut self, course_id: u64, difficulty: Option<Difficulty>) -> (r:
        Result<(), crate::routes::PostCourse2MetaError>)
        requires
            old(self).wf(),
        ensures
            final(self).wf(),
            final(self).perm_gen == old(self).perm_gen,
            final(self).bands() == old(self).bands(),
            final(self).next_id == old(self).next_id,
            final(self).votes == old(self).votes,
            match r {
                Ok(()) => exists|k: int|
                    0 <= k < old(self).courses@.len() && (#[trigger] old(self).courses@[k]).id
                        == course_id && ({
                        let c = old(self).courses@[k];
                        let c2 = final(self).courses@[k];
                        &&& c2 == (Course2 { difficulty, ..c })
                        &&& final(self).courses@ == old(self).courses@.update(k, c2)
                    }),
                Err(crate::routes::PostCourse2MetaError::CourseNotFound(id)) => {
                    &&& id == course_id
                    &&& *final(self) == *old(self)
                    &&& forall|k: int|
                        0 <= k < old(self).courses@.len() ==> (#[trigger] old(
                            self,
                        ).courses@[k]).id != course_id
                },
                Err(crate::routes::PostCourse2MetaError::Unauthorized) => false,
            },
    {
        match self.find_course_idx(course_id) {
            Some(k) => {
                let ghost pre = self.courses@;
                let mut rec = self.courses.remove(k);
                rec.difficulty = difficulty;
                self.courses.insert(k, rec);
                proof {
                    assert(self.courses@ =~= pre.update(k as int, self.courses@[k as int]));
                    lemma_wf_record_update(old(self), self, k as int);
                }
                Ok(())
            },
            None => Err(crate::routes::PostCourse2MetaError::CourseNotFound(course_id)),
        }
    }

    /// Deletes one stored course; fails exactly when no course has the
    /// requested id.  The course's index entries are deliberately left
    /// behind: deleted ids stay retrievable as ghost candidates, and the
    /// ingestion loop filters them against current storage.
    pub fn delete_course2(&mut self, course_id: u64) -> (r: Result<(), DownloadCourse2Error>)
        requires
            old(self).wf(),
        ensures
            final(self).wf(),
            final(self).perm_gen == old(self).perm_gen,
            final(self).bands() == old(self).bands(),
            final(self).next_id == old(self).next_id,
            final(self).lsh_index == old(self).lsh_index,
            final(self).votes == old(self).votes,
            match r {
                Ok(()) => exists|k: int|
                    0 <= k < old(self).courses@.len() && (#[trigger] old(self).courses@[k]).id
                        == course_id && final(self).courses@ == old(self).courses@.remove(k),
                Err(e) => {
                    &&& e == DownloadCourse2Error::CourseNotFound(course_id)
                    &&& *final(self) == *old(self)
                    &&& forall|k: int|
                        0 <= k < old(self).courses@.len() ==> (#[trigger] old(
                            self,
                        ).courses@[k]).id != course_id
                },
            },
    {
        match self.find_course_idx(course_id) {
            Some(k) => {
                let ghost pre = self.courses@;
                let _ = self.courses.remove(k);
                proof {
                    assert(self.courses@ =~= pre.remove(k as int));
                    lemma_wf_record_remove(old(self), self, k as int);
                }
                Ok(())
            },
            None => Err(DownloadCourse2Error::CourseNotFound(course_id)),
        }
    }
}

/// Exact threshold comparison on the matching-slot count.
fn threshold_exceeded(matching: usize, total: usize) -> (r: bool)
    ensures
        r <==> THRESHOLD_DEN * matching > THRESHOLD_NUM * total,
{
    proof {
        assert((THRESHOLD_DEN as int) * (matching as int) <= 0xFFFF_FFFF_FFFF_FFFFint
            * 0xFFFF_FFFF_FFFF_FFFFint) by (nonlinear_arith)
            requires
                0 <= matching as int <= 0xFFFF_FFFF_FFFF_FFFFint,
        ;
        assert((THRESHOLD_NUM as int) * (total as int) <= 0xFFFF_FFFF_FFFF_FFFFint
            * 0xFFFF_FFFF_FFFF_FFFFint) by (nonlinear_arith)
            requires
                0 <= total as int <= 0xFFFF_FFFF_FFFF_FFFFint,
        ;
    }
    (THRESHOLD_DEN as u128) * (matching as u128) > (THRESHOLD_NUM as u128) * (total as u128)
}

} // verus!
