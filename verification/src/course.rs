//! Course records, their metadata, and the structured errors the ingestion
//! pipeline and artifact cache report.

use crate::minhash::MinHash;
use crate::minhash::PermGen;
use crate::minhash::sig_of;
use crate::minhash::updated_sig;
use vstd::prelude::*;

verus! {

/// Difficulty a course can be tagged with.
#[derive(Clone, Copy, Debug, PartialEq, Eq, Structural)]
pub enum Difficulty {
    Easy,
    Normal,
    Expert,
    SuperExpert,
}

/// A decoded upload handed to the ingestion pipeline: the raw course payload
/// plus its thumbnail, already parsed out of the wire format by the upload
/// codec, which is a collaborator outside this crate.
pub struct NewCourse2 {
    /// Raw course payload; the signature is computed over these bytes.
    pub data: Vec<u8>,
    /// Thumbnail image bytes; a course without one is rejected.
    pub thumb: Option<Vec<u8>>,
    /// Course title, carried into the record and into conflict reports.
    pub title: String,
}

/// A stored course: metadata, signature, the canonical payload in its
/// at-rest form, and the lazily cached derived representations.
pub struct Course2 {
    /// Identifier assigned by the store on acceptance.
    pub id: u64,
    /// Owner account id.
    pub owner: u64,
    /// Course title.
    pub title: String,
    /// MinHash signature of `data`, fixed at ingestion.
    pub hash: MinHash,
    /// Difficulty tag, if any.
    pub difficulty: Option<Difficulty>,
    /// Net vote count.
    pub votes: i64,
    /// Upload timestamp, supplied by the caller's clock.
    pub uploaded: i64,
    /// Last-modified timestamp.
    pub last_modified: i64,
    /// Canonical payload, stored once in its at-rest form.
    pub data_encrypted: Vec<u8>,
    /// Canonical thumbnail bytes.
    pub thumb: Vec<u8>,
    /// Cached generic-compressed payload, derived on first request.
    pub data_br: Option<Vec<u8>>,
    /// Cached transcoded-plus-compressed payload, filled by an outside
    /// transcoder; this crate only serves it back.
    pub data_protobuf_br: Option<Vec<u8>>,
    /// Cached small thumbnail.
    pub thumb_s: Option<Vec<u8>>,
    /// Cached medium thumbnail.
    pub thumb_m: Option<Vec<u8>>,
    /// Cached large thumbnail.
    pub thumb_l: Option<Vec<u8>>,
}

impl Course2 {
    /// Builds the record for a freshly decoded course: computes its MinHash
    /// signature over the raw payload under the shared permutation family
    /// and leaves every derived representation empty.  The id is assigned by
    /// the store, and `uploaded` comes from the caller's clock.
    pub fn insert(
        owner: u64,
        title: String,
        data: Vec<u8>,
        thumb: Vec<u8>,
        difficulty: Option<Difficulty>,
        perm_gen: &PermGen,
        uploaded: i64,
    ) -> (r: Course2)
        ensures
            r.hash@ == sig_of(perm_gen@, data@),
            r.hash@.len() == perm_gen@.len(),
            r.owner == owner,
            r.title@ == title@,
            r.difficulty == difficulty,
            r.votes == 0,
            r.uploaded == uploaded,
            r.last_modified == uploaded,
            r.data_encrypted@ == data@,
            r.thumb@ == thumb@,
            r.data_br is None,
            r.data_protobuf_br is None,
            r.thumb_s is None,
            r.thumb_m is None,
            r.thumb_l is None,
            r.id == 0,
    {
        let mut hash = MinHash::new(perm_gen);
        hash.update(perm_gen, &data);
        proof {
            assert(hash@ == updated_sig(perm_gen@, crate::minhash::fresh_sig(perm_gen@.len()), data@));
        }
        Course2 {
            id: 0,
            owner,
            title,
            hash,
            difficulty,
            votes: 0,
            uploaded,
            last_modified: uploaded,
            data_encrypted: data,
            thumb,
            data_br: None,
            data_protobuf_br: None,
            thumb_s: None,
            thumb_m: None,
            thumb_l: None,
        }
    }

    /// Assigns the store-issued id.
    pub fn set_id(&mut self, id: u64)
        ensures
            *final(self) == (Course2 { id, ..*old(self) }),
    {
        self.id = id;
    }

    pub fn get_id(&self) -> (r: u64)
        ensures
            r == self.id,
    {
        self.id
    }

    pub fn get_owner(&self) -> (r: u64)
        ensures
            r == self.owner,
    {
        self.owner
    }

    pub fn get_difficulty(&self) -> (r: &Option<Difficulty>)
        ensures
            r == &self.difficulty,
    {
        &self.difficulty
    }

    pub fn get_last_modified(&self) -> (r: i64)
        ensures
            r == self.last_modified,
    {
        self.last_modified
    }

    pub fn get_uploaded(&self) -> (r: i64)
        ensures
            r == self.uploaded,
    {
        self.uploaded
    }

    pub fn get_votes(&self) -> (r: i64)
        ensures
            r == self.votes,
    {
        self.votes
    }

    pub fn get_hash(&self) -> (r: &MinHash)
        ensures
            r == &self.hash,
    {
        &self.hash
    }
}

/// What the record of an accepted upload holds: the fresh id, the caller's
/// owner and difficulty, the upload's title, payload and thumbnail, its
/// signature, zero votes, and no derived representation yet.
pub open spec fn accepted_record(
    c: Course2,
    id: u64,
    owner: u64,
    nc: NewCourse2,
    difficulty: Option<Difficulty>,
    uploaded: i64,
    sig: Seq<u64>,
) -> bool {
    &&& c.id == id
    &&& c.owner == owner
    &&& c.title@ == nc.title@
    &&& c.hash@ == sig
    &&& c.difficulty == difficulty
    &&& c.votes == 0
    &&& c.uploaded == uploaded
    &&& c.last_modified == uploaded
    &&& c.data_encrypted@ == nc.data@
    &&& nc.thumb is Some
    &&& c.thumb@ == nc.thumb.unwrap()@
    &&& c.data_br is None
    &&& c.data_protobuf_br is None
    &&& c.thumb_s is None
    &&& c.thumb_m is None
    &&& c.thumb_l is None
}

/// A near-duplicate conflict: which stored course the upload collided with,
/// and the exact similarity as the rational `matching / total`.
#[derive(Debug)]
pub struct Course2SimilarityError {
    /// Id of the already stored similar course.
    pub similar_course_id: u64,
    /// Title of that course.
    pub title: String,
    /// Number of signature slots on which the two courses agree.
    pub matching: usize,
    /// Signature length; `matching / total` is the estimated Jaccard value.
    pub total: usize,
}

impl Course2SimilarityError {
    pub fn new(similar_course_id: u64, title: String, matching: usize, total: usize) -> (r:
        Course2SimilarityError)
        ensures
            r.similar_course_id == similar_course_id,
            r.title@ == title@,
            r.matching == matching,
            r.total == total,
    {
        Course2SimilarityError { similar_course_id, title, matching, total }
    }
}

/// Why one course of a batch was not ingested.  Sibling courses of the batch
/// are unaffected.
#[derive(Debug)]
pub enum PutCourses2Error {
    /// The course is a near-duplicate of a stored course.
    Similarity(Course2SimilarityError),
    /// The decoded course carried no thumbnail.
    ThumbnailMissing,
}

/// Outcome of a batch upload: all successes and all structured failures;
/// one course's failure never aborts its siblings.
pub struct PutCourses2Response {
    /// Ids of the accepted courses, in input order.
    pub succeeded: Vec<u64>,
    /// Failures of the rejected courses, in input order.
    pub failed: Vec<PutCourses2Error>,
}

impl PutCourses2Response {
    pub fn new() -> (r: PutCourses2Response)
        ensures
            r.succeeded@ =~= Seq::<u64>::empty(),
            r.failed@ =~= Seq::<PutCourses2Error>::empty(),
    {
        PutCourses2Response { succeeded: Vec::new(), failed: Vec::new() }
    }

    pub fn set_succeeded(&mut self, succeeded: Vec<u64>)
        ensures
            final(self).succeeded == succeeded,
            final(self).failed == old(self).failed,
    {
        self.succeeded = succeeded;
    }

    pub fn add_failed(&mut self, failed: PutCourses2Error)
        ensures
            final(self).succeeded == old(self).succeeded,
            final(self).failed@ == old(self).failed@.push(failed),
    {
        self.failed.push(failed);
    }
}

/// Why a download request could not be served.
#[derive(Debug)]
pub enum DownloadCourse2Error {
    /// No stored course has the requested id.
    CourseNotFound(u64),
    /// The requested representation needs an outside transform that this
    /// store has not been given for the course.  Beyond that, an absent
    /// payload or thumbnail behind an existing record would be storage
    /// corruption, fatal for the one request and for nothing else.
    MissingArtifact(u64),
}

/// Why a thumbnail request could not be served.
#[derive(Debug)]
pub enum GetCourse2ThumbnailError {
    /// No stored course has the requested id.
    CourseNotFound(u64),
    /// The image decoder or encoder rejected the stored thumbnail.
    Image,
}

} // verus!
