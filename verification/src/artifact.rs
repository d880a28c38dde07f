//! The lazy multi-representation artifact cache.
//!
//! A course's canonical payload is stored once; the alternate binary
//! representations -- a generic-compressed form, a transcoded-plus-
//! compressed form, and several thumbnail resolutions -- are derived on
//! first request and written back onto the record for reuse.  Every
//! transform is handed exactly the stored bytes, so serving a cached field
//! and re-deriving it cannot disagree for the compressed form, whose
//! transform is a pure function of the payload.

use crate::course::Course2;
use crate::course::DownloadCourse2Error;
use crate::course::GetCourse2ThumbnailError;
use crate::data::Data;
use vstd::prelude::*;

verus! {

/// The thumbnail size a client can request.
#[derive(Clone, Copy, Debug, PartialEq, Eq, Structural)]
pub enum Size2 {
    S,
    M,
    L,
    Original,
    Encrypted,
}

/// Pixel dimensions of each served size.
pub open spec fn spec_dimensions(size: Size2) -> (u32, u32) {
    match size {
        Size2::S => (160u32, 90u32),
        Size2::M => (320u32, 180u32),
        Size2::L => (480u32, 270u32),
        Size2::Original => (640u32, 360u32),
        Size2::Encrypted => (640u32, 360u32),
    }
}

impl Size2 {
    /// Pixel dimensions of each served size.
    pub fn get_dimensions(&self) -> (r: (u32, u32))
        ensures
            r == spec_dimensions(*self),
    {
        match *self {
            Size2::S => (160, 90),
            Size2::M => (320, 180),
            Size2::L => (480, 270),
            Size2::Original => (640, 360),
            Size2::Encrypted => (640, 360),
        }
    }
}

impl Default for Size2 {
    fn default() -> (r: Size2)
        ensures
            r == Size2::Original,
    {
        Size2::Original
    }
}

/// A thumbnail request.
pub struct GetThumbnail2 {
    pub size: Size2,
}

/// Container format of a course download.
#[derive(Clone, Copy, Debug, PartialEq, Eq, Structural)]
pub enum FileFormat {
    Tar,
}

impl Default for FileFormat {
    fn default() -> (r: FileFormat)
        ensures
            r == FileFormat::Tar,
    {
        FileFormat::Tar
    }
}

/// Payload representation of a course download.
#[derive(Clone, Copy, Debug, PartialEq, Eq, Structural)]
pub enum CourseFormat {
    Encrypted,
    Br,
    ProtobufBr,
}

impl Default for CourseFormat {
    fn default() -> (r: CourseFormat)
        ensures
            r == CourseFormat::Encrypted,
    {
        CourseFormat::Encrypted
    }
}

/// Thumbnail representation of a course download.
#[derive(Clone, Copy, Debug, PartialEq, Eq, Structural)]
pub enum ThumbFormat {
    Encrypted,
}

impl Default for ThumbFormat {
    fn default() -> (r: ThumbFormat)
        ensures
            r == ThumbFormat::Encrypted,
    {
        ThumbFormat::Encrypted
    }
}

/// A course download request.
pub struct DownloadCourse2 {
    pub file_format: FileFormat,
    pub course_format: CourseFormat,
    pub thumb_format: ThumbFormat,
}

/// The brotli compression of a byte sequence at this cache's settings.
pub uninterp spec fn br_of(data: Seq<u8>) -> Seq<u8>;

/// Relies on brotli2's `BrotliEncoder` with quality 11: compression is pure
/// integer code, so the output is a function of the input bytes alone.
#[verifier::external_body]
fn brotli_compress(data: &Vec<u8>) -> (r: Vec<u8>)
    ensures
        r@ == br_of(data@),
{
    let mut params = brotli2::CompressParams::new();
    params.quality(11);
    let mut enc = brotli2::read::BrotliEncoder::from_params(&data[..], &params);
    let mut out = Vec::new();
    match std::io::Read::read_to_end(&mut enc, &mut out) {
        Ok(_) => out,
        Err(_) => out,
    }
}

/// The thumbnail derivation: the stored image bytes decoded, resized to
/// the given dimensions, and re-encoded as JPEG at this cache's settings;
/// `None` when the bytes decode as no image or cannot be re-encoded.
pub uninterp spec fn thumb_jpeg_of(img: Seq<u8>, width: u32, height: u32) -> Option<Seq<u8>>;

/// Relies on image's `load_from_memory`, `DynamicImage::resize_exact` with
/// a Gaussian filter, and `JpegEncoder` at quality 85 through
/// `write_with_encoder`: the result is a function of the input bytes and
/// the requested dimensions alone.
#[verifier::external_body]
fn resize_to_jpeg(data: &Vec<u8>, width: u32, height: u32) -> (r: Option<Vec<u8>>)
    ensures
        match r {
            Some(b) => thumb_jpeg_of(data@, width, height) == Some(b@),
            None => thumb_jpeg_of(data@, width, height) is None,
        },
{
    let img = match image::load_from_memory(&data[..]) {
        Ok(img) => img,
        Err(_) => return None,
    };
    let resized = img.resize_exact(width, height, image::imageops::FilterType::Gaussian);
    let mut out = Vec::new();
    let enc = image::codecs::jpeg::JpegEncoder::new_with_quality(&mut out, 85);
    match resized.write_with_encoder(enc) {
        Ok(()) => Some(out),
        Err(_) => None,
    }
}

/// A byte-for-byte copy.
fn clone_bytes(v: &Vec<u8>) -> (r: Vec<u8>)
    ensures
        r@ == v@,
{
    let mut out: Vec<u8> = Vec::new();
    let mut i: usize = 0;
    while i < v.len()
        invariant
            i <= v@.len(),
            out@ == v@.take(i as int),
        decreases v@.len() - i,
    {
        out.push(v[i]);
        proof {
            assert(out@ =~= v@.take(i + 1));
        }
        i = i + 1;
    }
    proof {
        assert(v@.take(v@.len() as int) =~= v@);
    }
    out
}

/// The generic-compressed representation a record serves: the cached field
/// when it is filled, the compression of the canonical payload otherwise.
pub open spec fn br_payload(c: Course2) -> Seq<u8> {
    match c.data_br {
        Some(v) => v@,
        None => br_of(c.data_encrypted@),
    }
}

/// Record `c2` equals record `c` with its compressed field filled from `c`.
pub open spec fn br_cached(c: Course2, c2: Course2) -> bool {
    &&& c2.data_br is Some
    &&& c2.data_br.unwrap()@ == br_payload(c)
    &&& c2.data_encrypted == c.data_encrypted
}

/// Serving the compressed representation is stable: once a request has
/// filled the cached field, every later request serves those same bytes,
/// whether it reads the field or re-derives the deterministic transform.
pub proof fn lemma_br_payload_stable(c: Course2, c2: Course2)
    requires
        br_cached(c, c2),
    ensures
        br_payload(c2) == br_payload(c),
{
}

impl Data {
    /// Index of the stored course with id `course_id`, if any.
    pub(crate) fn find_course_idx(&self, course_id: u64) -> (r: Option<usize>)
        ensures
            match r {
                Some(k) => 0 <= k < self.courses@.len() && self.courses@[k as int].id == course_id,
                None => forall|k: int|
                    0 <= k < self.courses@.len() ==> (#[trigger] self.courses@[k]).id != course_id,
            },
    {
        let mut k: usize = 0;
        while k < self.courses.len()
            invariant
                k <= self.courses@.len(),
                forall|j: int| 0 <= j < k ==> (#[trigger] self.courses@[j]).id != course_id,
            decreases self.courses@.len() - k,
        {
            if self.courses[k].get_id() == course_id {
                return Some(k);
            }
            k = k + 1;
        }
        None
    }

    /// Serves the canonical representation: the payload in its at-rest form
    /// together with the stored thumbnail; fails exactly when no course has
    /// the requested id.
    pub fn get_course2(&self, course_id: u64) -> (r: Result<
        (Vec<u8>, Vec<u8>),
        DownloadCourse2Error,
    >)
        ensures
            match r {
                Ok(p) => exists|k: int|
                    0 <= k < self.courses@.len() && (#[trigger] self.courses@[k]).id == course_id
                        && p.0@ == self.courses@[k].data_encrypted@ && p.1@
                        == self.courses@[k].thumb@,
                Err(e) => e == DownloadCourse2Error::CourseNotFound(course_id) && forall|k: int|
                    0 <= k < self.courses@.len() ==> (#[trigger] self.courses@[k]).id != course_id,
            },
    {
        match self.find_course_idx(course_id) {
            Some(k) => {
                let c = &self.courses[k];
                Ok((clone_bytes(&c.data_encrypted), clone_bytes(&c.thumb)))
            },
            None => Err(DownloadCourse2Error::CourseNotFound(course_id)),
        }
    }

    /// Derives the generic-compressed representation from the canonical
    /// payload, writes it back onto the record, and returns it; fails
    /// exactly when no course has the requested id.
    pub fn add_course2_data_br(&mut self, course_id: u64) -> (r: Result<
        Vec<u8>,
        DownloadCourse2Error,
    >)
        requires
            old(self).wf(),
        ensures
            final(self).wf(),
            final(self).perm_gen == old(self).perm_gen,
            final(self).bands() == old(self).bands(),
            final(self).next_id == old(self).next_id,
            final(self).votes == old(self).votes,
            match r {
                Ok(d) => exists|k: int|
                    0 <= k < old(self).courses@.len() && (#[trigger] old(self).courses@[k]).id
                        == course_id && ({
                        let c = old(self).courses@[k];
                        let c2 = final(self).courses@[k];
                        &&& d@ == br_of(c.data_encrypted@)
                        &&& c2 == (Course2 { data_br: c2.data_br, ..c })
                        &&& c2.data_br is Some
                        &&& c2.data_br.unwrap()@ == br_of(c.data_encrypted@)
                        &&& final(self).courses@ == old(self).courses@.update(k, c2)
                    }),
                Err(e) => {
                    &&& e == DownloadCourse2Error::CourseNotFound(course_id)
                    &&& *final(self) == *old(self)
                    &&& forall|k: int|
                        0 <= k < old(self).courses@.len() ==> (#[trigger] old(
                            self,
                        ).courses@[k]).id != course_id
                },
            },
    {
        match self.find_course_idx(course_id) {
            Some(k) => {
                let ghost pre = self.courses@;
                let mut rec = self.courses.remove(k);
                let out = brotli_compress(&rec.data_encrypted);
                rec.data_br = Some(clone_bytes(&out));
                self.courses.insert(k, rec);
                proof {
                    assert(self.courses@ =~= pre.update(k as int, self.courses@[k as int]));
                    crate::data::lemma_wf_record_update(old(self), self, k as int);
                }
                Ok(out)
            },
            None => Err(DownloadCourse2Error::CourseNotFound(course_id)),
        }
    }

    /// Serves the generic-compressed representation together with the
    /// thumbnail: the cached field if the record already has it, else the
    /// freshly derived and persisted compression of the canonical payload.
    pub fn get_course2_br(&mut self, course_id: u64) -> (r: Result<
        (Vec<u8>, Vec<u8>),
        DownloadCourse2Error,
    >)
        requires
            old(self).wf(),
        ensures
            final(self).wf(),
            final(self).perm_gen == old(self).perm_gen,
            final(self).bands() == old(self).bands(),
            final(self).next_id == old(self).next_id,
            final(self).votes == old(self).votes,
            match r {
                Ok(p) => exists|k: int|
                    0 <= k < old(self).courses@.len() && (#[trigger] old(self).courses@[k]).id
                        == course_id && ({
                        let c = old(self).courses@[k];
                        let c2 = final(self).courses@[k];
                        &&& p.0@ == br_payload(c)
                        &&& p.1@ == c.thumb@
                        &&& br_cached(c, c2)
                        &&& c2 == (Course2 { data_br: c2.data_br, ..c })
                        &&& final(self).courses@ == old(self).courses@.update(k, c2)
                        &&& (c.data_br is Some ==> *final(self) == *old(self))
                    }),
                Err(e) => {
                    &&& e == DownloadCourse2Error::CourseNotFound(course_id)
                    &&& *final(self) == *old(self)
                    &&& forall|k: int|
                        0 <= k < old(self).courses@.len() ==> (#[trigger] old(
                            self,
                        ).courses@[k]).id != course_id
                },
            },
    {
        match self.find_course_idx(course_id) {
            Some(k) => {
                let cached = match &self.courses[k].data_br {
                    Some(v) => Some(clone_bytes(v)),
                    None => None,
                };
                match cached {
                    Some(d) => {
                        proof {
                            assert(self.courses@ =~= self.courses@.update(
                                k as int,
                                self.courses@[k as int],
                            ));
                        }
                        Ok((d, clone_bytes(&self.courses[k].thumb)))
                    },
                    None => {
                        match self.add_course2_data_br(course_id) {
                            Ok(d) => Ok((d, clone_bytes(&self.courses[k].thumb))),
                            Err(e) => Err(e),
                        }
                    },
                }
            },
            None => Err(DownloadCourse2Error::CourseNotFound(course_id)),
        }
    }

    /// Serves the transcoded-plus-compressed representation together with
    /// the thumbnail.  The transcoder is an outside collaborator: when the
    /// record's field has never been filled, the artifact is reported
    /// missing rather than derived here.
    pub fn get_course2_proto(&self, course_id: u64) -> (r: Result<
        (Vec<u8>, Vec<u8>),
        DownloadCourse2Error,
    >)
        ensures
            match r {
                Ok(p) => exists|k: int|
                    0 <= k < self.courses@.len() && (#[trigger] self.courses@[k]).id == course_id
                        && self.courses@[k].data_protobuf_br is Some && p.0@
                        == self.courses@[k].data_protobuf_br.unwrap()@ && p.1@
                        == self.courses@[k].thumb@,
                Err(DownloadCourse2Error::MissingArtifact(id)) => id == course_id && exists|k: int|
                    0 <= k < self.courses@.len() && (#[trigger] self.courses@[k]).id == course_id
                        && self.courses@[k].data_protobuf_br is None,
                Err(DownloadCourse2Error::CourseNotFound(id)) => id == course_id && forall|k: int|
                    0 <= k < self.courses@.len() ==> (#[trigger] self.courses@[k]).id != course_id,
            },
    {
        match self.find_course_idx(course_id) {
            Some(k) => {
                match &self.courses[k].data_protobuf_br {
                    Some(v) => Ok((clone_bytes(v), clone_bytes(&self.courses[k].thumb))),
                    None => Err(DownloadCourse2Error::MissingArtifact(course_id)),
                }
            },
            None => Err(DownloadCourse2Error::CourseNotFound(course_id)),
        }
    }

    /// Compresses an already transcoded payload handed in by the outside
    /// transcoder and persists it as the record's transcoded-plus-
    /// compressed representation.
    pub fn add_course2_data_protobuf_br(&mut self, course_id: u64, proto: Vec<u8>) -> (r: Result<
        Vec<u8>,
        DownloadCourse2Error,
    >)
        requires
            old(self).wf(),
        ensures
            final(self).wf(),
            final(self).perm_gen == old(self).perm_gen,
            final(self).bands() == old(self).bands(),
            final(self).next_id == old(self).next_id,
            final(self).votes == old(self).votes,
            match r {
                Ok(d) => exists|k: int|
                    0 <= k < old(self).courses@.len() && (#[trigger] old(self).courses@[k]).id
                        == course_id && ({
                        let c = old(self).courses@[k];
                        let c2 = final(self).courses@[k];
                        &&& d@ == br_of(proto@)
                        &&& c2 == (Course2 { data_protobuf_br: c2.data_protobuf_br, ..c })
                        &&& c2.data_protobuf_br is Some
                        &&& c2.data_protobuf_br.unwrap()@ == br_of(proto@)
                        &&& final(self).courses@ == old(self).courses@.update(k, c2)
                    }),
                Err(e) => {
                    &&& e == DownloadCourse2Error::CourseNotFound(course_id)
                    &&& *final(self) == *old(self)
                    &&& forall|k: int|
                        0 <= k < old(self).courses@.len() ==> (#[trigger] old(
                            self,
                        ).courses@[k]).id != course_id
                },
            },
    {
        match self.find_course_idx(course_id) {
            Some(k) => {
                let ghost pre = self.courses@;
                let mut rec = self.courses.remove(k);
                let out = brotli_compress(&proto);
                rec.data_protobuf_br = Some(clone_bytes(&out));
                self.courses.insert(k, rec);
                proof {
                    assert(self.courses@ =~= pre.update(k as int, self.courses@[k as int]));
                    crate::data::lemma_wf_record_update(old(self), self, k as int);
                }
                Ok(out)
            },
            None => Err(DownloadCourse2Error::CourseNotFound(course_id)),
        }
    }
}

/// The cached thumbnail field a record holds for a size, if that size has
/// one.
pub open spec fn thumb_field(c: Course2, size: Size2) -> Option<Vec<u8>> {
    match size {
        Size2::S => c.thumb_s,
        Size2::M => c.thumb_m,
        Size2::L => c.thumb_l,
        Size2::Original => None,
        Size2::Encrypted => None,
    }
}

impl Data {
    /// Serves a thumbnail: the stored image for the original size, the
    /// cached field for a reduced size that has been derived before, and
    /// otherwise a fresh resize-and-re-encode of the stored image, which is
    /// persisted onto the record before it is returned.
    ///
    /// Success is owed everywhere the derivation does not decide: a stored
    /// course's original-size thumbnail and every already cached field are
    /// always served, `CourseNotFound` comes exactly on an unknown id, and
    /// the image error comes exactly when a first derivation fails.
    pub fn get_course2_thumbnail(&mut self, course_id: u64, query: GetThumbnail2) -> (r: Result<
        Vec<u8>,
        GetCourse2ThumbnailError,
    >)
        requires
            old(self).wf(),
        ensures
            final(self).wf(),
            final(self).perm_gen == old(self).perm_gen,
            final(self).bands() == old(self).bands(),
            final(self).next_id == old(self).next_id,
            final(self).votes == old(self).votes,
            match r {
                Ok(d) => exists|k: int|
                    0 <= k < old(self).courses@.len() && (#[trigger] old(self).courses@[k]).id
                        == course_id && ({
                        let c = old(self).courses@[k];
                        let c2 = final(self).courses@[k];
                        let dims = spec_dimensions(query.size);
                        if query.size == Size2::Original || query.size == Size2::Encrypted {
                            d@ == c.thumb@ && *final(self) == *old(self)
                        } else if thumb_field(c, query.size) is Some {
                            d@ == thumb_field(c, query.size).unwrap()@ && *final(self) == *old(
                                self,
                            )
                        } else {
                            &&& thumb_jpeg_of(c.thumb@, dims.0, dims.1) == Some(d@)
                            &&& thumb_field(c2, query.size) is Some
                            &&& thumb_field(c2, query.size).unwrap()@ == d@
                            &&& (query.size == Size2::S ==> c2 == (Course2 {
                                thumb_s: c2.thumb_s,
                                ..c
                            }))
                            &&& (query.size == Size2::M ==> c2 == (Course2 {
                                thumb_m: c2.thumb_m,
                                ..c
                            }))
                            &&& (query.size == Size2::L ==> c2 == (Course2 {
                                thumb_l: c2.thumb_l,
                                ..c
                            }))
                            &&& final(self).courses@ == old(self).courses@.update(k, c2)
                        }
                    }),
                Err(GetCourse2ThumbnailError::CourseNotFound(id)) => {
                    &&& id == course_id
                    &&& *final(self) == *old(self)
                    &&& forall|k: int|
                        0 <= k < old(self).courses@.len() ==> (#[trigger] old(
                            self,
                        ).courses@[k]).id != course_id
                },
                Err(GetCourse2ThumbnailError::Image) => {
                    &&& *final(self) == *old(self)
                    &&& exists|k: int|
                        0 <= k < old(self).courses@.len() && (#[trigger] old(
                            self,
                        ).courses@[k]).id == course_id && ({
                            let c = old(self).courses@[k];
                            let dims = spec_dimensions(query.size);
                            &&& !(query.size == Size2::Original || query.size == Size2::Encrypted)
                            &&& thumb_field(c, query.size) is None
                            &&& thumb_jpeg_of(c.thumb@, dims.0, dims.1) is None
                        })
                },
            },
    {
        let k = match self.find_course_idx(course_id) {
            Some(k) => k,
            None => {
                return Err(GetCourse2ThumbnailError::CourseNotFound(course_id));
            },
        };
        match query.size {
            Size2::Original | Size2::Encrypted => {
                proof {
                    assert(self.courses@ =~= self.courses@.update(
                        k as int,
                        self.courses@[k as int],
                    ));
                }
                Ok(clone_bytes(&self.courses[k].thumb))
            },
            size => {
                let cached = match size {
                    Size2::S => &self.courses[k].thumb_s,
                    Size2::M => &self.courses[k].thumb_m,
                    Size2::L => &self.courses[k].thumb_l,
                    Size2::Original | Size2::Encrypted => &None,
                };
                match cached {
                    Some(v) => {
                        proof {
                            assert(self.courses@ =~= self.courses@.update(
                                k as int,
                                self.courses@[k as int],
                            ));
                        }
                        Ok(clone_bytes(v))
                    },
                    None => {
                        let (w, h) = size.get_dimensions();
                        let bytes = match resize_to_jpeg(&self.courses[k].thumb, w, h) {
                            Some(b) => b,
                            None => {
                                return Err(GetCourse2ThumbnailError::Image);
                            },
                        };
                        let ghost pre = self.courses@;
                        let mut rec = self.courses.remove(k);
                        let copy = clone_bytes(&bytes);
                        match size {
                            Size2::S => {
                                rec.thumb_s = Some(copy);
                            },
                            Size2::M => {
                                rec.thumb_m = Some(copy);
                            },
                            Size2::L => {
                                rec.thumb_l = Some(copy);
                            },
                            Size2::Original | Size2::Encrypted => {},
                        }
                        self.courses.insert(k, rec);
                        proof {
                            assert(self.courses@ =~= pre.update(
                                k as int,
                                self.courses@[k as int],
                            ));
                            crate::data::lemma_wf_record_update(old(self), self, k as int);
                        }
                        Ok(bytes)
                    },
                }
            },
        }
    }
}

} // verus!
