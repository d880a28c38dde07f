//! Content-fingerprinting core for a course-sharing platform.
//!
//! The library computes fixed-length MinHash signatures over uploaded course
//! payloads, indexes them in a banded locality-sensitive index, runs the
//! ingestion pipeline that rejects near-duplicate uploads, and derives the
//! alternate binary representations that courses are served in.

mod artifact;
mod auth;
mod course;
mod data;
mod lsh;
mod minhash;
mod routes;
mod sim;
mod vote;

pub use artifact::CourseFormat;
pub use artifact::DownloadCourse2;
pub use artifact::FileFormat;
pub use artifact::GetThumbnail2;
pub use artifact::Size2;
pub use artifact::ThumbFormat;
pub use auth::AccountConvertError;
pub use auth::AccountReq;
pub use auth::AuthSession;
pub use auth::IdInfo;
pub use course::Course2;
pub use course::Course2SimilarityError;
pub use course::Difficulty;
pub use course::DownloadCourse2Error;
pub use course::GetCourse2ThumbnailError;
pub use course::NewCourse2;
pub use course::PutCourses2Error;
pub use course::PutCourses2Response;
pub use data::Data;
pub use routes::Collections;
pub use routes::GetCourses2;
pub use routes::PostCourse2Meta;
pub use routes::PostCourse2MetaError;
pub use routes::PutCourses2;
pub use routes::Sort;
pub use routes::SortValue;
pub use routes::VoteCourse2;
pub use routes::is_true;
pub use lsh::LshIndex;
pub use minhash::MinHash;
pub use minhash::PermGen;
pub use vote::Vote;

