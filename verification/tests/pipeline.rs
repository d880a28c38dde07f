use smmdb_core::Data;
use smmdb_core::Difficulty;
use smmdb_core::MinHash;
use smmdb_core::NewCourse2;
use smmdb_core::PermGen;
use smmdb_core::PutCourses2Error;

fn payload(seed: u8, len: usize) -> Vec<u8> {
    let mut v = Vec::with_capacity(len);
    let mut x = seed as u32;
    for _ in 0..len {
        x = x.wrapping_mul(1103515245).wrapping_add(12345);
        v.push((x >> 16) as u8);
    }
    v
}

fn course(seed: u8, title: &str) -> NewCourse2 {
    NewCourse2 { data: payload(seed, 2000), thumb: Some(vec![1, 2, 3]), title: title.to_string() }
}

fn fresh_data() -> Data {
    Data::new(PermGen::new(128).unwrap(), 8)
}

#[test]
fn accepting_then_rejecting_a_duplicate() {
    let mut data = fresh_data();
    let a = course(1, "course a");
    let res = data.ingest_course(a, 10, None, 1000);
    assert_eq!(res.unwrap(), 0);

    // The same payload has Jaccard similarity 1.0 > 0.95 with itself.
    let b = NewCourse2 {
        data: payload(1, 2000),
        thumb: Some(vec![9]),
        title: "course b".to_string(),
    };
    match data.ingest_course(b, 11, None, 1001) {
        Err(PutCourses2Error::Similarity(e)) => {
            assert_eq!(e.similar_course_id, 0);
            assert_eq!(e.title, "course a");
            assert_eq!(e.total, 128);
            assert_eq!(e.matching, 128);
            assert!(e.matching as f64 / e.total as f64 > 0.95);
        }
        _ => panic!("a duplicate upload must report a similarity conflict"),
    }
    // The rejected course was neither persisted nor indexed: a fresh,
    // dissimilar course still gets the next id after the first one.
    let c = course(200, "course c");
    assert_eq!(data.ingest_course(c, 12, None, 1002).unwrap(), 1);
}

#[test]
fn near_duplicate_decision_matches_exact_similarity() {
    let mut data = fresh_data();
    let base = payload(1, 2000);
    let mut tweaked = base.clone();
    tweaked[1999] ^= 0xFF;

    let perm = PermGen::new(128).unwrap();
    let mut s1 = MinHash::new(&perm);
    s1.update(&perm, &base);
    let mut s2 = MinHash::new(&perm);
    s2.update(&perm, &tweaked);
    let expect_conflict = 20 * s1.equal_slots(&s2) > 19 * 128;

    let a = NewCourse2 { data: base, thumb: Some(vec![1]), title: "a".to_string() };
    data.ingest_course(a, 1, None, 0).unwrap();
    let b = NewCourse2 { data: tweaked, thumb: Some(vec![1]), title: "b".to_string() };
    match data.ingest_course(b, 1, None, 0) {
        Ok(_) => assert!(!expect_conflict),
        Err(PutCourses2Error::Similarity(_)) => assert!(expect_conflict),
        Err(PutCourses2Error::ThumbnailMissing) => panic!("thumbnail was present"),
    }
}

#[test]
fn dissimilar_courses_are_both_accepted_and_retrievable() {
    let mut data = fresh_data();
    let id_a = data.ingest_course(course(1, "a"), 1, None, 0).unwrap();
    let id_b = data.ingest_course(course(99, "b"), 2, None, 0).unwrap();
    assert_eq!(id_a, 0);
    assert_eq!(id_b, 1);

    // A subsequent query with each course's own signature surfaces its id.
    let perm = PermGen::new(128).unwrap();
    let mut s = MinHash::new(&perm);
    s.update(&perm, &payload(99, 2000));
    assert!(data.lsh_index.query(&s).contains(&id_b));
}

#[test]
fn course_without_thumbnail_is_rejected() {
    let mut data = fresh_data();
    let c = NewCourse2 { data: payload(1, 2000), thumb: None, title: "t".to_string() };
    match data.ingest_course(c, 1, None, 0) {
        Err(PutCourses2Error::ThumbnailMissing) => {}
        _ => panic!("a course without a thumbnail must be rejected"),
    }
}

#[test]
fn batch_reports_successes_and_failures_in_order() {
    let mut data = fresh_data();
    let first = data.put_courses2(vec![course(1, "a")], 7, Some(Difficulty::Expert), 500);
    assert_eq!(first.succeeded, vec![0]);
    assert!(first.failed.is_empty());

    // A near-duplicate of the stored course: succeeded stays empty and the
    // failure names the stored course.
    let b = NewCourse2 { data: payload(1, 2000), thumb: Some(vec![4]), title: "b".to_string() };
    let second = data.put_courses2(vec![b], 8, None, 501);
    assert!(second.succeeded.is_empty());
    assert_eq!(second.failed.len(), 1);
    match &second.failed[0] {
        PutCourses2Error::Similarity(e) => {
            assert_eq!(e.similar_course_id, 0);
            assert!(20 * e.matching > 19 * e.total);
        }
        _ => panic!("expected a similarity conflict"),
    }
}

#[test]
fn concurrent_near_duplicates_resolve_to_one_acceptance() {
    // The index lock serializes the two uploads into some order; per-order
    // the batch semantics admit exactly one of the pair.
    let mut data = fresh_data();
    let c1 = course(1, "first");
    let c2 = NewCourse2 { data: payload(1, 2000), thumb: Some(vec![2]), title: "second".to_string() };
    let out = data.put_courses2(vec![c1, c2], 1, None, 0);
    assert_eq!(out.succeeded.len(), 1);
    assert_eq!(out.failed.len(), 1);
    assert_eq!(out.succeeded, vec![0]);
    match &out.failed[0] {
        PutCourses2Error::Similarity(e) => assert_eq!(e.similar_course_id, 0),
        _ => panic!("expected a similarity conflict"),
    }
}

#[test]
fn batch_failure_does_not_abort_siblings() {
    let mut data = fresh_data();
    let no_thumb = NewCourse2 { data: payload(5, 2000), thumb: None, title: "x".to_string() };
    let out = data.put_courses2(vec![course(1, "a"), no_thumb, course(99, "b")], 1, None, 0);
    assert_eq!(out.succeeded, vec![0, 1]);
    assert_eq!(out.failed.len(), 1);
    match &out.failed[0] {
        PutCourses2Error::ThumbnailMissing => {}
        _ => panic!("expected the thumbnail failure"),
    }
}

#[test]
fn record_carries_owner_difficulty_and_timestamps() {
    let mut data = fresh_data();
    data.put_courses2(vec![course(1, "a")], 77, Some(Difficulty::SuperExpert), 12345);
    let c = &data.courses[0];
    assert_eq!(c.get_id(), 0);
    assert_eq!(c.get_owner(), 77);
    assert_eq!(*c.get_difficulty(), Some(Difficulty::SuperExpert));
    assert_eq!(c.get_uploaded(), 12345);
    assert_eq!(c.get_last_modified(), 12345);
    assert_eq!(c.get_votes(), 0);
    assert_eq!(c.get_hash().len(), 128);
}

#[test]
fn ownership_check_matches_owner_and_id() {
    let mut data = fresh_data();
    let id = data.ingest_course(course(1, "a"), 42, None, 0).unwrap();
    assert!(data.does_account_own_course(42, id));
    assert!(!data.does_account_own_course(43, id));
    assert!(!data.does_account_own_course(42, id + 1));
}

#[test]
fn difficulty_update_fails_on_unknown_id() {
    let mut data = fresh_data();
    let id = data.ingest_course(course(1, "a"), 1, None, 0).unwrap();
    data.post_course2_meta(id, Some(Difficulty::Easy)).unwrap();
    assert_eq!(*data.courses[0].get_difficulty(), Some(Difficulty::Easy));
    data.post_course2_meta(id, None).unwrap();
    assert_eq!(*data.courses[0].get_difficulty(), None);
    assert!(data.post_course2_meta(999, None).is_err());
}

#[test]
fn deletion_leaves_ghost_index_entries_but_frees_the_content() {
    let mut data = fresh_data();
    let id = data.ingest_course(course(1, "a"), 1, None, 0).unwrap();
    data.delete_course2(id).unwrap();
    assert!(data.delete_course2(id).is_err());

    // The signature is still retrievable from the index as a ghost entry.
    let perm = PermGen::new(128).unwrap();
    let mut s = MinHash::new(&perm);
    s.update(&perm, &payload(1, 2000));
    assert!(data.lsh_index.query(&s).contains(&id));

    // But ingestion filters ghosts against current storage: the identical
    // payload is accepted again under a fresh id.
    let again = data.ingest_course(course(1, "a again"), 1, None, 1).unwrap();
    assert_eq!(again, 1);
}

#[test]
fn votes_tally_onto_the_course() {
    let mut data = fresh_data();
    let id = data.ingest_course(course(1, "a"), 1, None, 0).unwrap();
    data.vote_course2(100, id, 1, 10);
    assert_eq!(data.courses[0].get_votes(), 1);
    data.vote_course2(101, id, 1, 11);
    assert_eq!(data.courses[0].get_votes(), 2);
    data.vote_course2(100, id, -1, 12);
    assert_eq!(data.courses[0].get_votes(), 0);
    assert_eq!(data.get_vote_for_account(100, id), -1);
    data.vote_course2(100, id, 0, 13);
    assert_eq!(data.courses[0].get_votes(), 1);
    assert_eq!(data.get_vote_for_account(100, id), 0);
}
