use smmdb_core::LshIndex;
use smmdb_core::MinHash;
use smmdb_core::PermGen;

fn payload(seed: u8, len: usize) -> Vec<u8> {
    let mut v = Vec::with_capacity(len);
    let mut x = seed as u32;
    for _ in 0..len {
        x = x.wrapping_mul(1103515245).wrapping_add(12345);
        v.push((x >> 16) as u8);
    }
    v
}

#[test]
fn perm_gen_of_zero_fails() {
    assert!(PermGen::new(0).is_none());
}

#[test]
fn perm_gen_is_deterministic() {
    let p1 = PermGen::new(128).unwrap();
    let p2 = PermGen::new(128).unwrap();
    assert_eq!(p1.len(), 128);
    assert_eq!(p2.len(), 128);
    let data = payload(7, 500);
    let mut s1 = MinHash::new(&p1);
    s1.update(&p1, &data);
    let mut s2 = MinHash::new(&p2);
    s2.update(&p2, &data);
    assert_eq!(s1.equal_slots(&s2), 128);
}

#[test]
fn signature_length_is_permutation_count_regardless_of_input() {
    let p = PermGen::new(128).unwrap();
    for len in [0usize, 1, 3, 4, 5, 100, 5000] {
        let mut s = MinHash::new(&p);
        s.update(&p, &payload(3, len));
        assert_eq!(s.len(), 128);
    }
    let p64 = PermGen::new(64).unwrap();
    let mut s = MinHash::new(&p64);
    s.update(&p64, &payload(3, 100));
    assert_eq!(s.len(), 64);
}

#[test]
fn jaccard_of_signature_with_itself_is_one() {
    let p = PermGen::new(128).unwrap();
    let mut s = MinHash::new(&p);
    s.update(&p, &payload(9, 1000));
    let matching = s.equal_slots(&s);
    assert_eq!(matching, 128);
    assert_eq!(matching as f64 / s.len() as f64, 1.0);
    assert!(s.jaccard_exceeds(&s, 19, 20));
}

#[test]
fn jaccard_of_disjoint_shingle_sets_is_low() {
    let p = PermGen::new(128).unwrap();
    // Bytes in disjoint ranges give disjoint shingle sets.
    let low: Vec<u8> = (0..2000u32).map(|i| (i % 100) as u8).collect();
    let high: Vec<u8> = (0..2000u32).map(|i| 128 + (i % 100) as u8).collect();
    let mut s1 = MinHash::new(&p);
    s1.update(&p, &low);
    let mut s2 = MinHash::new(&p);
    s2.update(&p, &high);
    let matching = s1.equal_slots(&s2);
    // The true Jaccard value is 0; the estimate stays within sampling error.
    assert!((matching as f64) / 128.0 < 0.3, "matching = {matching}");
}

#[test]
fn update_accumulates_over_all_shingles_seen() {
    let p = PermGen::new(128).unwrap();
    let a = payload(1, 600);
    let b = payload(2, 600);
    let mut joined = a.clone();
    joined.extend_from_slice(&b);
    let mut s_two_updates = MinHash::new(&p);
    s_two_updates.update(&p, &a);
    s_two_updates.update(&p, &b);
    let mut s_joined = MinHash::new(&p);
    s_joined.update(&p, &joined);
    // The two differ only in the window bridging a and b, so nearly all
    // slots agree; both accumulate every shingle they were shown.
    assert!(s_two_updates.equal_slots(&s_joined) >= 120);
}

#[test]
fn insert_then_query_returns_the_id() {
    let p = PermGen::new(128).unwrap();
    let mut s = MinHash::new(&p);
    s.update(&p, &payload(11, 800));
    let mut index = LshIndex::new(8);
    index.insert(42, &s);
    let candidates = index.query(&s);
    assert!(candidates.contains(&42));
}

#[test]
fn query_of_fresh_index_is_empty() {
    let p = PermGen::new(128).unwrap();
    let mut s = MinHash::new(&p);
    s.update(&p, &payload(11, 800));
    let index = LshIndex::new(8);
    assert!(index.query(&s).is_empty());
}

#[test]
fn index_has_no_delete_and_keeps_every_insert() {
    let p = PermGen::new(128).unwrap();
    let mut s = MinHash::new(&p);
    s.update(&p, &payload(13, 800));
    let mut index = LshIndex::new(8);
    index.insert(1, &s);
    index.insert(2, &s);
    let candidates = index.query(&s);
    assert!(candidates.contains(&1));
    assert!(candidates.contains(&2));
}
