use cuckoo_bucket::bucket::{Bucket, Fingerprint, BUCKET_SIZE};

fn fp(n: usize) -> Fingerprint {
    Fingerprint::from_usize(n).unwrap()
}

#[test]
fn capacity_bound() {
    let mut b = Bucket::new();
    // Eight distinct fingerprints all fit.
    for n in 1..=BUCKET_SIZE {
        assert!(b.insert(fp(n)));
    }
    // A ninth insert fails...
    assert!(!b.insert(fp(9)));
    // ...and the eight occupied slots are unchanged: each fingerprint still
    // sits in the slot it was given, and the rejected one is absent.
    for n in 1..=BUCKET_SIZE {
        assert_eq!(b.get_fingerprint_index(fp(n)), Some(n - 1));
    }
    assert_eq!(b.get_fingerprint_index(fp(9)), None);
    // Re-inserting an already-present fingerprint also fails on a full bucket.
    assert!(!b.insert(fp(1)));
}

#[test]
fn empty_bucket_delete_misses() {
    let mut b = Bucket::new();
    assert!(!b.delete(fp(1)));
    assert!(!b.delete(fp(25699)));
    // The sentinel itself is no exception: free slots are not stored entries.
    assert!(!b.delete(Fingerprint::empty()));
    // The bucket stays usable afterwards.
    assert!(b.insert(fp(1)));
}

#[test]
fn sentinel_is_never_present() {
    // Free slots hold the sentinel pattern, but lookup and delete report only
    // stored entries, so the sentinel is never found and never deleted.
    let mut b = Bucket::new();
    assert_eq!(b.get_fingerprint_index(Fingerprint::empty()), None);
    assert!(!b.delete(Fingerprint::empty()));
    // The same holds on a partly filled bucket, and the entries stay put.
    assert!(b.insert(fp(1)));
    assert_eq!(b.get_fingerprint_index(Fingerprint::empty()), None);
    assert!(!b.delete(Fingerprint::empty()));
    assert_eq!(b.get_fingerprint_index(fp(1)), Some(0));
}

#[test]
fn insert_delete_reuse() {
    let mut b = Bucket::new();
    let fp1 = fp(11);
    let fp2 = fp(22);
    assert!(b.insert(fp1));
    assert!(b.delete(fp1));
    assert_eq!(b.get_fingerprint_index(fp1), None);
    assert!(b.insert(fp2));
    // The freed slot is reused: fp2 went to the first slot.
    assert_eq!(b.get_fingerprint_index(fp2), Some(0));
}

#[test]
fn duplicate_handling() {
    let mut b = Bucket::new();
    let fp1 = fp(7);
    assert!(b.insert(fp1));
    assert!(b.insert(fp1));
    // Two slots are taken by the same value.
    assert_eq!(b.get_fingerprint_index(fp1), Some(0));
    // Deleting removes exactly one occurrence (the first)...
    assert!(b.delete(fp1));
    // ...so the other occurrence remains, now the first match.
    assert_eq!(b.get_fingerprint_index(fp1), Some(1));
}

#[test]
fn delete_miss_leaves_slots_unchanged() {
    let mut b = Bucket::new();
    let fp1 = fp(1);
    let fp2 = fp(2);
    assert!(b.insert(fp1));
    assert!(b.insert(fp2));
    // A fingerprint never inserted: the delete fails...
    assert!(!b.delete(fp(3)));
    // ...and both existing entries still sit where they were.
    assert_eq!(b.get_fingerprint_index(fp1), Some(0));
    assert_eq!(b.get_fingerprint_index(fp2), Some(1));
}

#[test]
fn lookup_finds_first_match_only() {
    let mut b = Bucket::new();
    let fp1 = fp(5);
    let fp2 = fp(6);
    assert!(b.insert(fp1));
    assert!(b.insert(fp2));
    assert!(b.insert(fp1));
    // The scan reports the first of the two equal slots.
    assert_eq!(b.get_fingerprint_index(fp1), Some(0));
    assert_eq!(b.get_fingerprint_index(fp2), Some(1));
}

#[test]
fn cloned_bucket_is_a_snapshot() {
    let mut b = Bucket::new();
    assert!(b.insert(fp(4)));
    let mut snapshot = b.clone();
    assert!(b.delete(fp(4)));
    assert_eq!(b.get_fingerprint_index(fp(4)), None);
    assert_eq!(snapshot.get_fingerprint_index(fp(4)), Some(0));
}
