use cuckoo_bucket::bucket::Fingerprint;

#[test]
fn from_usize_is_deterministic() {
    let a = Fingerprint::from_usize(42);
    let b = Fingerprint::from_usize(42);
    assert!(a == b);
    let c = Fingerprint::from_usize(0);
    let d = Fingerprint::from_usize(0);
    assert!(c == d);
}

#[test]
fn sentinel_pattern_yields_none() {
    // 25700 == 100 + 100 * 256: both low-order bytes are the sentinel byte.
    assert!(Fingerprint::from_usize(25700).is_none());
    // Truncation keeps only the two low-order bytes.
    assert!(Fingerprint::from_usize(25700 + 65536).is_none());
}

#[test]
fn non_sentinel_patterns_yield_some() {
    assert!(Fingerprint::from_usize(0).is_some());
    // One sentinel byte alone is not the sentinel pattern.
    assert!(Fingerprint::from_usize(100).is_some());
    assert!(Fingerprint::from_usize(100 * 256).is_some());
    assert!(Fingerprint::from_usize(usize::MAX).is_some());
}

#[test]
fn from_usize_never_returns_the_empty_fingerprint() {
    assert!(!Fingerprint::from_usize(0).unwrap().is_empty());
    assert!(!Fingerprint::from_usize(100).unwrap().is_empty());
    assert!(!Fingerprint::from_usize(usize::MAX).unwrap().is_empty());
}

#[test]
fn empty_fingerprint_is_empty() {
    assert!(Fingerprint::empty().is_empty());
}

#[test]
fn equality_is_structural_on_truncated_bytes() {
    // 65536 truncates to the same two bytes as 0.
    let a = Fingerprint::from_usize(0).unwrap();
    let b = Fingerprint::from_usize(65536).unwrap();
    assert!(a == b);
    let c = Fingerprint::from_usize(2).unwrap();
    let d = Fingerprint::from_usize(3).unwrap();
    assert!(c != d);
    // Bytes differ in the high-order position only.
    let e = Fingerprint::from_usize(1).unwrap();
    let f = Fingerprint::from_usize(1 + 256).unwrap();
    assert!(e != f);
}
