//! Fixed-capacity slot storage for a cuckoo-filter style membership
//! structure: compact fingerprints with a reserved empty sentinel, and
//! buckets of fingerprint slots searched by linear scan.

pub mod bucket;
