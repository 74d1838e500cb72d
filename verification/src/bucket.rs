use vstd::prelude::*;

verus! {

/// Width of a fingerprint, in bytes.
pub const FINGERPRINT_SIZE: usize = 2;

/// Number of fingerprint slots in a bucket.
pub const BUCKET_SIZE: usize = 8;

/// The byte that fills the reserved empty-sentinel pattern.
pub const EMPTY_BYTE: u8 = 100;

/// `n` shifted down by `i` whole bytes.
pub open spec fn shifted_down(n: int, i: nat) -> int
    decreases i,
{
    if i == 0 {
        n
    } else {
        shifted_down(n, (i - 1) as nat) / 256
    }
}

/// The `i`-th low-order byte of `n` (little-endian).
pub open spec fn byte_of(n: usize, i: int) -> u8 {
    (shifted_down(n as int, i as nat) % 256) as u8
}

/// The low-order `FINGERPRINT_SIZE` bytes of `n` form exactly the sentinel
/// pattern.
pub open spec fn truncates_to_sentinel(n: usize) -> bool {
    forall|i: int| 0 <= i < FINGERPRINT_SIZE ==> #[trigger] byte_of(n, i) == EMPTY_BYTE
}

/// A compact fixed-width byte encoding of a hashed item. The pattern with
/// every byte equal to `EMPTY_BYTE` is reserved to mean "empty slot" and is
/// never produced by `from_usize`.
#[derive(Clone, Copy, Eq, Hash)]
#[verifier::ext_equal]
pub struct Fingerprint {
    data: [u8; FINGERPRINT_SIZE],
}

impl View for Fingerprint {
    type V = Seq<u8>;

    closed spec fn view(&self) -> Seq<u8> {
        self.data@
    }
}

impl PartialEq for Fingerprint {
    /// Structural byte-pattern equality.
    fn eq(&self, other: &Fingerprint) -> bool {
        let mut i: usize = 0;
        while i < FINGERPRINT_SIZE
            invariant
                0 <= i <= FINGERPRINT_SIZE,
                forall|j: int| 0 <= j < i ==> self.data@[j] == other.data@[j],
            decreases FINGERPRINT_SIZE - i,
        {
            if self.data[i] != other.data[i] {
                return false;
            }
            i = i + 1;
        }
        proof {
            assert(self.data =~= other.data);
            assert(*self =~= *other);
        }
        true
    }
}

impl vstd::std_specs::cmp::PartialEqSpecImpl for Fingerprint {
    open spec fn obeys_eq_spec() -> bool {
        true
    }

    open spec fn eq_spec(&self, other: &Fingerprint) -> bool {
        *self == *other
    }
}

/// Full description of what `from_usize` returns for `n`: `None` exactly when
/// the truncated low-order bytes of `n` form the sentinel pattern, and
/// otherwise a fingerprint holding those bytes.
pub open spec fn from_usize_result(n: usize, r: Option<Fingerprint>) -> bool {
    match r {
        Some(fp) => {
            &&& !truncates_to_sentinel(n)
            &&& fp@.len() == FINGERPRINT_SIZE
            &&& forall|i: int| 0 <= i < FINGERPRINT_SIZE ==> (#[trigger] fp@[i]) == byte_of(n, i)
        },
        None => truncates_to_sentinel(n),
    }
}

impl Fingerprint {
    /// This is the reserved empty-sentinel pattern.
    pub open spec fn spec_is_empty(self) -> bool {
        forall|i: int| 0 <= i < FINGERPRINT_SIZE ==> (#[trigger] self@[i]) == EMPTY_BYTE
    }

    /// Attempts to create a new Fingerprint holding the low-order bytes of
    /// the given number. If the created Fingerprint would be equal to the
    /// empty Fingerprint, None is returned.
    pub fn from_usize(n: usize) -> (r: Option<Fingerprint>)
        ensures
            from_usize_result(n, r),
    {
        let mut data: [u8; FINGERPRINT_SIZE] = [0u8; FINGERPRINT_SIZE];
        let mut m: usize = n;
        let mut i: usize = 0;
        while i < FINGERPRINT_SIZE
            invariant
                0 <= i <= FINGERPRINT_SIZE,
                m as int == shifted_down(n as int, i as nat),
                forall|j: int| 0 <= j < i ==> (#[trigger] data@[j]) == byte_of(n, j),
            decreases FINGERPRINT_SIZE - i,
        {
            data[i] = (m % 256) as u8;
            m = m / 256;
            proof {
                assert(shifted_down(n as int, (i + 1) as nat) == shifted_down(
                    n as int,
                    i as nat,
                ) / 256);
            }
            i = i + 1;
        }
        let result = Fingerprint { data };
        proof {
            assert(result@ == data@);
        }
        if result.is_empty() {
            proof {
                assert forall|k: int| 0 <= k < FINGERPRINT_SIZE implies #[trigger] byte_of(n, k)
                    == EMPTY_BYTE by {
                    assert(result@[k] == EMPTY_BYTE);
                    assert(data@[k] == byte_of(n, k));
                }
            }
            None
        } else {
            proof {
                let k = choose|k: int| 0 <= k < FINGERPRINT_SIZE && result@[k] != EMPTY_BYTE;
                assert(byte_of(n, k) != EMPTY_BYTE);
            }
            Some(result)
        }
    }

    /// Returns the empty Fingerprint.
    pub fn empty() -> (r: Fingerprint)
        ensures
            r.spec_is_empty(),
            r@.len() == FINGERPRINT_SIZE,
    {
        let result = Fingerprint { data: [EMPTY_BYTE; FINGERPRINT_SIZE] };
        proof {
            assert(result@ == result.data@);
        }
        result
    }

    /// Checks if this is the empty Fingerprint.
    pub fn is_empty(&self) -> (r: bool)
        ensures
            r == self.spec_is_empty(),
    {
        let mut i: usize = 0;
        while i < FINGERPRINT_SIZE
            invariant
                0 <= i <= FINGERPRINT_SIZE,
                forall|j: int| 0 <= j < i ==> self.data@[j] == EMPTY_BYTE,
            decreases FINGERPRINT_SIZE - i,
        {
            if self.data[i] != EMPTY_BYTE {
                proof {
                    assert(self@[i as int] != EMPTY_BYTE);
                }
                return false;
            }
            i = i + 1;
        }
        proof {
            assert(self@ == self.data@);
        }
        true
    }
}

/// Some slot of `s` is the empty sentinel.
pub open spec fn has_empty_slot(s: Seq<Fingerprint>) -> bool {
    exists|i: int| 0 <= i < s.len() && (#[trigger] s[i]).spec_is_empty()
}

/// `k` is the first empty slot of `s`.
pub open spec fn first_empty_slot(s: Seq<Fingerprint>, k: int) -> bool {
    &&& 0 <= k < s.len()
    &&& s[k].spec_is_empty()
    &&& forall|j: int| 0 <= j < k ==> !(#[trigger] s[j]).spec_is_empty()
}

/// Some slot of `s` equals `fp`.
pub open spec fn has_slot_equal(s: Seq<Fingerprint>, fp: Fingerprint) -> bool {
    exists|i: int| 0 <= i < s.len() && #[trigger] s[i] == fp
}

/// `k` is the first slot of `s` equal to `fp`.
pub open spec fn first_slot_equal(s: Seq<Fingerprint>, fp: Fingerprint, k: int) -> bool {
    &&& 0 <= k < s.len()
    &&& s[k] == fp
    &&& forall|j: int| 0 <= j < k ==> #[trigger] s[j] != fp
}

/// All slots are the empty sentinel, exactly as `Bucket::new` returns.
pub open spec fn all_slots_empty(s: Seq<Fingerprint>) -> bool {
    &&& s.len() == BUCKET_SIZE
    &&& forall|i: int| 0 <= i < s.len() ==> (#[trigger] s[i]).spec_is_empty()
}

/// Full description of one `insert` call: `pre` and `post` are the slots
/// before and after, `r` the returned success flag. The call succeeds exactly
/// when some slot is empty, writing `fp` over the first empty slot; a full
/// bucket is left unchanged.
pub open spec fn insert_result(
    pre: Seq<Fingerprint>,
    fp: Fingerprint,
    post: Seq<Fingerprint>,
    r: bool,
) -> bool {
    &&& r == has_empty_slot(pre)
    &&& if r {
        exists|k: int| #[trigger] first_empty_slot(pre, k) && post == pre.update(k, fp)
    } else {
        post == pre
    }
}

/// The slots of `post` are those of `pre` with slot `k` reset to the empty
/// sentinel.
pub open spec fn cleared_at(pre: Seq<Fingerprint>, post: Seq<Fingerprint>, k: int) -> bool {
    &&& post.len() == pre.len()
    &&& post[k].spec_is_empty()
    &&& forall|j: int| 0 <= j < pre.len() && j != k ==> post[j] == pre[j]
}

/// Full description of one `delete` call: the call succeeds exactly when
/// `fp` is a real (non-sentinel) fingerprint and some slot equals it,
/// resetting only the first such slot; otherwise the bucket is left
/// unchanged. Further slots equal to `fp` stay untouched. The empty sentinel
/// stands for "no fingerprint" and is never treated as present, so deleting
/// it always fails — an empty slot is not an occupied entry.
pub open spec fn delete_result(
    pre: Seq<Fingerprint>,
    fp: Fingerprint,
    post: Seq<Fingerprint>,
    r: bool,
) -> bool {
    &&& r == (!fp.spec_is_empty() && has_slot_equal(pre, fp))
    &&& if r {
        exists|k: int| #[trigger] first_slot_equal(pre, fp, k) && cleared_at(pre, post, k)
    } else {
        post == pre
    }
}

/// Full description of one `get_fingerprint_index` call: the position of the
/// first slot equal to `fp`, or `None` when no slot matches. The empty
/// sentinel is never reported as present: a slot equal to it is an empty
/// slot, not a stored entry.
pub open spec fn find_result(s: Seq<Fingerprint>, fp: Fingerprint, r: Option<usize>) -> bool {
    match r {
        Some(k) => !fp.spec_is_empty() && first_slot_equal(s, fp, k as int),
        None => fp.spec_is_empty() || !has_slot_equal(s, fp),
    }
}

/// Manages BUCKET_SIZE fingerprints at most: a fixed-length ordered sequence
/// of slots, each either the empty sentinel or an occupied fingerprint.
#[derive(Clone, Copy)]
pub struct Bucket {
    pub buffer: [Fingerprint; BUCKET_SIZE],
}

impl View for Bucket {
    type V = Seq<Fingerprint>;

    open spec fn view(&self) -> Seq<Fingerprint> {
        self.buffer@
    }
}

impl Bucket {
    /// Creates a new bucket with every slot set to the empty Fingerprint.
    pub fn new() -> (r: Bucket)
        ensures
            all_slots_empty(r@),
    {
        Bucket { buffer: [Fingerprint::empty(); BUCKET_SIZE] }
    }

    /// Inserts the fingerprint into the first empty slot, if any slot is
    /// still empty. Returns false and changes nothing when the bucket is
    /// full. Does not check for existing duplicates.
    pub fn insert(&mut self, fp: Fingerprint) -> (r: bool)
        ensures
            insert_result(old(self)@, fp, final(self)@, r),
    {
        let mut i: usize = 0;
        while i < BUCKET_SIZE
            invariant
                0 <= i <= BUCKET_SIZE,
                *self == *old(self),
                forall|j: int| 0 <= j < i ==> !(#[trigger] self@[j]).spec_is_empty(),
            decreases BUCKET_SIZE - i,
        {
            if self.buffer[i].is_empty() {
                proof {
                    assert(first_empty_slot(old(self)@, i as int));
                }
                self.buffer[i] = fp;
                return true;
            }
            i = i + 1;
        }
        false
    }

    /// Deletes the given fingerprint from the bucket: the first slot equal to
    /// it is reset to the empty Fingerprint. Returns false and changes
    /// nothing when no slot matches, and always when given the empty
    /// Fingerprint itself, which marks free slots and is never a stored
    /// entry.
    pub fn delete(&mut self, fp: Fingerprint) -> (r: bool)
        ensures
            delete_result(old(self)@, fp, final(self)@, r),
    {
        match self.get_fingerprint_index(fp) {
            Some(index) => {
                self.buffer[index] = Fingerprint::empty();
                proof {
                    assert(first_slot_equal(old(self)@, fp, index as int));
                    assert(cleared_at(old(self)@, self@, index as int));
                }
                true
            },
            None => false,
        }
    }

    /// Returns the index of the first slot equal to the given fingerprint,
    /// if one is found. The empty Fingerprint is never found: a slot equal
    /// to it is a free slot, not a stored entry.
    pub fn get_fingerprint_index(&mut self, fp: Fingerprint) -> (r: Option<usize>)
        ensures
            *final(self) == *old(self),
            find_result(old(self)@, fp, r),
    {
        if fp.is_empty() {
            return None;
        }
        let mut i: usize = 0;
        while i < BUCKET_SIZE
            invariant
                0 <= i <= BUCKET_SIZE,
                *self == *old(self),
                !fp.spec_is_empty(),
                forall|j: int| 0 <= j < i ==> #[trigger] self@[j] != fp,
            decreases BUCKET_SIZE - i,
        {
            if self.buffer[i] == fp {
                return Some(i);
            }
            i = i + 1;
        }
        None
    }
}

/// Every fingerprint's view holds exactly `FINGERPRINT_SIZE` bytes.
pub proof fn lemma_fingerprint_view_len(fp: Fingerprint)
    ensures
        fp@.len() == FINGERPRINT_SIZE,
{
    assert(fp@ == fp.data@);
}

/// A fingerprint is nothing but its bytes: two fingerprints with equal views
/// are equal values.
pub proof fn lemma_fingerprint_view_injective(a: Fingerprint, b: Fingerprint)
    requires
        a@ =~= b@,
    ensures
        a == b,
{
    assert(a@ == a.data@);
    assert(b@ == b.data@);
    assert(a.data =~= b.data);
    assert(a =~= b);
}

/// Law: `from_usize` is deterministic — any two results it may return for
/// the same input are equal.
pub proof fn lemma_from_usize_deterministic(
    n: usize,
    r1: Option<Fingerprint>,
    r2: Option<Fingerprint>,
)
    requires
        from_usize_result(n, r1),
        from_usize_result(n, r2),
    ensures
        r1 == r2,
{
    match (r1, r2) {
        (Some(a), Some(b)) => {
            assert(a@ =~= b@);
            lemma_fingerprint_view_injective(a, b);
        },
        _ => {},
    }
}

/// After `i` inserts of non-sentinel fingerprints into a bucket created
/// empty, every insert so far succeeded and the bucket holds exactly those
/// fingerprints in order, followed by empty slots.
proof fn lemma_fill_prefix(
    states: Seq<Seq<Fingerprint>>,
    fps: Seq<Fingerprint>,
    results: Seq<bool>,
    i: int,
)
    requires
        states.len() == BUCKET_SIZE + 1,
        fps.len() == BUCKET_SIZE,
        results.len() == BUCKET_SIZE,
        all_slots_empty(states[0]),
        forall|j: int| 0 <= j < BUCKET_SIZE ==> !(#[trigger] fps[j]).spec_is_empty(),
        forall|j: int|
            0 <= j < BUCKET_SIZE ==> #[trigger] insert_result(
                states[j],
                fps[j],
                states[j + 1],
                results[j],
            ),
        0 <= i <= BUCKET_SIZE,
    ensures
        states[i].len() == BUCKET_SIZE,
        forall|j: int| 0 <= j < i ==> results[j] == true,
        forall|j: int| 0 <= j < i ==> #[trigger] states[i][j] == fps[j],
        forall|j: int| i <= j < BUCKET_SIZE ==> (#[trigger] states[i][j]).spec_is_empty(),
    decreases i,
{
    if i > 0 {
        lemma_fill_prefix(states, fps, results, i - 1);
        let j = i - 1;
        assert(insert_result(states[j], fps[j], states[j + 1], results[j]));
        assert(first_empty_slot(states[j], j));
        assert(has_empty_slot(states[j]));
        let k = choose|k: int|
            #[trigger] first_empty_slot(states[j], k) && states[j + 1] == states[j].update(
                k,
                fps[j],
            );
        if k < j {
            assert(states[j][k] == fps[k]);
            assert(false);
        }
        assert(k == j);
        assert(states[i] == states[j].update(j, fps[j]));
    }
}

/// Law (capacity bound): `BUCKET_SIZE` inserts of non-sentinel fingerprints
/// into a bucket created empty all succeed; any further insert fails and
/// leaves every occupied slot unchanged.
pub proof fn lemma_capacity_bound(
    states: Seq<Seq<Fingerprint>>,
    fps: Seq<Fingerprint>,
    results: Seq<bool>,
    extra: Fingerprint,
    after: Seq<Fingerprint>,
    extra_r: bool,
)
    requires
        states.len() == BUCKET_SIZE + 1,
        fps.len() == BUCKET_SIZE,
        results.len() == BUCKET_SIZE,
        all_slots_empty(states[0]),
        forall|j: int| 0 <= j < BUCKET_SIZE ==> !(#[trigger] fps[j]).spec_is_empty(),
        forall|j: int|
            0 <= j < BUCKET_SIZE ==> #[trigger] insert_result(
                states[j],
                fps[j],
                states[j + 1],
                results[j],
            ),
        insert_result(states[BUCKET_SIZE as int], extra, after, extra_r),
    ensures
        forall|j: int| 0 <= j < BUCKET_SIZE ==> results[j] == true,
        extra_r == false,
        after == states[BUCKET_SIZE as int],
        forall|j: int|
            0 <= j < BUCKET_SIZE ==> #[trigger] states[BUCKET_SIZE as int][j] == fps[j],
{
    lemma_fill_prefix(states, fps, results, BUCKET_SIZE as int);
    let full = states[BUCKET_SIZE as int];
    assert forall|k: int| 0 <= k < full.len() implies !(#[trigger] full[k]).spec_is_empty() by {
        assert(full[k] == fps[k]);
    }
    assert(!has_empty_slot(full));
}

/// Law (empty-bucket delete): deleting any fingerprint from a bucket created
/// empty, the sentinel itself included, fails and changes nothing.
pub proof fn lemma_delete_on_fresh_bucket(
    pre: Seq<Fingerprint>,
    fp: Fingerprint,
    post: Seq<Fingerprint>,
    r: bool,
)
    requires
        all_slots_empty(pre),
        delete_result(pre, fp, post, r),
    ensures
        r == false,
        post == pre,
{
    if !fp.spec_is_empty() {
        assert(!has_slot_equal(pre, fp));
    }
}

/// Law (insert, delete, reuse): on a bucket created empty, inserting a
/// non-sentinel fingerprint succeeds; deleting it then succeeds and empties
/// the bucket again; a lookup of it afterwards misses; and a further insert
/// of any fingerprint succeeds, reusing the freed slot.
pub proof fn lemma_insert_delete_reuse(
    b0: Seq<Fingerprint>,
    fp1: Fingerprint,
    fp2: Fingerprint,
    b1: Seq<Fingerprint>,
    r1: bool,
    b2: Seq<Fingerprint>,
    r2: bool,
    idx: Option<usize>,
    b3: Seq<Fingerprint>,
    r3: bool,
)
    requires
        all_slots_empty(b0),
        !fp1.spec_is_empty(),
        insert_result(b0, fp1, b1, r1),
        delete_result(b1, fp1, b2, r2),
        find_result(b2, fp1, idx),
        insert_result(b2, fp2, b3, r3),
    ensures
        r1 == true,
        r2 == true,
        idx is None,
        r3 == true,
        b3[0] == fp2,
{
    assert(first_empty_slot(b0, 0));
    assert(has_empty_slot(b0));
    let k1 = choose|k: int| #[trigger] first_empty_slot(b0, k) && b1 == b0.update(k, fp1);
    assert(k1 == 0);
    assert(b1[0] == fp1);
    assert(has_slot_equal(b1, fp1));
    let k2 = choose|k: int| #[trigger] first_slot_equal(b1, fp1, k) && cleared_at(b1, b2, k);
    assert(k2 == 0);
    assert(all_slots_empty(b2));
    if idx is Some {
        let k3 = idx->0 as int;
        assert(b2[k3] == fp1);
        assert(false);
    }
    assert(first_empty_slot(b2, 0));
    assert(has_empty_slot(b2));
    let k4 = choose|k: int| #[trigger] first_empty_slot(b2, k) && b3 == b2.update(k, fp2);
    assert(k4 == 0);
}

/// Law (duplicate handling): on a bucket created empty, inserting the same
/// non-sentinel fingerprint twice succeeds both times and occupies two
/// slots; one delete then removes exactly the first occurrence; a lookup
/// still finds the remaining occurrence at its slot.
pub proof fn lemma_duplicate_insert_delete(
    b0: Seq<Fingerprint>,
    fp1: Fingerprint,
    b1: Seq<Fingerprint>,
    r1: bool,
    b2: Seq<Fingerprint>,
    r2: bool,
    b3: Seq<Fingerprint>,
    r3: bool,
    idx: Option<usize>,
)
    requires
        all_slots_empty(b0),
        !fp1.spec_is_empty(),
        insert_result(b0, fp1, b1, r1),
        insert_result(b1, fp1, b2, r2),
        delete_result(b2, fp1, b3, r3),
        find_result(b3, fp1, idx),
    ensures
        r1 == true,
        r2 == true,
        b2[0] == fp1 && b2[1] == fp1,
        r3 == true,
        b3[0].spec_is_empty() && b3[1] == fp1,
        idx == Some(1usize),
{
    assert(first_empty_slot(b0, 0));
    assert(has_empty_slot(b0));
    let k1 = choose|k: int| #[trigger] first_empty_slot(b0, k) && b1 == b0.update(k, fp1);
    assert(k1 == 0);
    assert(b1[0] == fp1);
    assert(first_empty_slot(b1, 1));
    assert(has_empty_slot(b1));
    let k2 = choose|k: int| #[trigger] first_empty_slot(b1, k) && b2 == b1.update(k, fp1);
    assert(k2 == 1);
    assert(b2[0] == fp1 && b2[1] == fp1);
    assert(has_slot_equal(b2, fp1));
    let k3 = choose|k: int| #[trigger] first_slot_equal(b2, fp1, k) && cleared_at(b2, b3, k);
    assert(k3 == 0);
    assert(b3[0].spec_is_empty() && b3[1] == fp1);
    assert(has_slot_equal(b3, fp1));
    match idx {
        Some(k) => {
            assert(first_slot_equal(b3, fp1, k as int));
            if k as int == 0 {
                assert(b3[0] == fp1);
                assert(false);
            }
            assert(k as int == 1);
        },
        None => {
            assert(false);
        },
    }
}

} // verus!
