//! A bounded cache of idle script VMs, keyed by the hash of the script they
//! were prepared for. When the cache grows past its capacity, one cached VM,
//! chosen at random, is evicted.
use vstd::prelude::*;
use rand::Rng;

verus! {

/// The hash of a script.
pub type ScriptHash = [u8; 32];

/// How many idle VMs the cache keeps at most.
pub const MAX_CACHED_VMS: usize = 64;

/// The number of VMs in `buckets`.
pub open spec fn total<V>(buckets: Seq<(ScriptHash, Vec<V>)>) -> nat
    decreases buckets.len(),
{
    if buckets.len() == 0 {
        0
    } else {
        total(buckets.drop_last()) + buckets.last().1@.len()
    }
}

/// No hash has two buckets.
pub open spec fn unique_hashes<V>(buckets: Seq<(ScriptHash, Vec<V>)>) -> bool {
    forall|i: int, j: int| 0 <= i < buckets.len() && 0 <= j < buckets.len() && i != j
        ==> (#[trigger] buckets[i]).0@ != (#[trigger] buckets[j]).0@
}

/// The cached VMs by script hash.
pub open spec fn cached<V>(buckets: Seq<(ScriptHash, Vec<V>)>) -> Map<Seq<u8>, Seq<V>> {
    Map::new(
        |h: Seq<u8>| exists|i: int| 0 <= i < buckets.len() && (#[trigger] buckets[i]).0@ == h,
        |h: Seq<u8>| buckets[choose|i: int| 0 <= i < buckets.len() && (#[trigger] buckets[i]).0@ == h].1@,
    )
}

/// Idle VMs by the hash of the script they were prepared for, one bucket per
/// hash in a vector: a 32-byte digest is no integer key, so a hash map keyed by
/// it would come with no specification of its contents.
pub struct VmCache<V> {
    buckets: Vec<(ScriptHash, Vec<V>)>,
}

/// A number drawn from `0..bound` by `rand::Rng::gen_range` on the thread-local
/// generator of `rand`; the contract claims only that it lies in the range, which
/// `gen_range` guarantees for a range that is not empty.
#[verifier::external_body]
fn random_below(bound: usize) -> (r: usize)
    requires
        bound > 0,
    ensures
        r < bound,
{
    rand::thread_rng().gen_range(0..bound)
}

/// Whether two script hashes are equal.
fn same_hash(a: &ScriptHash, b: &ScriptHash) -> (r: bool)
    ensures
        r == (a@ == b@),
{
    let mut i: usize = 0;
    while i < 32
        invariant
            i <= 32,
            a@.len() == 32,
            b@.len() == 32,
            forall|j: int| 0 <= j < i ==> a@[j] == b@[j],
        decreases 32 - i,
    {
        if a[i] != b[i] {
            return false;
        }
        i = i + 1;
    }
    proof {
        assert(a@ =~= b@);
    }
    true
}

/// The total of `buckets` with bucket `k` replaced by `b`.
proof fn lemma_total_update<V>(buckets: Seq<(ScriptHash, Vec<V>)>, k: int, b: (ScriptHash, Vec<V>))
    requires
        0 <= k < buckets.len(),
    ensures
        total(buckets.update(k, b)) == total(buckets) - buckets[k].1@.len() + b.1@.len(),
    decreases buckets.len(),
{
    if k < buckets.len() - 1 {
        lemma_total_update(buckets.drop_last(), k, b);
        assert(buckets.update(k, b).drop_last() =~= buckets.drop_last().update(k, b));
    } else {
        assert(buckets.update(k, b).drop_last() =~= buckets.drop_last());
    }
}

/// The total of `buckets` without bucket `k`.
proof fn lemma_total_remove<V>(buckets: Seq<(ScriptHash, Vec<V>)>, k: int)
    requires
        0 <= k < buckets.len(),
    ensures
        total(buckets.remove(k)) == total(buckets) - buckets[k].1@.len(),
    decreases buckets.len(),
{
    if k < buckets.len() - 1 {
        lemma_total_remove(buckets.drop_last(), k);
        assert(buckets.remove(k).drop_last() =~= buckets.drop_last().remove(k));
    } else {
        assert(buckets.remove(k) =~= buckets.drop_last());
    }
}

/// Every bucket's size is part of the total.
proof fn lemma_bucket_in_total<V>(buckets: Seq<(ScriptHash, Vec<V>)>, k: int)
    requires
        0 <= k < buckets.len(),
    ensures
        buckets[k].1@.len() <= total(buckets),
        total(buckets.take(k)) + buckets[k].1@.len() <= total(buckets),
    decreases buckets.len(),
{
    if k < buckets.len() - 1 {
        lemma_bucket_in_total(buckets.drop_last(), k);
        assert(buckets.drop_last().take(k) =~= buckets.take(k));
    } else {
        assert(buckets.drop_last() =~= buckets.take(k));
    }
}

/// With distinct hashes, bucket `k` holds the VMs cached for its hash.
proof fn lemma_cached_at<V>(b: Seq<(ScriptHash, Vec<V>)>, k: int)
    requires
        unique_hashes(b),
        0 <= k < b.len(),
    ensures
        cached(b).contains_key(b[k].0@),
        cached(b)[b[k].0@] == b[k].1@,
{
    let h = b[k].0@;
    let c = choose|i: int| 0 <= i < b.len() && (#[trigger] b[i]).0@ == h;
    if c != k {
        assert(b[c].0@ != b[k].0@);
    }
}

/// Without a bucket for `h`, nothing is cached for it.
proof fn lemma_cached_absent<V>(b: Seq<(ScriptHash, Vec<V>)>, h: Seq<u8>)
    requires
        forall|i: int| 0 <= i < b.len() ==> (#[trigger] b[i]).0@ != h,
    ensures
        !cached(b).contains_key(h),
{
}

/// Replacing bucket `k` by one with the same hash replaces what is cached for it.
proof fn lemma_cached_update<V>(b: Seq<(ScriptHash, Vec<V>)>, k: int, nb: (ScriptHash, Vec<V>))
    requires
        unique_hashes(b),
        0 <= k < b.len(),
        nb.0@ == b[k].0@,
    ensures
        unique_hashes(b.update(k, nb)),
        cached(b.update(k, nb)) == cached(b).insert(b[k].0@, nb.1@),
{
    let b1 = b.update(k, nb);
    let m = cached(b).insert(b[k].0@, nb.1@);
    assert forall|i: int| 0 <= i < b1.len() implies (#[trigger] b1[i]).0@ == b[i].0@ by {}
    assert forall|i: int, j: int| 0 <= i < b1.len() && 0 <= j < b1.len() && i != j
        implies (#[trigger] b1[i]).0@ != (#[trigger] b1[j]).0@ by {
        assert(b[i].0@ != b[j].0@);
    }
    assert forall|h: Seq<u8>| #[trigger] cached(b1).contains_key(h) <==> m.contains_key(h) by {
        if cached(b1).contains_key(h) {
            let i = choose|i: int| 0 <= i < b1.len() && (#[trigger] b1[i]).0@ == h;
            assert(b[i].0@ == h);
        }
        if m.contains_key(h) {
            if h == b[k].0@ {
                assert(b1[k].0@ == h);
            } else {
                let i = choose|i: int| 0 <= i < b.len() && (#[trigger] b[i]).0@ == h;
                assert(b1[i].0@ == h);
            }
        }
    }
    assert forall|h: Seq<u8>| #[trigger] cached(b1).contains_key(h) implies cached(b1)[h] == m[h] by {
        let i1 = choose|i: int| 0 <= i < b1.len() && (#[trigger] b1[i]).0@ == h;
        if h == b[k].0@ {
            assert(i1 == k) by {
                if i1 != k {
                    assert(b1[i1].0@ != b1[k].0@);
                }
            }
        } else {
            let i0 = choose|i: int| 0 <= i < b.len() && (#[trigger] b[i]).0@ == h;
            assert(i1 == i0) by {
                if i1 != i0 {
                    assert(b[i1].0@ != b[i0].0@);
                }
            }
        }
    }
    assert(cached(b1) =~= m);
}

/// Adding a bucket for a new hash caches its VMs under that hash.
proof fn lemma_cached_push<V>(b: Seq<(ScriptHash, Vec<V>)>, nb: (ScriptHash, Vec<V>))
    requires
        unique_hashes(b),
        forall|i: int| 0 <= i < b.len() ==> (#[trigger] b[i]).0@ != nb.0@,
    ensures
        unique_hashes(b.push(nb)),
        cached(b.push(nb)) == cached(b).insert(nb.0@, nb.1@),
{
    let b1 = b.push(nb);
    let m = cached(b).insert(nb.0@, nb.1@);
    assert forall|i: int, j: int| 0 <= i < b1.len() && 0 <= j < b1.len() && i != j
        implies (#[trigger] b1[i]).0@ != (#[trigger] b1[j]).0@ by {
        if i < b.len() && j < b.len() {
            assert(b[i].0@ != b[j].0@);
        }
    }
    assert forall|h: Seq<u8>| #[trigger] cached(b1).contains_key(h) <==> m.contains_key(h) by {
        if cached(b1).contains_key(h) {
            let i = choose|i: int| 0 <= i < b1.len() && (#[trigger] b1[i]).0@ == h;
            if i < b.len() {
                assert(b[i].0@ == h);
            }
        }
        if m.contains_key(h) {
            if h == nb.0@ {
                assert(b1[b.len() as int].0@ == h);
            } else {
                let i = choose|i: int| 0 <= i < b.len() && (#[trigger] b[i]).0@ == h;
                assert(b1[i].0@ == h);
            }
        }
    }
    assert forall|h: Seq<u8>| #[trigger] cached(b1).contains_key(h) implies cached(b1)[h] == m[h] by {
        let i1 = choose|i: int| 0 <= i < b1.len() && (#[trigger] b1[i]).0@ == h;
        if h == nb.0@ {
            assert(i1 == b.len()) by {
                if i1 < b.len() {
                    assert(b[i1].0@ != nb.0@);
                }
            }
        } else {
            let i0 = choose|i: int| 0 <= i < b.len() && (#[trigger] b[i]).0@ == h;
            assert(b1[i0].0@ == h);
            assert(i1 == i0) by {
                if i1 != i0 {
                    assert(b1[i1].0@ != b1[i0].0@);
                }
            }
        }
    }
    assert(cached(b1) =~= m);
}

/// Removing bucket `k` uncaches its hash.
proof fn lemma_cached_remove<V>(b: Seq<(ScriptHash, Vec<V>)>, k: int)
    requires
        unique_hashes(b),
        0 <= k < b.len(),
    ensures
        unique_hashes(b.remove(k)),
        cached(b.remove(k)) == cached(b).remove(b[k].0@),
{
    let b2 = b.remove(k);
    let m = cached(b).remove(b[k].0@);
    assert forall|i: int| 0 <= i < b2.len() implies #[trigger] b2[i] == b[if i < k { i } else { i + 1 }] by {}
    assert forall|i: int, j: int| 0 <= i < b2.len() && 0 <= j < b2.len() && i != j
        implies (#[trigger] b2[i]).0@ != (#[trigger] b2[j]).0@ by {
        let i1 = if i < k { i } else { i + 1 };
        let j1 = if j < k { j } else { j + 1 };
        assert(b2[i] == b[i1]);
        assert(b2[j] == b[j1]);
        assert(b[i1].0@ != b[j1].0@);
    }
    assert forall|h: Seq<u8>| #[trigger] cached(b2).contains_key(h) <==> m.contains_key(h) by {
        if cached(b2).contains_key(h) {
            let i = choose|i: int| 0 <= i < b2.len() && (#[trigger] b2[i]).0@ == h;
            let i1 = if i < k { i } else { i + 1 };
            assert(b2[i] == b[i1]);
            assert(b[i1].0@ != b[k].0@);
        }
        if m.contains_key(h) {
            let i = choose|i: int| 0 <= i < b.len() && (#[trigger] b[i]).0@ == h;
            assert(i != k);
            let i2 = if i < k { i } else { i - 1 };
            assert(b2[i2] == b[i]);
        }
    }
    assert forall|h: Seq<u8>| #[trigger] cached(b2).contains_key(h) implies cached(b2)[h] == m[h] by {
        let i2 = choose|i: int| 0 <= i < b2.len() && (#[trigger] b2[i]).0@ == h;
        let i1 = if i2 < k { i2 } else { i2 + 1 };
        assert(b2[i2] == b[i1]);
        let i0 = choose|i: int| 0 <= i < b.len() && (#[trigger] b[i]).0@ == h;
        assert(i1 == i0) by {
            if i1 != i0 {
                assert(b[i1].0@ != b[i0].0@);
            }
        }
    }
    assert(cached(b2) =~= m);
}

/// The cache after `vm` was added for `hash`.
pub open spec fn with_vm<V>(c: Map<Seq<u8>, Seq<V>>, hash: Seq<u8>, vm: V) -> Map<Seq<u8>, Seq<V>> {
    c.insert(hash, if c.contains_key(hash) { c[hash] } else { Seq::empty() }.push(vm))
}

/// The cache after the last VM for `h` was evicted; an emptied hash is dropped.
pub open spec fn without_last<V>(c: Map<Seq<u8>, Seq<V>>, h: Seq<u8>) -> Map<Seq<u8>, Seq<V>> {
    if c[h].len() == 1 {
        c.remove(h)
    } else {
        c.insert(h, c[h].drop_last())
    }
}

impl<V> VmCache<V> {
    /// The cached VMs by script hash.
    pub closed spec fn cached(&self) -> Map<Seq<u8>, Seq<V>> {
        cached(self.buckets@)
    }

    /// The number of cached VMs.
    pub closed spec fn size(&self) -> nat {
        total(self.buckets@)
    }

    /// The cache's invariant.
    pub closed spec fn wf(&self) -> bool {
        &&& unique_hashes(self.buckets@)
        &&& total(self.buckets@) <= MAX_CACHED_VMS
    }

    /// A well-formed cache never holds more than [`MAX_CACHED_VMS`] VMs.
    pub proof fn lemma_bounded(&self)
        requires
            self.wf(),
        ensures
            self.size() <= MAX_CACHED_VMS,
    {
    }

    /// An empty cache.
    pub fn new() -> (c: Self)
        ensures
            c.wf(),
            c.size() == 0,
            c.cached() == Map::<Seq<u8>, Seq<V>>::empty(),
    {
        let c = VmCache { buckets: Vec::new() };
        proof {
            assert(c.cached() =~= Map::<Seq<u8>, Seq<V>>::empty());
        }
        c
    }

    /// The index of the bucket for `hash`.
    fn find(&self, hash: &ScriptHash) -> (r: Option<usize>)
        ensures
            r matches Some(k) ==> k < self.buckets@.len() && self.buckets@[k as int].0@ == hash@,
            r is None ==> forall|i: int| 0 <= i < self.buckets@.len() ==> (#[trigger] self.buckets@[i]).0@ != hash@,
    {
        let mut k: usize = 0;
        while k < self.buckets.len()
            invariant
                k <= self.buckets@.len(),
                forall|i: int| 0 <= i < k ==> (#[trigger] self.buckets@[i]).0@ != hash@,
            decreases self.buckets@.len() - k,
        {
            if same_hash(&self.buckets[k].0, hash) {
                return Some(k);
            }
            k = k + 1;
        }
        None
    }

    /// Take an idle VM prepared for `hash`, the one cached last.
    pub fn get(&mut self, hash: ScriptHash) -> (vm: Option<V>)
        requires
            old(self).wf(),
        ensures
            final(self).wf(),
            !old(self).cached().contains_key(hash@) || old(self).cached()[hash@].len() == 0 ==> vm is None
                && final(self).cached() == old(self).cached(),
            old(self).cached().contains_key(hash@) && old(self).cached()[hash@].len() > 0 ==> {
                &&& vm == Some(old(self).cached()[hash@].last())
                &&& final(self).cached() == old(self).cached().insert(hash@, old(self).cached()[hash@].drop_last())
                &&& final(self).size() + 1 == old(self).size()
            },
    {
        let ghost b0 = self.buckets@;
        match self.find(&hash) {
            None => {
                proof {
                    lemma_cached_absent(b0, hash@);
                }
                None
            },
            Some(k) => {
                proof {
                    lemma_cached_at(b0, k as int);
                }
                let mut bucket = (hash, Vec::new());
                std::mem::swap(&mut bucket, &mut self.buckets[k]);
                let vm = bucket.1.pop();
                self.buckets.set(k, bucket);
                proof {
                    let b1 = self.buckets@;
                    assert(b1 =~= b0.update(k as int, b1[k as int]));
                    lemma_total_update(b0, k as int, b1[k as int]);
                    lemma_cached_update(b0, k as int, b1[k as int]);
                    if vm is None {
                        assert(b1[k as int].1@ =~= b0[k as int].1@);
                        assert(cached(b0).insert(hash@, b0[k as int].1@) =~= cached(b0));
                    }
                }
                vm
            },
        }
    }

    /// Cache an idle VM prepared for `hash`, if it may be reused. Past the
    /// capacity, the last VM of a bucket chosen at random (each cached VM
    /// equally likely to pick its bucket) is evicted. Returns the VMs that
    /// were not kept: `vm` itself when it may not be reused, or the evicted one.
    pub fn put(&mut self, hash: ScriptHash, vm: V, reuse: bool) -> (dropped: Option<V>)
        requires
            old(self).wf(),
        ensures
            final(self).wf(),
            final(self).size() <= MAX_CACHED_VMS,
            !reuse ==> dropped == Some(vm) && final(self).cached() == old(self).cached(),
            reuse && old(self).size() < MAX_CACHED_VMS ==> dropped is None && final(self).size() == old(self).size() + 1
                && final(self).cached() == with_vm(old(self).cached(), hash@, vm),
            reuse && old(self).size() == MAX_CACHED_VMS ==> final(self).size() == MAX_CACHED_VMS && exists|h: Seq<u8>| {
                &&& #[trigger] with_vm(old(self).cached(), hash@, vm).contains_key(h)
                &&& with_vm(old(self).cached(), hash@, vm)[h].len() > 0
                &&& dropped == Some(with_vm(old(self).cached(), hash@, vm)[h].last())
                &&& final(self).cached() == without_last(with_vm(old(self).cached(), hash@, vm), h)
            },
    {
        if !reuse {
            return Some(vm);
        }
        let ghost b0 = self.buckets@;
        let ghost c0 = cached(b0);
        match self.find(&hash) {
            Some(k) => {
                proof {
                    lemma_cached_at(b0, k as int);
                }
                let mut bucket = (hash, Vec::new());
                std::mem::swap(&mut bucket, &mut self.buckets[k]);
                bucket.1.push(vm);
                self.buckets.set(k, bucket);
                proof {
                    let b1 = self.buckets@;
                    assert(b1 =~= b0.update(k as int, b1[k as int]));
                    lemma_total_update(b0, k as int, b1[k as int]);
                    lemma_cached_update(b0, k as int, b1[k as int]);
                }
            },
            None => {
                let mut bucket: Vec<V> = Vec::new();
                bucket.push(vm);
                self.buckets.push((hash, bucket));
                proof {
                    let b1 = self.buckets@;
                    assert(b1 =~= b0.push(b1[b0.len() as int]));
                    assert(b1.drop_last() =~= b0);
                    lemma_cached_absent(b0, hash@);
                    lemma_cached_push(b0, b1[b0.len() as int]);
                    assert(b1[b0.len() as int].1@ =~= Seq::<V>::empty().push(vm));
                }
            },
        }
        let ghost mid = cached(self.buckets@);
        proof {
            assert(mid == with_vm(c0, hash@, vm));
        }
        let total_now = self.count();
        if total_now > MAX_CACHED_VMS {
            let index = random_below(total_now);
            let evicted = self.evict(index);
            proof {
                let h = choose|h: Seq<u8>| {
                    &&& #[trigger] mid.contains_key(h)
                    &&& mid[h].len() > 0
                    &&& evicted == mid[h].last()
                    &&& cached(self.buckets@) == without_last(mid, h)
                };
                assert(c0 == old(self).cached());
                assert(with_vm(c0, hash@, vm).contains_key(h));
                assert(with_vm(c0, hash@, vm)[h].len() > 0);
                assert(Some(evicted) == Some(with_vm(old(self).cached(), hash@, vm)[h].last()));
                assert(self.cached() == without_last(with_vm(old(self).cached(), hash@, vm), h));
            }
            Some(evicted)
        } else {
            None
        }
    }

    /// The number of cached VMs.
    fn count(&self) -> (n: usize)
        requires
            total(self.buckets@) <= MAX_CACHED_VMS + 1,
        ensures
            n == total(self.buckets@),
    {
        let mut n: usize = 0;
        let mut k: usize = 0;
        while k < self.buckets.len()
            invariant
                k <= self.buckets@.len(),
                n == total(self.buckets@.take(k as int)),
                total(self.buckets@) <= MAX_CACHED_VMS + 1,
            decreases self.buckets@.len() - k,
        {
            proof {
                lemma_bucket_in_total(self.buckets@, k as int);
                assert(self.buckets@.take(k + 1).drop_last() =~= self.buckets@.take(k as int));
            }
            n = n + self.buckets[k].1.len();
            k = k + 1;
        }
        proof {
            assert(self.buckets@.take(k as int) =~= self.buckets@);
        }
        n
    }

    /// Evict the last VM of the bucket that holds the `index`-th cached VM,
    /// counting through the buckets in order; an emptied bucket is dropped.
    fn evict(&mut self, index: usize) -> (evicted: V)
        requires
            unique_hashes(old(self).buckets@),
            index < total(old(self).buckets@),
            total(old(self).buckets@) == MAX_CACHED_VMS + 1,
        ensures
            unique_hashes(final(self).buckets@),
            total(final(self).buckets@) == MAX_CACHED_VMS,
            exists|h: Seq<u8>| {
                &&& #[trigger] cached(old(self).buckets@).contains_key(h)
                &&& cached(old(self).buckets@)[h].len() > 0
                &&& evicted == cached(old(self).buckets@)[h].last()
                &&& cached(final(self).buckets@) == without_last(cached(old(self).buckets@), h)
            },
    {
        let ghost b0 = self.buckets@;
        let mut k: usize = 0;
        let mut seen: usize = 0;
        proof {
            if b0.len() == 0 {
                assert(b0.take(0) =~= b0);
            }
        }
        while k < self.buckets.len()
            invariant_except_break
                seen == total(self.buckets@.take(k as int)),
                seen <= index,
            invariant
                k == b0.len() ==> total(b0.take(k as int)) == total(b0),
                self.buckets@ == b0,
                k <= self.buckets@.len(),
                index < total(b0),
                total(b0) == MAX_CACHED_VMS + 1,
            ensures
                k < self.buckets@.len(),
                self.buckets@[k as int].1@.len() > 0,
            decreases self.buckets@.len() - k,
        {
            proof {
                lemma_bucket_in_total(b0, k as int);
                assert(b0.take(k + 1).drop_last() =~= b0.take(k as int));
            }
            let len = self.buckets[k].1.len();
            if seen + len > index {
                break;
            }
            seen = seen + len;
            k = k + 1;
            proof {
                if k == b0.len() {
                    assert(b0.take(k as int) =~= b0);
                }
            }
        }
        let ghost h = b0[k as int].0@;
        proof {
            lemma_cached_at(b0, k as int);
        }
        let key = self.buckets[k].0;
        let mut bucket = (key, Vec::new());
        std::mem::swap(&mut bucket, &mut self.buckets[k]);
        let evicted = bucket.1.pop().unwrap();
        let emptied = bucket.1.len() == 0;
        self.buckets.set(k, bucket);
        let ghost b1 = self.buckets@;
        proof {
            assert(b1 =~= b0.update(k as int, b1[k as int]));
            lemma_total_update(b0, k as int, b1[k as int]);
            lemma_cached_update(b0, k as int, b1[k as int]);
            assert(b1[k as int].1@ =~= b0[k as int].1@.drop_last());
        }
        if emptied {
            self.buckets.remove(k);
            proof {
                lemma_total_remove(b1, k as int);
                lemma_cached_remove(b1, k as int);
                let c = cached(b0);
                assert(cached(b1).remove(h) =~= c.remove(h));
            }
        }
        proof {
            let c = cached(b0);
            assert(c.contains_key(h) && c[h].len() > 0 && evicted == c[h].last() && cached(self.buckets@)
                == without_last(c, h));
        }
        evicted
    }
}

} // verus!
