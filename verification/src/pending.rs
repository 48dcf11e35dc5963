//! The registry of deferred runtime operations.
//!
//! Guest code registers host calls, HTTP requests and sleeps, receives a
//! `u32` handle for each, and later consumes the handle. The registry decides
//! which operations must be started, which are ready, in which order they
//! became ready, and what a consumed handle yields. The actual I/O (running
//! the started requests, waiting for the clock) happens outside; its results
//! come back through [`Registry::complete`], and clock readings are passed in.
use vstd::prelude::*;
use vstd::set_lib::lemma_len_subset;
use std::collections::{HashMap, HashSet, VecDeque};
use crate::time::{Deadline, DeadlineState, deadline_ready_at};
use crate::text::{decimal, push_decimal, push_str, string_of};

verus! {

broadcast use vstd::std_specs::hash::group_hash_axioms;

/// A handle that is unknown or was already consumed.
#[derive(Clone, Copy, Debug, PartialEq, Eq, Structural)]
pub struct InvalidHandle(pub u32);

/// How a rejected handle is reported.
pub open spec fn invalid_handle_message(handle: u32) -> Seq<char> {
    "invalid or already-consumed handle: "@ + decimal(handle as nat)
}

impl InvalidHandle {
    /// The rejected handle.
    pub fn handle(self) -> (h: u32)
        ensures
            h == self.0,
    {
        self.0
    }

    /// The error message.
    pub fn message(self) -> (m: String)
        ensures
            m@ == invalid_handle_message(self.0),
    {
        let mut out: Vec<char> = Vec::new();
        push_str(&mut out, "invalid or already-consumed handle: ");
        push_decimal(&mut out, self.0 as u64);
        string_of(&out)
    }
}

/// A host call waiting to be performed.
pub struct HostRequest {
    pub call_type: String,
    pub payload: Vec<u8>,
}

/// The life cycle of a deferred request.
pub enum State<Q, P> {
    /// Registered, not started yet.
    Deferred(Q),
    /// Started; its result has not arrived.
    Running,
    /// Its result arrived.
    Ready(P),
}

/// A registered operation. `H` is an HTTP request, `R` an HTTP response.
pub enum Operation<H, R> {
    Host(State<HostRequest, Result<Vec<u8>, String>>),
    Http { request_url: String, state: State<H, Result<R, String>> },
    Sleep(Deadline),
}

/// A request handed out to be performed.
pub enum Request<H> {
    Host(HostRequest),
    Http(H),
}

/// The result of a performed request.
pub enum Response<R> {
    Host(Result<Vec<u8>, String>),
    Http(Result<R, String>),
}

/// The completed value of a deferred operation.
pub enum Output<R> {
    Host(Result<Vec<u8>, String>),
    Http { request_url: String, response: Result<R, String> },
    Sleep,
}

/// The state of an operation removed from the registry.
pub enum Take<R> {
    Ready(Output<R>),
    Pending,
}

/// Whether an operation can be consumed without blocking at clock reading `now`.
pub open spec fn op_ready(op: Operation<impl Sized, impl Sized>, now: u64) -> bool {
    match op {
        Operation::Host(s) => s is Ready,
        Operation::Http { state, .. } => state is Ready,
        Operation::Sleep(d) => deadline_ready_at(d.0, now),
    }
}

/// Whether an operation was started and its result has not arrived.
pub open spec fn op_running<H, R>(op: Operation<H, R>) -> bool {
    match op {
        Operation::Host(s) => s is Running,
        Operation::Http { state, .. } => state is Running,
        Operation::Sleep(_) => false,
    }
}

/// Whether an operation waits to be started.
pub open spec fn op_deferred<H, R>(op: Operation<H, R>) -> bool {
    match op {
        Operation::Host(s) => s is Deferred,
        Operation::Http { state, .. } => state is Deferred,
        Operation::Sleep(_) => false,
    }
}

/// Whether an operation's result arrived (or, for a sleep, is due by construction).
pub open spec fn op_completed<H, R>(op: Operation<H, R>) -> bool {
    match op {
        Operation::Host(s) => s is Ready,
        Operation::Http { state, .. } => state is Ready,
        Operation::Sleep(d) => d.0 == DeadlineState::Ready,
    }
}

/// Number of handles.
pub open spec fn handle_space() -> int {
    0x1_0000_0000
}

/// How far `h` lies after `start`, counting cyclically through the handle space.
pub open spec fn handle_distance(start: u32, h: u32) -> int {
    (h as int - start as int + handle_space()) % handle_space()
}

/// The handle `k` steps after `start`, cyclically.
pub open spec fn handle_after(start: u32, k: int) -> u32 {
    ((start as int + k) % handle_space()) as u32
}

/// `h` is the first handle, from `start` on cyclically, that `used` does not hold.
pub open spec fn is_first_free(used: Set<u32>, start: u32, h: u32) -> bool {
    &&& !used.contains(h)
    &&& forall|j: int| 0 <= j < handle_distance(start, h) ==> used.contains(#[trigger] handle_after(start, j))
}

/// The `k` handles from `start` on, cyclically.
pub open spec fn cyclic_range(start: u32, k: int) -> Set<u32> {
    Set::new(|h: u32| handle_distance(start, h) < k)
}

/// `q` holds no handle twice.
pub open spec fn no_dups(q: Seq<u32>) -> bool {
    forall|i: int, j: int| 0 <= i < q.len() && 0 <= j < q.len() && i != j ==> q[i] != q[j]
}

/// The handles of `q` that `keep` holds, in order.
pub open spec fn keep_members(q: Seq<u32>, keep: Set<u32>) -> Seq<u32>
    decreases q.len(),
{
    if q.len() == 0 {
        Seq::empty()
    } else if keep.contains(q.last()) {
        keep_members(q.drop_last(), keep).push(q.last())
    } else {
        keep_members(q.drop_last(), keep)
    }
}

/// A ready queue without duplicates, in which every entry that is no longer
/// ready belongs to no operation of `dom`.
pub open spec fn clean_queue(q: Seq<u32>, members: Set<u32>, dom: Set<u32>) -> bool {
    &&& no_dups(q)
    &&& forall|i: int| 0 <= i < q.len() && !members.contains(#[trigger] q[i]) ==> !dom.contains(q[i])
}

/// Appending handles that newly became ready, each once, keeps a queue clean;
/// so does registering handles that the queue does not hold.
proof fn lemma_clean_extend(q: Seq<u32>, m: Set<u32>, d: Set<u32>, t: Seq<u32>, m2: Set<u32>, d2: Set<u32>)
    requires
        clean_queue(q, m, d),
        no_dups(t),
        m.subset_of(m2),
        forall|y: u32| #[trigger] d2.contains(y) && !d.contains(y) ==> !q.contains(y),
        forall|i: int| 0 <= i < t.len() ==> !m.contains(#[trigger] t[i]) && m2.contains(t[i]) && d2.contains(t[i]),
    ensures
        clean_queue(q + t, m2, d2),
{
    let s = q + t;
    assert forall|i: int, j: int| 0 <= i < s.len() && 0 <= j < s.len() && i != j implies s[i] != s[j] by {
        if i < q.len() && j < q.len() {
            assert(s[i] == q[i] && s[j] == q[j]);
        } else if i >= q.len() && j >= q.len() {
            assert(s[i] == t[i - q.len()] && s[j] == t[j - q.len()]);
        } else if i < q.len() {
            let y = t[j - q.len()];
            assert(s[j] == y && s[i] == q[i]);
            if q[i] == y {
                assert(!m.contains(q[i]));
                assert(q.contains(y));
            }
        } else {
            let y = t[i - q.len()];
            assert(s[i] == y && s[j] == q[j]);
            if q[j] == y {
                assert(!m.contains(q[j]));
                assert(q.contains(y));
            }
        }
    }
    assert forall|i: int| 0 <= i < s.len() && !m2.contains(#[trigger] s[i]) implies !d2.contains(s[i]) by {
        if i < q.len() {
            assert(s[i] == q[i]);
            assert(!m.contains(q[i]));
            assert(q.contains(q[i]));
        } else {
            assert(s[i] == t[i - q.len()]);
        }
    }
}

/// Removing a handle from the ready set and the registry keeps a queue clean.
proof fn lemma_clean_remove(q: Seq<u32>, m: Set<u32>, d: Set<u32>, h: u32)
    requires
        clean_queue(q, m, d),
    ensures
        clean_queue(q, m.remove(h), d.remove(h)),
{
}

/// Filtering by two sets that agree on the queue's entries gives the same queue.
proof fn lemma_keep_members_agree(q: Seq<u32>, a: Set<u32>, b: Set<u32>)
    requires
        forall|i: int| 0 <= i < q.len() ==> (a.contains(#[trigger] q[i]) <==> b.contains(q[i])),
    ensures
        keep_members(q, a) == keep_members(q, b),
    decreases q.len(),
{
    if q.len() > 0 {
        let p = q.drop_last();
        assert forall|i: int| 0 <= i < p.len() implies (a.contains(#[trigger] p[i]) <==> b.contains(p[i])) by {
            assert(p[i] == q[i]);
        }
        lemma_keep_members_agree(p, a, b);
        assert(a.contains(q[q.len() - 1]) <==> b.contains(q[q.len() - 1]));
    }
}

/// The members of a queue without duplicates form a clean queue.
proof fn lemma_keep_members_clean(q: Seq<u32>, keep: Set<u32>, d: Set<u32>)
    requires
        no_dups(q),
    ensures
        clean_queue(keep_members(q, keep), keep, d),
    decreases q.len(),
{
    if q.len() > 0 {
        let p = q.drop_last();
        assert forall|i: int, j: int| 0 <= i < p.len() && 0 <= j < p.len() && i != j implies p[i] != p[j] by {
            assert(p[i] == q[i] && p[j] == q[j]);
        }
        lemma_keep_members_clean(p, keep, d);
        lemma_keep_members_contains(p, keep);
        let k = keep_members(p, keep);
        if keep.contains(q.last()) {
            if p.contains(q.last()) {
                let i = choose|i: int| 0 <= i < p.len() && p[i] == q.last();
                assert(q[i] == q[q.len() - 1]);
            }
            assert(!k.contains(q.last()));
            let kk = k.push(q.last());
            assert forall|i: int, j: int| 0 <= i < kk.len() && 0 <= j < kk.len() && i != j implies kk[i] != kk[j] by {
                if i < k.len() && j < k.len() {
                    assert(kk[i] == k[i] && kk[j] == k[j]);
                } else if i < k.len() {
                    assert(kk[i] == k[i] && k.contains(k[i]));
                } else {
                    assert(kk[j] == k[j] && k.contains(k[j]));
                }
            }
            assert forall|i: int| 0 <= i < kk.len() && !keep.contains(#[trigger] kk[i]) implies !d.contains(kk[i]) by {
                if i < k.len() {
                    assert(kk[i] == k[i]);
                }
            }
        }
    }
}

/// The registry's invariant over the views of its parts.
pub open spec fn registry_inv<H, R>(
    ops: Map<u32, Operation<H, R>>,
    running: Set<u32>,
    deferred: Seq<u32>,
    ready: Seq<u32>,
    members: Set<u32>,
    deadlines: Seq<DeadlineEntry>,
) -> bool {
    &&& ops.dom().finite()
    &&& members.subset_of(ops.dom())
    &&& forall|h: u32| #[trigger] members.contains(h) ==> ready.contains(h)
    &&& forall|h: u32| #[trigger] running.contains(h) ==> ops.contains_key(h) && op_running(ops[h])
    &&& forall|h: u32|
        #[trigger] ops.contains_key(h) && op_deferred(ops[h]) ==> deferred.contains(h)
    &&& forall|h: u32|
        #[trigger] ops.contains_key(h) && op_completed(ops[h]) ==> members.contains(h)
    &&& forall|h: u32| #[trigger] ops.contains_key(h) && !members.contains(h) ==> sleep_tracked(ops[h], h, deadlines)
    &&& sorted_deadlines(deadlines)
}

/// The registry's invariant, except for what it asks of the handle `skip`
/// becoming ready.
pub open spec fn registry_inv_skip<H, R>(
    ops: Map<u32, Operation<H, R>>,
    running: Set<u32>,
    deferred: Seq<u32>,
    ready: Seq<u32>,
    members: Set<u32>,
    deadlines: Seq<DeadlineEntry>,
    skip: u32,
) -> bool {
    &&& ops.dom().finite()
    &&& members.subset_of(ops.dom())
    &&& forall|h: u32| #[trigger] members.contains(h) ==> ready.contains(h)
    &&& forall|h: u32| #[trigger] running.contains(h) ==> ops.contains_key(h) && op_running(ops[h])
    &&& forall|h: u32|
        #[trigger] ops.contains_key(h) && op_deferred(ops[h]) ==> deferred.contains(h)
    &&& forall|h: u32|
        #[trigger] ops.contains_key(h) && op_completed(ops[h]) && h != skip ==> members.contains(h)
    &&& forall|h: u32| #[trigger] ops.contains_key(h) && !members.contains(h) && h != skip ==> sleep_tracked(ops[h], h, deadlines)
    &&& sorted_deadlines(deadlines)
}

/// A sleep with a finite deadline has an entry for it in `deadlines`.
pub open spec fn sleep_tracked<H, R>(op: Operation<H, R>, h: u32, deadlines: Seq<DeadlineEntry>) -> bool {
    (op matches Operation::Sleep(d) && d.0 is At) ==> exists|i: int|
        0 <= i < deadlines.len() && #[trigger] deadlines[i].2 == h && op == Operation::<H, R>::Sleep(
            Deadline(DeadlineState::At(deadlines[i].0)),
        )
}

/// Deadline entries are ordered by clock reading.
pub open spec fn sorted_deadlines(deadlines: Seq<DeadlineEntry>) -> bool {
    forall|i: int, j: int| 0 <= i <= j < deadlines.len() ==> deadlines[i].0 <= deadlines[j].0
}

/// A deadline entry: clock reading, registration sequence, handle.
pub type DeadlineEntry = (u128, u64, u32);

/// The registry of pending operations.
pub struct Registry<H, R> {
    operations: HashMap<u32, Operation<H, R>>,
    /// Handles whose requests were started and may still be aborted.
    running: HashSet<u32>,
    /// Handles waiting to be started, in registration order.
    deferred: VecDeque<u32>,
    /// Handles in the order they became ready.
    ready: VecDeque<u32>,
    ready_members: HashSet<u32>,
    /// Finite sleep deadlines, ordered by clock reading.
    deadlines: Vec<DeadlineEntry>,
    next_handle: u32,
    next_sequence: u64,
    ready_generation: u64,
    /// Handles whose started requests were removed and must still be aborted.
    aborting: Vec<u32>,
}

impl<H, R> Registry<H, R> {
    /// The registered operations by handle.
    pub closed spec fn ops(&self) -> Map<u32, Operation<H, R>> {
        self.operations@
    }

    /// Handles that became ready, in order (some may have been consumed since).
    pub closed spec fn ready_queue(&self) -> Seq<u32> {
        self.ready@
    }

    /// Handles that are currently ready.
    pub closed spec fn ready_set(&self) -> Set<u32> {
        self.ready_members@
    }

    /// Handles whose requests were started and not completed.
    pub closed spec fn running_set(&self) -> Set<u32> {
        self.running@
    }

    /// Handles queued for starting.
    pub closed spec fn deferred_queue(&self) -> Seq<u32> {
        self.deferred@
    }

    /// Pending finite deadlines.
    pub closed spec fn deadline_entries(&self) -> Seq<DeadlineEntry> {
        self.deadlines@
    }

    /// Where the next handle search starts.
    pub closed spec fn next_handle(&self) -> u32 {
        self.next_handle
    }

    /// Handles whose started requests were removed by consuming or driving
    /// them, and must still be aborted.
    pub closed spec fn abort_queue(&self) -> Seq<u32> {
        self.aborting@
    }

    /// Bumped every time a handle becomes ready.
    pub closed spec fn generation(&self) -> u64 {
        self.ready_generation
    }

    /// The registry's invariant.
    pub closed spec fn wf(&self) -> bool {
        registry_inv(
            self.operations@,
            self.running@,
            self.deferred@,
            self.ready@,
            self.ready_members@,
            self.deadlines@,
        )
    }

    /// An empty registry.
    pub fn new() -> (r: Self)
        ensures
            r.wf(),
            clean_queue(r.ready_queue(), r.ready_set(), r.ops().dom()),
            r.ops() == Map::<u32, Operation<H, R>>::empty(),
            r.ready_queue() == Seq::<u32>::empty(),
            r.ready_set() == Set::<u32>::empty(),
            r.running_set() == Set::<u32>::empty(),
            r.deferred_queue() == Seq::<u32>::empty(),
            r.deadline_entries() == Seq::<DeadlineEntry>::empty(),
            r.next_handle() == 0,
            r.abort_queue() == Seq::<u32>::empty(),
    {
        Registry {
            operations: HashMap::new(),
            running: HashSet::new(),
            deferred: VecDeque::new(),
            ready: VecDeque::new(),
            ready_members: HashSet::new(),
            deadlines: Vec::new(),
            next_handle: 0,
            next_sequence: 0,
            ready_generation: 0,
            aborting: Vec::new(),
        }
    }

    /// The first unused handle from `next_handle` on, cyclically; the search
    /// then continues after it.
    fn allocate_handle(&mut self) -> (h: u32)
        requires
            old(self).wf(),
            old(self).operations@.dom().len() < handle_space(),
        ensures
            final(self).wf(),
            is_first_free(old(self).operations@.dom(), old(self).next_handle, h),
            final(self).next_handle == handle_after(h, 1),
            final(self).operations@ == old(self).operations@,
            final(self).running@ == old(self).running@,
            final(self).deferred@ == old(self).deferred@,
            final(self).ready@ == old(self).ready@,
            final(self).ready_members@ == old(self).ready_members@,
            final(self).deadlines@ == old(self).deadlines@,
            final(self).next_sequence == old(self).next_sequence,
            final(self).ready_generation == old(self).ready_generation,
    {
        let start = self.next_handle;
        let ghost used = self.operations@.dom();
        let ghost mut k: int = 0;
        proof {
            lemma_cyclic_range_len(start, 0);
        }
        loop
            invariant
                self.wf(),
                self.operations@.dom() == used,
                used.finite(),
                used.len() < handle_space(),
                0 <= k <= used.len(),
                self.next_handle == handle_after(start, k),
                cyclic_range(start, k).subset_of(used),
                cyclic_range(start, k).len() == k,
                cyclic_range(start, k).finite(),
                self.operations@ == old(self).operations@,
                self.running@ == old(self).running@,
                self.deferred@ == old(self).deferred@,
                self.ready@ == old(self).ready@,
                self.ready_members@ == old(self).ready_members@,
                self.deadlines@ == old(self).deadlines@,
                self.next_sequence == old(self).next_sequence,
                self.ready_generation == old(self).ready_generation,
                start == old(self).next_handle,
            decreases handle_space() - k,
        {
            let handle = self.next_handle;
            self.next_handle = if self.next_handle == u32::MAX {
                0
            } else {
                self.next_handle + 1
            };
            proof {
                lemma_handle_after_step(start, k);
                lemma_handle_distance_of_after(start, k);
            }
            if !self.operations.contains_key(&handle) {
                proof {
                    assert forall|j: int| 0 <= j < handle_distance(start, handle) implies used.contains(
                        #[trigger] handle_after(start, j),
                    ) by {
                        lemma_handle_distance_of_after(start, j);
                        assert(cyclic_range(start, k).contains(handle_after(start, j)));
                    }
                    lemma_handle_after_one(handle);
                }
                return handle;
            }
            proof {
                lemma_cyclic_range_len(start, k + 1);
                assert(cyclic_range(start, k + 1).subset_of(used)) by {
                    assert forall|x: u32| cyclic_range(start, k + 1).contains(x) implies used.contains(
                        x,
                    ) by {
                        if handle_distance(start, x) == k {
                            lemma_handle_after_of_distance(start, x);
                        } else {
                            assert(cyclic_range(start, k).contains(x));
                        }
                    }
                }
                lemma_len_subset(cyclic_range(start, k + 1), used);
                k = k + 1;
            }
        }
    }
}

impl<H, R> Registry<H, R> {
    /// Record that `handle` became ready, once, if it is registered.
    fn mark_ready(&mut self, handle: u32)
        requires
            registry_inv_skip(
                old(self).operations@,
                old(self).running@,
                old(self).deferred@,
                old(self).ready@,
                old(self).ready_members@,
                old(self).deadlines@,
                handle,
            ),
        ensures
            old(self).operations@.contains_key(handle) ==> final(self).wf(),
            final(self).operations@ == old(self).operations@,
            final(self).running@ == old(self).running@,
            final(self).deferred@ == old(self).deferred@,
            final(self).deadlines@ == old(self).deadlines@,
            final(self).next_handle == old(self).next_handle,
            final(self).next_sequence == old(self).next_sequence,
            final(self).ready_members@ == (if old(self).operations@.contains_key(handle) {
                old(self).ready_members@.insert(handle)
            } else {
                old(self).ready_members@
            }),
            final(self).ready@ == (if old(self).operations@.contains_key(handle)
                && !old(self).ready_members@.contains(handle) {
                old(self).ready@.push(handle)
            } else {
                old(self).ready@
            }),
            !(old(self).operations@.contains_key(handle) && !old(self).ready_members@.contains(handle))
                ==> final(self).ready_generation == old(self).ready_generation,
    {
        if self.operations.contains_key(&handle) && self.ready_members.insert(handle) {
            self.ready.push_back(handle);
            self.ready_generation = self.ready_generation.wrapping_add(1);
            proof {
                assert forall|h: u32| #[trigger] self.ready_members@.contains(h) implies self.ready@.contains(h) by {
                    if h != handle {
                        assert(old(self).ready@.contains(h));
                        let i = choose|i: int| 0 <= i < old(self).ready@.len() && old(self).ready@[i] == h;
                        assert(self.ready@[i] == h);
                    } else {
                        assert(self.ready@[self.ready@.len() - 1] == h);
                    }
                }
                assert forall|h: u32| #[trigger] self.operations@.contains_key(h) && !self.ready_members@.contains(h) implies sleep_tracked(self.operations@[h], h, self.deadlines@) by {
                    assert(!old(self).ready_members@.contains(h));
                }
            }
        }
    }

    /// Pop due and stale deadline entries; every due sleep becomes ready.
    fn refresh_deadlines(&mut self, now: u64)
        requires
            old(self).wf(),
        ensures
            final(self).wf(),
            final(self).operations@ == old(self).operations@,
            final(self).running@ == old(self).running@,
            final(self).deferred@ == old(self).deferred@,
            final(self).next_handle == old(self).next_handle,
            final(self).next_sequence == old(self).next_sequence,
            old(self).ready_members@.subset_of(final(self).ready_members@),
            old(self).ready@.len() <= final(self).ready@.len(),
            final(self).ready@.subrange(0, old(self).ready@.len() as int) == old(self).ready@,
            old(self).deadlines@.len() == 0 ==> final(self).ready@ == old(self).ready@
                && final(self).ready_members@ == old(self).ready_members@,
            forall|i: int|
                old(self).ready@.len() <= i < final(self).ready@.len() ==> {
                    &&& !old(self).ready_members@.contains(#[trigger] final(self).ready@[i])
                    &&& final(self).ready_members@.contains(final(self).ready@[i])
                    &&& sleep_due(final(self).operations@[final(self).ready@[i]], now)
                },
            forall|h: u32|
                #[trigger] final(self).ready_members@.contains(h) && !old(self).ready_members@.contains(h)
                    ==> final(self).ready@.subrange(old(self).ready@.len() as int, final(self).ready@.len() as int).contains(h),
            forall|h: u32|
                #[trigger] final(self).operations@.contains_key(h) && sleep_due(final(self).operations@[h], now)
                    ==> final(self).ready_members@.contains(h),
            forall|i: int| 0 <= i < final(self).deadlines@.len() ==> #[trigger] final(self).deadlines@[i].0 > now,
            no_dups(final(self).ready@.subrange(old(self).ready@.len() as int, final(self).ready@.len() as int)),
            clean_queue(old(self).ready@, old(self).ready_members@, old(self).operations@.dom()) ==> clean_queue(
                final(self).ready@,
                final(self).ready_members@,
                final(self).operations@.dom(),
            ),
            final(self).deadlines@.len() > 0 ==> final(self).operations@.contains_key(final(self).deadlines@[0].2)
                && sleep_at(final(self).operations@[final(self).deadlines@[0].2]) == Some(final(self).deadlines@[0].0),
            (forall|h: u32| #[trigger] old(self).operations@.contains_key(h) && sleep_due(old(self).operations@[h], now)
                ==> old(self).ready_members@.contains(h)) ==> final(self).ready_generation == old(self).ready_generation,
    {
        let ghost q0 = self.ready@;
        let ghost m0 = self.ready_members@;
        let ghost due_ready = forall|h: u32| #[trigger] old(self).operations@.contains_key(h) && sleep_due(
            old(self).operations@[h],
            now,
        ) ==> old(self).ready_members@.contains(h);
        while self.deadlines.len() > 0
            invariant
                self.wf(),
                self.operations@ == old(self).operations@,
                self.running@ == old(self).running@,
                self.deferred@ == old(self).deferred@,
                self.next_handle == old(self).next_handle,
                self.next_sequence == old(self).next_sequence,
                q0 == old(self).ready@,
                m0 == old(self).ready_members@,
                m0.subset_of(self.ready_members@),
                self.ready@.subrange(0, q0.len() as int) == q0,
                q0.len() <= self.ready@.len(),
                no_dups(self.ready@.subrange(q0.len() as int, self.ready@.len() as int)),
                forall|i: int|
                    q0.len() <= i < self.ready@.len() ==> {
                        &&& !m0.contains(#[trigger] self.ready@[i])
                        &&& self.ready_members@.contains(self.ready@[i])
                        &&& sleep_due(self.operations@[self.ready@[i]], now)
                    },
                forall|h: u32|
                    #[trigger] self.ready_members@.contains(h) && !m0.contains(h)
                        ==> self.ready@.subrange(q0.len() as int, self.ready@.len() as int).contains(h),
                old(self).deadlines@.len() == 0 ==> self.ready@ == q0 && self.ready_members@ == m0,
                self.deadlines@.len() <= old(self).deadlines@.len(),
                due_ready == (forall|h: u32| #[trigger] old(self).operations@.contains_key(h) && sleep_due(
                    old(self).operations@[h],
                    now,
                ) ==> old(self).ready_members@.contains(h)),
                due_ready ==> self.ready_generation == old(self).ready_generation && self.ready_members@ == m0,
            ensures
                self.wf(),
                self.operations@ == old(self).operations@,
                self.running@ == old(self).running@,
                self.deferred@ == old(self).deferred@,
                self.next_handle == old(self).next_handle,
                self.next_sequence == old(self).next_sequence,
                m0.subset_of(self.ready_members@),
                self.ready@.subrange(0, q0.len() as int) == q0,
                q0.len() <= self.ready@.len(),
                no_dups(self.ready@.subrange(q0.len() as int, self.ready@.len() as int)),
                forall|i: int|
                    q0.len() <= i < self.ready@.len() ==> {
                        &&& !m0.contains(#[trigger] self.ready@[i])
                        &&& self.ready_members@.contains(self.ready@[i])
                        &&& sleep_due(self.operations@[self.ready@[i]], now)
                    },
                forall|h: u32|
                    #[trigger] self.ready_members@.contains(h) && !m0.contains(h)
                        ==> self.ready@.subrange(q0.len() as int, self.ready@.len() as int).contains(h),
                self.deadlines@.len() == 0 || self.deadlines@[0].0 > now,
                self.deadlines@.len() > 0 ==> self.operations@.contains_key(self.deadlines@[0].2)
                    && sleep_at(self.operations@[self.deadlines@[0].2]) == Some(self.deadlines@[0].0),
                old(self).deadlines@.len() == 0 ==> self.ready@ == q0 && self.ready_members@ == m0,
                due_ready ==> self.ready_generation == old(self).ready_generation,
            decreases self.deadlines@.len(),
        {
            let entry = self.deadlines[0];
            let ready_at = entry.0;
            let handle = entry.2;
            let active = match self.operations.get(&handle) {
                Some(Operation::Sleep(deadline)) => deadline.ready_at() == Some(ready_at),
                _ => false,
            };
            if !active {
                let ghost before = self.deadlines@;
                self.deadlines.remove(0);
                proof {
                    lemma_drop_front_keeps_tracking(self.operations@, self.ready_members@, before, self.deadlines@);
                }
                continue;
            }
            if ready_at > now as u128 {
                proof {
                    assert(self.deadlines@[0].2 == handle && self.deadlines@[0].0 == ready_at);
                }
                break;
            }
            let ghost r1 = self.ready@;
            let ghost mem1 = self.ready_members@;
            self.mark_ready(handle);
            let ghost before = self.deadlines@;
            self.deadlines.remove(0);
            proof {
                assert(self.ready_members@ == mem1.insert(handle));
                lemma_drop_front_keeps_tracking_except(self.operations@, mem1, before, self.deadlines@, handle);
            }
            proof {
                assert(sleep_due(self.operations@[handle], now));
                if !mem1.contains(handle) {
                    assert(self.ready@ == r1.push(handle));
                    let t1 = r1.subrange(q0.len() as int, r1.len() as int);
                    let t2 = self.ready@.subrange(q0.len() as int, self.ready@.len() as int);
                    assert(t2 =~= t1.push(handle));
                    assert forall|a: int, b: int| 0 <= a < t2.len() && 0 <= b < t2.len() && a != b implies t2[a] != t2[b] by {
                        if a < t1.len() && b < t1.len() {
                            assert(t2[a] == t1[a] && t2[b] == t1[b]);
                        } else if a < t1.len() {
                            assert(t2[a] == r1[q0.len() + a]);
                            assert(mem1.contains(r1[q0.len() + a]));
                        } else {
                            assert(t2[b] == r1[q0.len() + b]);
                            assert(mem1.contains(r1[q0.len() + b]));
                        }
                    }
                    assert(self.ready@.subrange(0, q0.len() as int) =~= r1.subrange(0, q0.len() as int));
                    assert forall|h: u32| #[trigger] self.ready_members@.contains(h) && !m0.contains(h)
                        implies self.ready@.subrange(q0.len() as int, self.ready@.len() as int).contains(h) by {
                        let tail = self.ready@.subrange(q0.len() as int, self.ready@.len() as int);
                        if h == handle {
                            assert(tail[tail.len() - 1] == h);
                        } else {
                            let t1 = r1.subrange(q0.len() as int, r1.len() as int);
                            assert(t1.contains(h));
                            let i = choose|i: int| 0 <= i < t1.len() && t1[i] == h;
                            assert(tail[i] == h);
                        }
                    }
                }
            }
        }
        proof {
            if self.deadlines@.len() > 0 {
                assert forall|i: int| 0 <= i < self.deadlines@.len() implies #[trigger] self.deadlines@[i].0 > now by {
                    assert(self.deadlines@[0].0 <= self.deadlines@[i].0);
                }
            }
            assert forall|h: u32| #[trigger] self.operations@.contains_key(h) && sleep_due(self.operations@[h], now)
                implies self.ready_members@.contains(h) by {
                if !self.ready_members@.contains(h) {
                    assert(sleep_tracked(self.operations@[h], h, self.deadlines@));
                    let i = choose|i: int| 0 <= i < self.deadlines@.len() && #[trigger] self.deadlines@[i].2 == h
                        && self.operations@[h] == Operation::<H, R>::Sleep(Deadline(DeadlineState::At(self.deadlines@[i].0)));
                    assert(self.deadlines@[0].0 <= self.deadlines@[i].0);
                }
            }
        }
        proof {
            let t = self.ready@.subrange(q0.len() as int, self.ready@.len() as int);
            assert(self.ready@ =~= q0 + t);
            if clean_queue(q0, m0, self.operations@.dom()) {
                assert forall|i: int| 0 <= i < t.len() implies !m0.contains(#[trigger] t[i]) && self.ready_members@.contains(t[i])
                    && self.operations@.dom().contains(t[i]) by {
                    assert(t[i] == self.ready@[q0.len() + i]);
                }
                lemma_clean_extend(q0, m0, self.operations@.dom(), t, self.ready_members@, self.operations@.dom());
            }
        }
    }
}

impl<H, R> Registry<H, R> {
    /// Queue a finite deadline entry after every entry that is not later.
    fn insert_deadline(&mut self, entry: DeadlineEntry)
        requires
            sorted_deadlines(old(self).deadlines@),
        ensures
            sorted_deadlines(final(self).deadlines@),
            exists|p: int| 0 <= p <= old(self).deadlines@.len() && final(self).deadlines@
                == old(self).deadlines@.insert(p, entry),
            final(self).operations@ == old(self).operations@,
            final(self).running@ == old(self).running@,
            final(self).deferred@ == old(self).deferred@,
            final(self).ready@ == old(self).ready@,
            final(self).ready_members@ == old(self).ready_members@,
            final(self).next_handle == old(self).next_handle,
            final(self).next_sequence == old(self).next_sequence,
    {
        let mut pos: usize = 0;
        while pos < self.deadlines.len() && self.deadlines[pos].0 <= entry.0
            invariant
                pos <= self.deadlines@.len(),
                forall|i: int| 0 <= i < pos ==> #[trigger] self.deadlines@[i].0 <= entry.0,
                self.deadlines@ == old(self).deadlines@,
            decreases self.deadlines@.len() - pos,
        {
            pos = pos + 1;
        }
        let ghost before = self.deadlines@;
        self.deadlines.insert(pos, entry);
        proof {
            let after = self.deadlines@;
            assert forall|i: int, j: int| 0 <= i <= j < after.len() implies after[i].0 <= after[j].0 by {
                if pos < before.len() {
                    assert(entry.0 < before[pos as int].0);
                }
                if i < pos && j > pos {
                    assert(before[i].0 <= before[j - 1].0);
                } else if i > pos {
                    assert(before[i - 1].0 <= before[j - 1].0);
                } else if i == pos && j > pos {
                    assert(before[pos as int].0 <= before[j - 1].0);
                } else if j < pos {
                    assert(before[i].0 <= before[j].0);
                }
            }
        }
    }

    /// Register an operation under a fresh handle.
    fn insert(&mut self, operation: Operation<H, R>, now: u64) -> (handle: u32)
        requires
            old(self).wf(),
            operation is Sleep || op_deferred(operation),
            old(self).operations@.dom().len() < handle_space(),
        ensures
            final(self).wf(),
            is_first_free(old(self).operations@.dom(), old(self).next_handle, handle),
            final(self).next_handle == handle_after(handle, 1),
            final(self).operations@ == old(self).operations@.insert(handle, operation),
            final(self).running@ == old(self).running@,
            final(self).deferred@ == (if op_deferred(operation) {
                old(self).deferred@.push(handle)
            } else {
                old(self).deferred@
            }),
            !(operation matches Operation::Sleep(d) && d.0 is At) ==> final(self).ready@ == (
            if operation is Sleep {
                old(self).ready@.push(handle)
            } else {
                old(self).ready@
            }) && final(self).ready_members@ == (if operation is Sleep {
                old(self).ready_members@.insert(handle)
            } else {
                old(self).ready_members@
            }),
            old(self).ready_members@.subset_of(final(self).ready_members@),
            final(self).ready@.subrange(0, old(self).ready@.len() as int) == old(self).ready@,
            clean_queue(old(self).ready@, old(self).ready_members@, old(self).operations@.dom()) && !old(self).ready@.contains(
                handle,
            ) ==> clean_queue(final(self).ready@, final(self).ready_members@, final(self).operations@.dom()),
            (operation matches Operation::Sleep(d) && d.0 is At) ==> forall|h: u32|
                #[trigger] final(self).ready_members@.contains(h) && !old(self).ready_members@.contains(h)
                    ==> sleep_due(final(self).operations@[h], now),
    {
        let ghost op0 = operation;
        let ghost q0 = self.ready@;
        let ghost m0 = self.ready_members@;
        let ghost dom0 = self.operations@.dom();
        let handle = self.allocate_handle();
        let deferred = match &operation {
            Operation::Host(state) => match state {
                State::Deferred(_) => true,
                _ => false,
            },
            Operation::Http { state, .. } => match state {
                State::Deferred(_) => true,
                _ => false,
            },
            Operation::Sleep(_) => false,
        };
        let deadline = match &operation {
            Operation::Sleep(deadline) => Some(*deadline),
            _ => None,
        };
        let ghost old_ops = self.operations@;
        self.operations.insert(handle, operation);
        proof {
            assert(!self.ready_members@.contains(handle));
            assert(!self.running@.contains(handle));
        }
        if deferred {
            self.deferred.push_back(handle);
        }
        proof {
            assert forall|h: u32| #[trigger] self.operations@.contains_key(h) && op_deferred(self.operations@[h])
                implies self.deferred@.contains(h) by {
                if h == handle {
                    assert(self.deferred@[self.deferred@.len() - 1] == h);
                } else {
                    assert(old(self).deferred@.contains(h));
                    let i = choose|i: int| 0 <= i < old(self).deferred@.len() && old(self).deferred@[i] == h;
                    assert(self.deferred@[i] == h);
                }
            }
        }
        match deadline {
            Some(deadline) => {
                match deadline.ready_at() {
                    Some(ready_at) => {
                        let sequence = self.next_sequence;
                        self.next_sequence = self.next_sequence.wrapping_add(1);
                        let ghost d0 = self.deadlines@;
                        self.insert_deadline((ready_at, sequence, handle));
                        proof {
                            let d1 = self.deadlines@;
                            let p = choose|p: int| 0 <= p <= d0.len() && d1 == d0.insert(p, (ready_at, sequence, handle));
                            assert forall|h: u32| #[trigger] self.operations@.contains_key(h) && !self.ready_members@.contains(h)
                                implies sleep_tracked(self.operations@[h], h, d1) by {
                                if h == handle {
                                    assert(d1[p].2 == h);
                                } else if self.operations@[h] matches Operation::Sleep(d) && d.0 is At {
                                    assert(sleep_tracked(old_ops[h], h, d0));
                                    let i = choose|i: int| 0 <= i < d0.len() && #[trigger] d0[i].2 == h
                                        && old_ops[h] == Operation::<H, R>::Sleep(Deadline(DeadlineState::At(d0[i].0)));
                                    if i < p {
                                        assert(d1[i] == d0[i]);
                                    } else {
                                        assert(d1[i + 1] == d0[i]);
                                    }
                                }
                            }
                        }
                        proof {
                            if clean_queue(q0, m0, dom0) && !q0.contains(handle) {
                                lemma_clean_extend(q0, m0, dom0, Seq::empty(), self.ready_members@, self.operations@.dom());
                                assert(q0 + Seq::<u32>::empty() =~= q0);
                            }
                        }
                        let ghost q1 = self.ready@;
                        self.refresh_deadlines(now);
                        proof {
                            assert forall|h: u32| #[trigger] self.ready_members@.contains(h) && !m0.contains(h)
                                implies sleep_due(self.operations@[h], now) by {
                                let t = self.ready@.subrange(q1.len() as int, self.ready@.len() as int);
                                assert(t.contains(h));
                                let j = choose|j: int| 0 <= j < t.len() && t[j] == h;
                                assert(self.ready@[q1.len() + j] == h);
                            }
                        }
                    },
                    None => {
                        // a deadline that is ready now (or never) is queued at once
                        if self.ready_members.insert(handle) {
                            self.ready.push_back(handle);
                            self.ready_generation = self.ready_generation.wrapping_add(1);
                        }
                        proof {
                            assert(self.ready@[self.ready@.len() - 1] == handle);
                            assert forall|h: u32| #[trigger] self.ready_members@.contains(h) implies self.ready@.contains(h) by {
                                if h != handle {
                                    assert(old(self).ready@.contains(h));
                                    let i = choose|i: int| 0 <= i < old(self).ready@.len() && old(self).ready@[i] == h;
                                    assert(self.ready@[i] == h);
                                }
                            }
                        }
                    },
                }
            },
            None => {},
        }
        proof {
            if !(op0 matches Operation::Sleep(d) && d.0 is At) && clean_queue(q0, m0, dom0) && !q0.contains(handle) {
                if op0 is Sleep {
                    lemma_clean_extend(q0, m0, dom0, seq![handle], self.ready_members@, self.operations@.dom());
                    assert(q0 + seq![handle] =~= self.ready@);
                } else {
                    lemma_clean_extend(q0, m0, dom0, Seq::empty(), self.ready_members@, self.operations@.dom());
                    assert(q0 + Seq::<u32>::empty() =~= self.ready@);
                }
            }
        }
        handle
    }

    /// Drop the handles that are no longer ready from the ready queue.
    fn refresh_ready(&mut self, now: u64)
        requires
            old(self).wf(),
        ensures
            final(self).wf(),
            final(self).operations@ == old(self).operations@,
            final(self).running@ == old(self).running@,
            final(self).deferred@ == old(self).deferred@,
            final(self).next_handle == old(self).next_handle,
            final(self).next_sequence == old(self).next_sequence,
            old(self).ready_members@.subset_of(final(self).ready_members@),
            forall|h: u32| #[trigger] final(self).ready@.contains(h) <==> final(self).ready_members@.contains(h),
            forall|h: u32|
                #[trigger] final(self).ready_members@.contains(h) && !old(self).ready_members@.contains(h)
                    ==> sleep_due(final(self).operations@[h], now),
            forall|h: u32|
                #[trigger] final(self).operations@.contains_key(h) && (sleep_due(final(self).operations@[h], now) || op_completed(final(self).operations@[h]))
                    ==> final(self).ready_members@.contains(h),
            exists|tail: Seq<u32>| {
                &&& final(self).ready@ == keep_members(old(self).ready@ + tail, final(self).ready_members@)
                &&& forall|i: int| 0 <= i < tail.len() ==> !old(self).ready_members@.contains(#[trigger] tail[i])
            },
            old(self).deadlines@.len() == 0 ==> final(self).ready_members@ == old(self).ready_members@
                && final(self).ready@ == keep_members(old(self).ready@, old(self).ready_members@),
            (forall|h: u32| #[trigger] old(self).operations@.contains_key(h) && sleep_due(old(self).operations@[h], now)
                ==> old(self).ready_members@.contains(h)) ==> final(self).ready_generation == old(self).ready_generation,
            clean_queue(old(self).ready@, old(self).ready_members@, old(self).operations@.dom()) ==> clean_queue(
                final(self).ready@,
                final(self).ready_members@,
                final(self).operations@.dom(),
            ),
    {
        let ghost q_old = self.ready@;
        self.refresh_deadlines(now);
        let ghost q_mid = self.ready@;
        let ghost tail = q_mid.subrange(q_old.len() as int, q_mid.len() as int);
        proof {
            assert(q_mid =~= q_old + tail);
            if old(self).deadlines@.len() == 0 {
                assert(q_mid == q_old);
            }
        }
        let mut kept: VecDeque<u32> = VecDeque::new();
        let mut i: usize = 0;
        while i < self.ready.len()
            invariant
                i <= self.ready@.len(),
                self.ready@ == q_mid,
                kept@ == keep_members(q_mid.take(i as int), self.ready_members@),
            decreases self.ready@.len() - i,
        {
            let h = self.ready[i];
            proof {
                assert(q_mid.take(i + 1).drop_last() =~= q_mid.take(i as int));
            }
            if self.ready_members.contains(&h) {
                kept.push_back(h);
            }
            i = i + 1;
        }
        proof {
            assert(q_mid.take(i as int) =~= q_mid);
            lemma_keep_members_contains(q_mid, self.ready_members@);
            if clean_queue(q_old, old(self).ready_members@, old(self).operations@.dom()) {
                lemma_keep_members_clean(q_mid, self.ready_members@, self.operations@.dom());
            }
        }
        self.ready = kept;
        proof {
            assert forall|h: u32| #[trigger] self.ready_members@.contains(h) && !old(self).ready_members@.contains(h)
                implies sleep_due(self.operations@[h], now) by {
                let t = q_mid.subrange(q_old.len() as int, q_mid.len() as int);
                assert(t.contains(h));
                let j = choose|j: int| 0 <= j < t.len() && t[j] == h;
                assert(q_mid[q_old.len() + j] == h);
            }
            assert forall|k: int| 0 <= k < tail.len() implies !old(self).ready_members@.contains(#[trigger] tail[k]) by {
                assert(tail[k] == q_mid[q_old.len() + k]);
            }
        }
    }

    /// Every ready handle, in the order the handles became ready.
    fn ready_handles(&mut self, now: u64) -> (handles: Vec<u32>)
        requires
            old(self).wf(),
        ensures
            final(self).wf(),
            handles@ == final(self).ready@,
            final(self).operations@ == old(self).operations@,
            final(self).running@ == old(self).running@,
            final(self).deferred@ == old(self).deferred@,
            final(self).next_handle == old(self).next_handle,
            old(self).ready_members@.subset_of(final(self).ready_members@),
            forall|h: u32| #[trigger] handles@.contains(h) <==> final(self).ready_members@.contains(h),
            forall|h: u32|
                #[trigger] final(self).ready_members@.contains(h) && !old(self).ready_members@.contains(h)
                    ==> sleep_due(final(self).operations@[h], now),
            forall|h: u32|
                #[trigger] final(self).operations@.contains_key(h) && (sleep_due(final(self).operations@[h], now) || op_completed(final(self).operations@[h]))
                    ==> final(self).ready_members@.contains(h),
            exists|tail: Seq<u32>| {
                &&& handles@ == keep_members(old(self).ready@ + tail, final(self).ready_members@)
                &&& forall|i: int| 0 <= i < tail.len() ==> !old(self).ready_members@.contains(#[trigger] tail[i])
            },
            old(self).deadlines@.len() == 0 ==> handles@ == keep_members(old(self).ready@, old(self).ready_members@),
            clean_queue(old(self).ready@, old(self).ready_members@, old(self).operations@.dom()) ==> clean_queue(
                final(self).ready@,
                final(self).ready_members@,
                final(self).operations@.dom(),
            ),
    {
        self.refresh_ready(now);
        let mut out: Vec<u32> = Vec::new();
        let mut i: usize = 0;
        while i < self.ready.len()
            invariant
                i <= self.ready@.len(),
                out@ == self.ready@.take(i as int),
            decreases self.ready@.len() - i,
        {
            out.push(self.ready[i]);
            proof {
                assert(self.ready@.take(i + 1) =~= self.ready@.take(i as int).push(self.ready@[i as int]));
            }
            i = i + 1;
        }
        proof {
            assert(self.ready@.take(i as int) =~= self.ready@);
        }
        out
    }

    /// The earliest pending finite deadline, after due sleeps became ready.
    fn next_deadline(&mut self, now: u64) -> (next: Option<u128>)
        requires
            old(self).wf(),
        ensures
            final(self).wf(),
            final(self).operations@ == old(self).operations@,
            final(self).running@ == old(self).running@,
            final(self).deferred@ == old(self).deferred@,
            final(self).next_handle == old(self).next_handle,
            old(self).ready_members@.subset_of(final(self).ready_members@),
            forall|h: u32|
                #[trigger] final(self).operations@.contains_key(h) && sleep_due(final(self).operations@[h], now)
                    ==> final(self).ready_members@.contains(h),
            next matches Some(t) ==> t > now,
            next matches Some(t) ==> forall|h: u32| #[trigger] final(self).operations@.contains_key(h)
                && !final(self).ready_members@.contains(h) && sleep_at(final(self).operations@[h]) is Some
                ==> t <= sleep_at(final(self).operations@[h]).unwrap(),
            next is None ==> forall|h: u32| #[trigger] final(self).operations@.contains_key(h)
                && !final(self).ready_members@.contains(h) ==> !(final(self).operations@[h] matches Operation::Sleep(d) && d.0 is At),
            next is None <==> final(self).deadlines@.len() == 0,
            next matches Some(t) ==> t == final(self).deadlines@[0].0,
            clean_queue(old(self).ready@, old(self).ready_members@, old(self).operations@.dom()) ==> clean_queue(
                final(self).ready@,
                final(self).ready_members@,
                final(self).operations@.dom(),
            ),
            next matches Some(t) ==> exists|h: u32| #[trigger] final(self).operations@.contains_key(h)
                && sleep_at(final(self).operations@[h]) == Some(t),
            forall|h: u32|
                #[trigger] final(self).ready_members@.contains(h) && !old(self).ready_members@.contains(h)
                    ==> sleep_due(final(self).operations@[h], now),
            (forall|h: u32| #[trigger] old(self).operations@.contains_key(h) && sleep_due(old(self).operations@[h], now)
                ==> old(self).ready_members@.contains(h)) ==> final(self).ready_generation == old(self).ready_generation,
    {
        let ghost q0 = self.ready@;
        self.refresh_deadlines(now);
        proof {
            assert forall|h: u32| #[trigger] self.ready_members@.contains(h) && !old(self).ready_members@.contains(h)
                implies sleep_due(self.operations@[h], now) by {
                let t = self.ready@.subrange(q0.len() as int, self.ready@.len() as int);
                assert(t.contains(h));
                let j = choose|j: int| 0 <= j < t.len() && t[j] == h;
                assert(self.ready@[q0.len() + j] == h);
            }
        }
        if self.deadlines.len() == 0 {
            None
        } else {
            proof {
                let w = self.deadlines@[0].2;
                assert(self.operations@.contains_key(w) && sleep_at(self.operations@[w]) == Some(self.deadlines@[0].0));
                assert forall|h: u32| #[trigger] self.operations@.contains_key(h)
                    && !self.ready_members@.contains(h) && sleep_at(self.operations@[h]) is Some
                    implies self.deadlines@[0].0 <= sleep_at(self.operations@[h]).unwrap() by {
                    assert(sleep_tracked(self.operations@[h], h, self.deadlines@));
                    let i = choose|i: int| 0 <= i < self.deadlines@.len() && #[trigger] self.deadlines@[i].2 == h
                        && self.operations@[h] == Operation::<H, R>::Sleep(Deadline(DeadlineState::At(self.deadlines@[i].0)));
                    assert(self.deadlines@[0].0 <= self.deadlines@[i].0);
                }
            }
            Some(self.deadlines[0].0)
        }
    }
}

/// The operation once its deferred request was started.
pub open spec fn started_op<H, R>(op: Operation<H, R>) -> Operation<H, R> {
    match op {
        Operation::Host(State::Deferred(_)) => Operation::Host(State::Running),
        Operation::Http { request_url, state: State::Deferred(_) } => Operation::Http {
            request_url,
            state: State::Running,
        },
        _ => op,
    }
}

/// The request a deferred operation waits to perform.
pub open spec fn deferred_request<H, R>(op: Operation<H, R>) -> Option<Request<H>> {
    match op {
        Operation::Host(State::Deferred(q)) => Some(Request::Host(q)),
        Operation::Http { state: State::Deferred(q), .. } => Some(Request::Http(q)),
        _ => None,
    }
}

/// The operation once `response` arrived for it (unchanged if the kinds differ).
pub open spec fn completed_op<H, R>(op: Operation<H, R>, response: Response<R>) -> Operation<H, R> {
    match (op, response) {
        (Operation::Host(_), Response::Host(r)) => Operation::Host(State::Ready(r)),
        (Operation::Http { request_url, .. }, Response::Http(r)) => Operation::Http {
            request_url,
            state: State::Ready(r),
        },
        _ => op,
    }
}

/// Whether `response` is of the kind `op` waits for.
pub open spec fn response_fits<H, R>(op: Operation<H, R>, response: Response<R>) -> bool {
    match (op, response) {
        (Operation::Host(_), Response::Host(_)) => true,
        (Operation::Http { .. }, Response::Http(_)) => true,
        _ => false,
    }
}

impl<H, R> Operation<H, R> {
    /// Whether the operation can be consumed without blocking at clock reading `now`.
    pub fn is_ready(&self, now: u64) -> (b: bool)
        ensures
            b == op_ready(*self, now),
    {
        match self {
            Operation::Host(state) => match state {
                State::Ready(_) => true,
                _ => false,
            },
            Operation::Http { state, .. } => match state {
                State::Ready(_) => true,
                _ => false,
            },
            Operation::Sleep(deadline) => deadline.is_ready_at(now),
        }
    }
}

impl<H, R> Registry<H, R> {
    /// Start every deferred request: each becomes running and is handed out,
    /// in registration order, to be performed.
    fn start_deferred(&mut self) -> (started: Vec<(u32, Request<H>)>)
        requires
            old(self).wf(),
        ensures
            final(self).wf(),
            final(self).deferred@ == Seq::<u32>::empty(),
            final(self).operations@.dom() == old(self).operations@.dom(),
            forall|h: u32| #[trigger] old(self).operations@.contains_key(h) ==> final(self).operations@[h]
                == started_op(old(self).operations@[h]),
            final(self).running@ == old(self).running@.union(
                Set::new(|h: u32| old(self).operations@.contains_key(h) && op_deferred(old(self).operations@[h])),
            ),
            forall|i: int| 0 <= i < started@.len() ==> {
                let h = (#[trigger] started@[i]).0;
                &&& old(self).operations@.contains_key(h)
                &&& deferred_request(old(self).operations@[h]) == Some(started@[i].1)
            },
            forall|i: int, j: int| 0 <= i < j < started@.len() ==> started@[i].0 != started@[j].0,
            forall|h: u32| #[trigger] old(self).operations@.contains_key(h) && op_deferred(old(self).operations@[h])
                ==> exists|i: int| 0 <= i < started@.len() && #[trigger] started@[i].0 == h,
            final(self).ready@ == old(self).ready@,
            final(self).ready_members@ == old(self).ready_members@,
            final(self).deadlines@ == old(self).deadlines@,
            final(self).next_handle == old(self).next_handle,
            final(self).ready_generation == old(self).ready_generation,
    {
        let ghost old_ops = self.operations@;
        let mut started: Vec<(u32, Request<H>)> = Vec::new();
        while self.deferred.len() > 0
            invariant
                self.wf(),
                self.operations@.dom() == old_ops.dom(),
                old_ops == old(self).operations@,
                forall|h: u32| #[trigger] self.operations@.contains_key(h) ==> (self.operations@[h] == old_ops[h]
                    || (op_deferred(old_ops[h]) && self.operations@[h] == started_op(old_ops[h]))),
                forall|h: u32| #[trigger] self.operations@.contains_key(h) && op_deferred(old_ops[h])
                    && !op_deferred(self.operations@[h]) ==> exists|i: int| 0 <= i < started@.len() && #[trigger] started@[i].0 == h,
                forall|i: int| 0 <= i < started@.len() ==> {
                    let h = (#[trigger] started@[i]).0;
                    &&& old_ops.contains_key(h)
                    &&& deferred_request(old_ops[h]) == Some(started@[i].1)
                    &&& self.operations@[h] == started_op(old_ops[h])
                    &&& op_deferred(old_ops[h])
                },
                forall|i: int, j: int| 0 <= i < j < started@.len() ==> started@[i].0 != started@[j].0,
                self.running@ == old(self).running@.union(
                    Set::new(|h: u32| exists|i: int| 0 <= i < started@.len() && #[trigger] started@[i].0 == h),
                ),
                self.ready@ == old(self).ready@,
                self.ready_members@ == old(self).ready_members@,
                self.deadlines@ == old(self).deadlines@,
                self.next_handle == old(self).next_handle,
                self.ready_generation == old(self).ready_generation,
            decreases self.deferred@.len(),
        {
            let ghost q_before = self.deferred@;
            let handle = match self.deferred.pop_front() {
                Some(h) => h,
                None => 0,
            };
            let ghost rest = self.deferred@;
            proof {
                assert forall|h: u32| q_before.contains(h) && h != handle implies rest.contains(h) by {
                    let i = choose|i: int| 0 <= i < q_before.len() && q_before[i] == h;
                    assert(i != 0);
                    assert(rest[i - 1] == h);
                }
            }
            match self.operations.remove(&handle) {
                None => {
                    proof {
                        assert forall|h: u32| #[trigger] self.operations@.contains_key(h) && op_deferred(self.operations@[h])
                            implies self.deferred@.contains(h) by {
                            assert(old_ops.contains_key(h));
                            assert(h != handle);
                        }
                    }
                },
                Some(operation) => {
                    let ghost before = operation;
                    let (operation, request) = match operation {
                        Operation::Host(State::Deferred(q)) => (
                            Operation::Host(State::Running),
                            Some(Request::Host(q)),
                        ),
                        Operation::Http { request_url, state: State::Deferred(q) } => (
                            Operation::Http { request_url, state: State::Running },
                            Some(Request::Http(q)),
                        ),
                        other => (other, None),
                    };
                    self.operations.insert(handle, operation);
                    match request {
                        Some(request) => {
                            let ghost prev_started = started@;
                            let ghost prev_running = self.running@;
                            self.running.insert(handle);
                            started.push((handle, request));
                            proof {
                                assert(self.operations@[handle] == started_op(old_ops[handle]));
                                assert(op_deferred(old_ops[handle]));
                                assert forall|i: int| 0 <= i < prev_started.len() implies prev_started[i].0 != handle by {
                                    let h = prev_started[i].0;
                                    if h == handle {
                                        assert(op_deferred(before));
                                    }
                                }
                                assert(self.running@ =~= old(self).running@.union(
                                    Set::new(|h: u32| exists|i: int| 0 <= i < started@.len() && #[trigger] started@[i].0 == h),
                                )) by {
                                    assert forall|h: u32| #[trigger] self.running@.contains(h) == old(self).running@.union(
                                        Set::new(|h: u32| exists|i: int| 0 <= i < started@.len() && #[trigger] started@[i].0 == h),
                                    ).contains(h) by {
                                        if h == handle {
                                            assert(started@[started@.len() - 1].0 == h);
                                        } else if exists|i: int| 0 <= i < started@.len() && #[trigger] started@[i].0 == h {
                                            let i = choose|i: int| 0 <= i < started@.len() && #[trigger] started@[i].0 == h;
                                            assert(i < prev_started.len());
                                            assert(prev_started[i].0 == h);
                                        } else if exists|i: int| 0 <= i < prev_started.len() && #[trigger] prev_started[i].0 == h {
                                            let i = choose|i: int| 0 <= i < prev_started.len() && #[trigger] prev_started[i].0 == h;
                                            assert(started@[i].0 == h);
                                        }
                                    }
                                }
                                assert forall|h: u32| #[trigger] self.operations@.contains_key(h) && op_deferred(old_ops[h])
                                    && !op_deferred(self.operations@[h]) implies exists|i: int| 0 <= i < started@.len() && #[trigger] started@[i].0 == h by {
                                    if h == handle {
                                        assert(started@[started@.len() - 1].0 == h);
                                    } else {
                                        let i = choose|i: int| 0 <= i < prev_started.len() && #[trigger] prev_started[i].0 == h;
                                        assert(started@[i].0 == h);
                                    }
                                }
                            }
                        },
                        None => {},
                    }
                    proof {
                        assert forall|h: u32| #[trigger] self.operations@.contains_key(h) && op_deferred(self.operations@[h])
                            implies self.deferred@.contains(h) by {
                            if h != handle {
                                assert(old(self).operations@.contains_key(h));
                            }
                        }
                    }
                },
            }
        }
        proof {
            assert(self.running@ =~= old(self).running@.union(
                Set::new(|h: u32| old_ops.contains_key(h) && op_deferred(old_ops[h])),
            )) by {
                assert forall|h: u32| #[trigger] self.running@.contains(h) == old(self).running@.union(
                    Set::new(|h: u32| old_ops.contains_key(h) && op_deferred(old_ops[h])),
                ).contains(h) by {
                    if exists|i: int| 0 <= i < started@.len() && #[trigger] started@[i].0 == h {
                        let i = choose|i: int| 0 <= i < started@.len() && #[trigger] started@[i].0 == h;
                        assert(op_deferred(old_ops[started@[i].0]));
                    }
                    if old_ops.contains_key(h) && op_deferred(old_ops[h]) {
                        assert(!op_deferred(self.operations@[h]));
                    }
                }
            }
        }
        started
    }

    /// A started request finished: its operation becomes ready.
    fn complete(&mut self, handle: u32, response: Response<R>)
        requires
            old(self).wf(),
        ensures
            final(self).wf(),
            final(self).running@ == old(self).running@.remove(handle),
            final(self).operations@ == (if old(self).operations@.contains_key(handle) {
                old(self).operations@.insert(handle, completed_op(old(self).operations@[handle], response))
            } else {
                old(self).operations@
            }),
            old(self).operations@.contains_key(handle) && response_fits(old(self).operations@[handle], response)
                ==> final(self).ready_members@ == old(self).ready_members@.insert(handle),
            !(old(self).operations@.contains_key(handle) && response_fits(old(self).operations@[handle], response))
                ==> final(self).ready_members@ == old(self).ready_members@ && final(self).ready@ == old(self).ready@,
            clean_queue(old(self).ready@, old(self).ready_members@, old(self).operations@.dom()) ==> clean_queue(
                final(self).ready@,
                final(self).ready_members@,
                final(self).operations@.dom(),
            ),
            final(self).deferred@ == old(self).deferred@,
            final(self).deadlines@ == old(self).deadlines@,
            final(self).next_handle == old(self).next_handle,
    {
        self.running.remove(&handle);
        match self.operations.remove(&handle) {
            None => {},
            Some(operation) => {
                let ghost before = operation;
                let (operation, completed) = match (operation, response) {
                    (Operation::Host(_), Response::Host(r)) => (Operation::Host(State::Ready(r)), true),
                    (Operation::Http { request_url, .. }, Response::Http(r)) => (
                        Operation::Http { request_url, state: State::Ready(r) },
                        true,
                    ),
                    (other, _) => (other, false),
                };
                self.operations.insert(handle, operation);
                if completed {
                    self.mark_ready(handle);
                    proof {
                        let q = old(self).ready@;
                        let m = old(self).ready_members@;
                        let d = old(self).operations@.dom();
                        assert(self.operations@.dom() =~= d);
                        if clean_queue(q, m, d) && !m.contains(handle) {
                            if q.contains(handle) {
                                let i = choose|i: int| 0 <= i < q.len() && q[i] == handle;
                                assert(!m.contains(q[i]));
                            }
                            lemma_clean_extend(q, m, d, seq![handle], self.ready_members@, d);
                            assert(q + seq![handle] =~= self.ready@);
                        }
                    }
                } else {
                    proof {
                        assert(self.operations@ =~= old(self).operations@);
                    }
                }
            },
        }
    }

    /// Remove an operation, reporting whether its running request must be aborted.
    fn remove(&mut self, handle: u32) -> (r: Result<(Operation<H, R>, bool), InvalidHandle>)
        requires
            old(self).wf(),
        ensures
            final(self).wf(),
            old(self).operations@.contains_key(handle) <==> r.is_ok(),
            r matches Err(e) ==> e.0 == handle && final(self).operations@ == old(self).operations@,
            r matches Ok((op, aborted)) ==> op == old(self).operations@[handle] && aborted == old(self).running@.contains(handle),
            final(self).operations@ == old(self).operations@.remove(handle),
            final(self).running@ == old(self).running@.remove(handle),
            final(self).ready_members@ == old(self).ready_members@.remove(handle),
            final(self).ready@ == old(self).ready@,
            final(self).deferred@ == old(self).deferred@,
            final(self).deadlines@ == old(self).deadlines@,
            final(self).aborting@ == old(self).aborting@,
            final(self).next_handle == old(self).next_handle,
    {
        match self.operations.remove(&handle) {
            None => {
                proof {
                    assert(self.operations@ =~= old(self).operations@.remove(handle));
                    assert(self.running@ =~= old(self).running@.remove(handle));
                    assert(self.ready_members@ =~= old(self).ready_members@.remove(handle));
                }
                Err(InvalidHandle(handle))
            },
            Some(operation) => {
                let aborted = self.running.remove(&handle);
                self.ready_members.remove(&handle);
                Ok((operation, aborted))
            },
        }
    }

    /// Cancel and remove every operation; handle numbering continues. Returns
    /// the handles whose running requests must be aborted.
    fn clear(&mut self) -> (aborted: HashSet<u32>)
        requires
            old(self).wf(),
        ensures
            final(self).wf(),
            aborted@ == old(self).running@,
            final(self).operations@ == Map::<u32, Operation<H, R>>::empty(),
            final(self).running@ == Set::<u32>::empty(),
            final(self).deferred@ == Seq::<u32>::empty(),
            final(self).ready@ == Seq::<u32>::empty(),
            final(self).ready_members@ == Set::<u32>::empty(),
            final(self).deadlines@ == Seq::<DeadlineEntry>::empty(),
            final(self).next_handle == old(self).next_handle,
    {
        let mut aborted: HashSet<u32> = HashSet::new();
        std::mem::swap(&mut aborted, &mut self.running);
        self.operations.clear();
        self.deferred.clear();
        self.ready.clear();
        self.ready_members.clear();
        self.deadlines.clear();
        aborted
    }

    /// Whether some started request has not completed.
    pub fn has_running(&self) -> (b: bool)
        ensures
            b == !self.running_set().is_empty(),
    {
        !self.running.is_empty()
    }

    /// The number of registered operations.
    pub fn len(&self) -> (n: usize)
        ensures
            n == self.ops().dom().len(),
    {
        self.operations.len()
    }

    /// The generation counter that moves whenever a handle becomes ready.
    pub fn ready_generation(&self) -> (g: u64)
        ensures
            g == self.generation(),
    {
        self.ready_generation
    }
}

/// What consuming `handle` yields at clock reading `now`, and the operations left.
pub open spec fn take_spec<H, R>(ops: Map<u32, Operation<H, R>>, handle: u32, now: u64) -> (
    Map<u32, Operation<H, R>>,
    Result<Take<R>, InvalidHandle>,
) {
    if !ops.contains_key(handle) {
        (ops, Err(InvalidHandle(handle)))
    } else {
        (ops.remove(handle), Ok(take_outcome(ops[handle], now)))
    }
}

/// What a removed operation yields without blocking.
pub open spec fn take_outcome<H, R>(op: Operation<H, R>, now: u64) -> Take<R> {
    match op {
        Operation::Host(State::Ready(result)) => Take::Ready(Output::Host(result)),
        Operation::Http { request_url, state: State::Ready(response) } => Take::Ready(
            Output::Http { request_url, response },
        ),
        Operation::Sleep(d) => if deadline_ready_at(d.0, now) {
            Take::Ready(Output::Sleep)
        } else {
            Take::Pending
        },
        _ => Take::Pending,
    }
}

/// What remains to be done, possibly blocking, to consume a removed operation.
pub enum Blocking<H, R> {
    /// The output is at hand.
    Done(Output<R>),
    /// Perform the host call; its result is the output.
    Host(HostRequest),
    /// Send the request; its response is the output.
    Http { request_url: String, request: H },
    /// Wait for the deadline; the output is `Output::Sleep`.
    Sleep(Deadline),
}

/// How a removed operation is consumed by blocking; a running one cannot be.
pub open spec fn blocking_outcome<H, R>(op: Operation<H, R>, handle: u32) -> Result<Blocking<H, R>, InvalidHandle> {
    match op {
        Operation::Host(State::Ready(result)) => Ok(Blocking::Done(Output::Host(result))),
        Operation::Host(State::Deferred(q)) => Ok(Blocking::Host(q)),
        Operation::Http { request_url, state: State::Ready(response) } => Ok(
            Blocking::Done(Output::Http { request_url, response }),
        ),
        Operation::Http { request_url, state: State::Deferred(request) } => Ok(
            Blocking::Http { request_url, request },
        ),
        Operation::Sleep(d) => Ok(Blocking::Sleep(d)),
        _ => Err(InvalidHandle(handle)),
    }
}

/// The ready queue holds no handle twice, and every entry that is no longer
/// ready belongs to no registered operation.
pub open spec fn queue_clean<H, R>(r: Registry<H, R>) -> bool {
    clean_queue(r.ready_queue(), r.ready_set(), r.ops().dom())
}

/// Only registered operations are ready, and every operation whose result
/// arrived is ready.
pub proof fn lemma_ready_registered<H, R>(r: Registry<H, R>)
    requires
        r.wf(),
    ensures
        r.ready_set().subset_of(r.ops().dom()),
        forall|h: u32| #[trigger] r.ops().contains_key(h) && op_completed(r.ops()[h]) ==> r.ready_set().contains(h),
{
}

/// Register a deferred host call.
pub fn register_hostcall<H, R>(registry: &mut Registry<H, R>, call_type: String, payload: Vec<u8>) -> (handle: u32)
    requires
        old(registry).wf(),
        old(registry).ops().dom().len() < handle_space(),
    ensures
        final(registry).wf(),
        is_first_free(old(registry).ops().dom(), old(registry).next_handle(), handle),
        final(registry).next_handle() == handle_after(handle, 1),
        final(registry).ops() == old(registry).ops().insert(
            handle,
            Operation::Host(State::Deferred(HostRequest { call_type, payload })),
        ),
        final(registry).deferred_queue() == old(registry).deferred_queue().push(handle),
        final(registry).ready_queue() == old(registry).ready_queue(),
        final(registry).ready_set() == old(registry).ready_set(),
        queue_clean(*old(registry)) && !old(registry).ready_queue().contains(handle) ==> queue_clean(*final(registry)),
        !final(registry).ready_set().contains(handle),
{
    // a host call has no deadline, so the clock reading is not consulted
    registry.insert(Operation::Host(State::Deferred(HostRequest { call_type, payload })), 0)
}

/// Register a deferred HTTP request; `request_url` is the request's URL.
pub fn register_http<H, R>(registry: &mut Registry<H, R>, request_url: String, request: H) -> (handle: u32)
    requires
        old(registry).wf(),
        old(registry).ops().dom().len() < handle_space(),
    ensures
        final(registry).wf(),
        is_first_free(old(registry).ops().dom(), old(registry).next_handle(), handle),
        final(registry).next_handle() == handle_after(handle, 1),
        final(registry).ops() == old(registry).ops().insert(
            handle,
            Operation::Http { request_url, state: State::Deferred(request) },
        ),
        final(registry).deferred_queue() == old(registry).deferred_queue().push(handle),
        final(registry).ready_queue() == old(registry).ready_queue(),
        final(registry).ready_set() == old(registry).ready_set(),
        queue_clean(*old(registry)) && !old(registry).ready_queue().contains(handle) ==> queue_clean(*final(registry)),
        !final(registry).ready_set().contains(handle),
{
    // a request has no deadline, so the clock reading is not consulted
    registry.insert(Operation::Http { request_url, state: State::Deferred(request) }, 0)
}

/// Register a sleep deadline. A deadline that is not finite is queued as ready
/// at once; a finite one when the clock reaches it.
pub fn register_sleep<H, R>(registry: &mut Registry<H, R>, deadline: Deadline, now: u64) -> (handle: u32)
    requires
        old(registry).wf(),
        old(registry).ops().dom().len() < handle_space(),
    ensures
        final(registry).wf(),
        is_first_free(old(registry).ops().dom(), old(registry).next_handle(), handle),
        final(registry).next_handle() == handle_after(handle, 1),
        final(registry).ops() == old(registry).ops().insert(handle, Operation::Sleep(deadline)),
        final(registry).deferred_queue() == old(registry).deferred_queue(),
        !(deadline.0 is At) ==> final(registry).ready_queue() == old(registry).ready_queue().push(handle)
            && final(registry).ready_set() == old(registry).ready_set().insert(handle),
        old(registry).ready_set().subset_of(final(registry).ready_set()),
        final(registry).ready_queue().subrange(0, old(registry).ready_queue().len() as int) == old(registry).ready_queue(),
        queue_clean(*old(registry)) && !old(registry).ready_queue().contains(handle) ==> queue_clean(*final(registry)),
        deadline.0 is At ==> forall|h: u32| #[trigger] final(registry).ready_set().contains(h)
            && !old(registry).ready_set().contains(h) ==> sleep_due(final(registry).ops()[h], now),
        deadline.0 is At && !deadline_ready_at(deadline.0, now) ==> !final(registry).ready_set().contains(handle),
{
    registry.insert(Operation::Sleep(deadline), now)
}

/// All handles whose operation can be consumed, in the order they became
/// ready; due sleeps are added first.
pub fn ready_handles<H, R>(registry: &mut Registry<H, R>, now: u64) -> (handles: Vec<u32>)
    requires
        old(registry).wf(),
    ensures
        final(registry).wf(),
        final(registry).ops() == old(registry).ops(),
        final(registry).deferred_queue() == old(registry).deferred_queue(),
        final(registry).running_set() == old(registry).running_set(),
        final(registry).next_handle() == old(registry).next_handle(),
        handles@ == final(registry).ready_queue(),
        old(registry).ready_set().subset_of(final(registry).ready_set()),
        forall|h: u32| #[trigger] handles@.contains(h) <==> final(registry).ready_set().contains(h),
        forall|h: u32|
            #[trigger] final(registry).ready_set().contains(h) && !old(registry).ready_set().contains(h)
                ==> sleep_due(final(registry).ops()[h], now),
        forall|h: u32|
            #[trigger] final(registry).ops().contains_key(h) && (sleep_due(final(registry).ops()[h], now) || op_completed(final(registry).ops()[h]))
                ==> handles@.contains(h),
        exists|tail: Seq<u32>| {
            &&& handles@ == keep_members(old(registry).ready_queue() + tail, final(registry).ready_set())
            &&& forall|i: int| 0 <= i < tail.len() ==> !old(registry).ready_set().contains(#[trigger] tail[i])
        },
        old(registry).deadline_entries().len() == 0 ==> handles@ == keep_members(old(registry).ready_queue(), old(registry).ready_set()),
        final(registry).ready_set().subset_of(final(registry).ops().dom()),
        queue_clean(*old(registry)) ==> queue_clean(*final(registry)) && no_dups(handles@),
        queue_clean(*old(registry)) ==> {
            let before = keep_members(old(registry).ready_queue(), old(registry).ready_set());
            &&& before.len() <= handles@.len()
            &&& handles@.subrange(0, before.len() as int) == before
            &&& forall|i: int| before.len() <= i < handles@.len() ==> !old(registry).ready_set().contains(
                #[trigger] handles@[i],
            )
        },
{
    let handles = registry.ready_handles(now);
    proof {
        let tail = choose|tail: Seq<u32>| {
            &&& handles@ == keep_members(old(registry).ready@ + tail, registry.ready_members@)
            &&& forall|i: int| 0 <= i < tail.len() ==> !old(registry).ready_members@.contains(#[trigger] tail[i])
        };
        assert(handles@ == keep_members(old(registry).ready_queue() + tail, registry.ready_set()));
        if queue_clean(*old(registry)) {
            let q = old(registry).ready_queue();
            let o = old(registry).ready_set();
            let f = registry.ready_set();
            lemma_keep_members_split(q, tail, f);
            assert forall|i: int| 0 <= i < q.len() implies (f.contains(#[trigger] q[i]) <==> o.contains(q[i])) by {
                if !o.contains(q[i]) {
                    assert(!old(registry).ops().contains_key(q[i]));
                    lemma_ready_registered(*registry);
                }
            }
            lemma_keep_members_agree(q, f, o);
            let before = keep_members(q, o);
            let after = keep_members(tail, f);
            assert(handles@ == before + after);
            assert(handles@.subrange(0, before.len() as int) =~= before);
            lemma_keep_members_contains(tail, f);
            assert forall|i: int| before.len() <= i < handles@.len() implies !o.contains(#[trigger] handles@[i]) by {
                assert(handles@[i] == after[i - before.len()]);
                assert(after.contains(after[i - before.len()]));
                let j = choose|j: int| 0 <= j < tail.len() && tail[j] == after[i - before.len()];
            }
        }
    }
    handles
}

/// Whether an operation can be consumed without blocking, or is no longer
/// registered (so that consuming it reports the invalid handle at once).
pub fn is_ready<H, R>(registry: &Registry<H, R>, handle: u32, now: u64) -> (b: bool)
    ensures
        b == (!registry.ops().contains_key(handle) || op_ready(registry.ops()[handle], now)),
{
    match registry.operations.get(&handle) {
        None => true,
        Some(operation) => operation.is_ready(now),
    }
}

/// Whether any operation is registered.
pub fn has_pending<H, R>(registry: &Registry<H, R>) -> (b: bool)
    ensures
        b == !registry.ops().is_empty(),
{
    !registry.operations.is_empty()
}

/// Remove an operation and return its completed output, if it is ready; an
/// undriven or running operation is removed and reported as pending.
pub fn take<H, R>(registry: &mut Registry<H, R>, handle: u32, now: u64) -> (r: Result<Take<R>, InvalidHandle>)
    requires
        old(registry).wf(),
    ensures
        final(registry).wf(),
        (final(registry).ops(), r) == take_spec(old(registry).ops(), handle, now),
        final(registry).ready_set() == old(registry).ready_set().remove(handle),
        final(registry).running_set() == old(registry).running_set().remove(handle),
        final(registry).ready_queue() == old(registry).ready_queue(),
        queue_clean(*old(registry)) ==> queue_clean(*final(registry)),
        final(registry).abort_queue() == (if old(registry).running_set().contains(handle) {
            old(registry).abort_queue().push(handle)
        } else {
            old(registry).abort_queue()
        }),
        final(registry).next_handle() == old(registry).next_handle(),
{
    let removed = registry.remove(handle);
    if let Ok((_, true)) = &removed {
        registry.aborting.push(handle);
    }
    match removed {
        Err(e) => Err(e),
        Ok((operation, _aborted)) => Ok(
            match operation {
                Operation::Host(State::Ready(result)) => Take::Ready(Output::Host(result)),
                Operation::Http { request_url, state: State::Ready(response) } => Take::Ready(
                    Output::Http { request_url, response },
                ),
                Operation::Sleep(deadline) => if deadline.is_ready(now) {
                    Take::Ready(Output::Sleep)
                } else {
                    Take::Pending
                },
                _ => Take::Pending,
            },
        ),
    }
}

/// Remove one operation so that it can be consumed by blocking: a completed
/// output is at hand, a deferred request is handed out to be performed, a
/// sleep must be waited for. A running operation cannot be driven again.
pub fn drive_one<H, R>(registry: &mut Registry<H, R>, handle: u32) -> (r: Result<Blocking<H, R>, InvalidHandle>)
    requires
        old(registry).wf(),
    ensures
        final(registry).wf(),
        final(registry).ops() == old(registry).ops().remove(handle),
        r == (if old(registry).ops().contains_key(handle) {
            blocking_outcome(old(registry).ops()[handle], handle)
        } else {
            Err(InvalidHandle(handle))
        }),
        final(registry).ready_queue() == old(registry).ready_queue(),
        final(registry).ready_set() == old(registry).ready_set().remove(handle),
        queue_clean(*old(registry)) ==> queue_clean(*final(registry)),
        final(registry).abort_queue() == (if old(registry).running_set().contains(handle) {
            old(registry).abort_queue().push(handle)
        } else {
            old(registry).abort_queue()
        }),
        final(registry).next_handle() == old(registry).next_handle(),
{
    let removed = registry.remove(handle);
    if let Ok((_, true)) = &removed {
        registry.aborting.push(handle);
    }
    match removed {
        Err(e) => Err(e),
        Ok((operation, _aborted)) => match operation {
            Operation::Host(State::Ready(result)) => Ok(Blocking::Done(Output::Host(result))),
            Operation::Host(State::Deferred(request)) => Ok(Blocking::Host(request)),
            Operation::Http { request_url, state: State::Ready(response) } => Ok(
                Blocking::Done(Output::Http { request_url, response }),
            ),
            Operation::Http { request_url, state: State::Deferred(request) } => Ok(
                Blocking::Http { request_url, request },
            ),
            Operation::Sleep(deadline) => Ok(Blocking::Sleep(deadline)),
            _ => Err(InvalidHandle(handle)),
        },
    }
}

/// The handles whose started requests were removed by `take` or `drive_one`
/// since the last call, in order; their requests must be aborted.
pub fn take_aborted<H, R>(registry: &mut Registry<H, R>) -> (handles: Vec<u32>)
    requires
        old(registry).wf(),
    ensures
        final(registry).wf(),
        handles@ == old(registry).abort_queue(),
        final(registry).abort_queue() == Seq::<u32>::empty(),
        final(registry).ops() == old(registry).ops(),
        final(registry).ready_queue() == old(registry).ready_queue(),
        final(registry).ready_set() == old(registry).ready_set(),
        final(registry).running_set() == old(registry).running_set(),
        final(registry).deferred_queue() == old(registry).deferred_queue(),
        final(registry).next_handle() == old(registry).next_handle(),
        queue_clean(*old(registry)) ==> queue_clean(*final(registry)),
{
    let mut handles: Vec<u32> = Vec::new();
    std::mem::swap(&mut handles, &mut registry.aborting);
    handles
}

/// Remove an operation without consuming its output. Returns whether its
/// running request must be aborted.
pub fn release<H, R>(registry: &mut Registry<H, R>, handle: u32) -> (aborted: bool)
    requires
        old(registry).wf(),
    ensures
        final(registry).wf(),
        final(registry).ops() == old(registry).ops().remove(handle),
        aborted == old(registry).running_set().contains(handle),
        final(registry).running_set() == old(registry).running_set().remove(handle),
        final(registry).ready_set() == old(registry).ready_set().remove(handle),
        final(registry).ready_queue() == old(registry).ready_queue(),
        queue_clean(*old(registry)) ==> queue_clean(*final(registry)),
        final(registry).next_handle() == old(registry).next_handle(),
{
    match registry.remove(handle) {
        Err(_) => false,
        Ok((_operation, aborted)) => aborted,
    }
}

/// Cancel and remove every operation without resetting handle numbering.
/// Returns the handles whose running requests must be aborted.
pub fn clear<H, R>(registry: &mut Registry<H, R>) -> (aborted: HashSet<u32>)
    requires
        old(registry).wf(),
    ensures
        final(registry).wf(),
        aborted@ == old(registry).running_set(),
        final(registry).ops() == Map::<u32, Operation<H, R>>::empty(),
        final(registry).ready_queue() == Seq::<u32>::empty(),
        final(registry).ready_set() == Set::<u32>::empty(),
        final(registry).deferred_queue() == Seq::<u32>::empty(),
        final(registry).running_set() == Set::<u32>::empty(),
        queue_clean(*final(registry)),
        final(registry).next_handle() == old(registry).next_handle(),
{
    registry.clear()
}

/// A result arrived for a started request.
pub fn complete<H, R>(registry: &mut Registry<H, R>, handle: u32, response: Response<R>)
    requires
        old(registry).wf(),
    ensures
        final(registry).wf(),
        queue_clean(*old(registry)) ==> queue_clean(*final(registry)),
        final(registry).running_set() == old(registry).running_set().remove(handle),
        final(registry).ops() == (if old(registry).ops().contains_key(handle) {
            old(registry).ops().insert(handle, completed_op(old(registry).ops()[handle], response))
        } else {
            old(registry).ops()
        }),
        old(registry).ops().contains_key(handle) && response_fits(old(registry).ops()[handle], response)
            ==> final(registry).ready_set() == old(registry).ready_set().insert(handle),
        final(registry).next_handle() == old(registry).next_handle(),
{
    registry.complete(handle, response)
}

/// The earliest pending finite deadline, once due sleeps became ready.
pub fn next_deadline<H, R>(registry: &mut Registry<H, R>, now: u64) -> (next: Option<u128>)
    requires
        old(registry).wf(),
    ensures
        final(registry).wf(),
        queue_clean(*old(registry)) ==> queue_clean(*final(registry)),
        next matches Some(t) ==> exists|h: u32| #[trigger] final(registry).ops().contains_key(h)
            && sleep_at(final(registry).ops()[h]) == Some(t),
        forall|h: u32| #[trigger] final(registry).ready_set().contains(h) && !old(registry).ready_set().contains(h)
            ==> sleep_due(final(registry).ops()[h], now),
        final(registry).ops() == old(registry).ops(),
        next matches Some(t) ==> t > now,
        next matches Some(t) ==> forall|h: u32| #[trigger] final(registry).ops().contains_key(h)
            && !final(registry).ready_set().contains(h) && sleep_at(final(registry).ops()[h]) is Some
            ==> t <= sleep_at(final(registry).ops()[h]).unwrap(),
        next is None ==> forall|h: u32| #[trigger] final(registry).ops().contains_key(h)
            && !final(registry).ready_set().contains(h) ==> sleep_at(final(registry).ops()[h]) is None,
        next is None <==> final(registry).deadline_entries().len() == 0,
        next matches Some(t) ==> t == final(registry).deadline_entries()[0].0,
        final(registry).deferred_queue() == old(registry).deferred_queue(),
        final(registry).running_set() == old(registry).running_set(),
        final(registry).next_handle() == old(registry).next_handle(),
        old(registry).ready_set().subset_of(final(registry).ready_set()),
        (forall|h: u32| #[trigger] old(registry).ops().contains_key(h) && sleep_due(old(registry).ops()[h], now)
            ==> old(registry).ready_set().contains(h)) ==> final(registry).generation() == old(registry).generation(),
{
    let next = registry.next_deadline(now);
    proof {
        if forall|h: u32| #[trigger] old(registry).ops().contains_key(h) && sleep_due(old(registry).ops()[h], now)
            ==> old(registry).ready_set().contains(h) {
            assert forall|h: u32| #[trigger] old(registry).operations@.contains_key(h) && sleep_due(
                old(registry).operations@[h],
                now,
            ) implies old(registry).ready_members@.contains(h) by {
                assert(old(registry).ops().contains_key(h));
            }
        }
    }
    next
}

/// Start a driver round: drop stale ready entries and report the generation.
pub fn begin_round<H, R>(registry: &mut Registry<H, R>, now: u64) -> (generation: u64)
    requires
        old(registry).wf(),
    ensures
        final(registry).wf(),
        queue_clean(*old(registry)) ==> queue_clean(*final(registry)),
        final(registry).ops() == old(registry).ops(),
        generation == final(registry).generation(),
        forall|h: u32| #[trigger] final(registry).ready_queue().contains(h) <==> final(registry).ready_set().contains(h),
{
    registry.refresh_ready(now);
    registry.ready_generation
}

/// After the language runtime asked to wait: start every deferred request
/// (handed out to be performed) and report whether anything became ready since
/// `generation` was read.
pub fn start_round<H, R>(registry: &mut Registry<H, R>, now: u64, generation: u64) -> (r: (Vec<(u32, Request<H>)>, bool))
    requires
        old(registry).wf(),
    ensures
        final(registry).wf(),
        queue_clean(*old(registry)) ==> queue_clean(*final(registry)),
        final(registry).deferred_queue() == Seq::<u32>::empty(),
        forall|i: int| 0 <= i < r.0@.len() ==> {
            let h = (#[trigger] r.0@[i]).0;
            &&& old(registry).ops().contains_key(h)
            &&& deferred_request(old(registry).ops()[h]) == Some(r.0@[i].1)
        },
        forall|h: u32| #[trigger] old(registry).ops().contains_key(h) && op_deferred(old(registry).ops()[h])
            ==> exists|i: int| 0 <= i < r.0@.len() && #[trigger] r.0@[i].0 == h,
        r.1 == (final(registry).generation() != generation),
        forall|h: u32| #[trigger] final(registry).ops().contains_key(h) && sleep_due(final(registry).ops()[h], now)
            ==> final(registry).ready_set().contains(h),
        final(registry).ops().dom() == old(registry).ops().dom(),
        forall|h: u32| #[trigger] old(registry).ops().contains_key(h) ==> final(registry).ops()[h] == started_op(
            old(registry).ops()[h],
        ),
        final(registry).running_set() == old(registry).running_set().union(
            Set::new(|h: u32| old(registry).ops().contains_key(h) && op_deferred(old(registry).ops()[h])),
        ),
        final(registry).next_handle() == old(registry).next_handle(),
        old(registry).ready_set().subset_of(final(registry).ready_set()),
        final(registry).generation() != old(registry).generation() ==> exists|h: u32|
            #[trigger] final(registry).ready_set().contains(h) && !old(registry).ready_set().contains(h),
        forall|i: int, j: int| 0 <= i < j < r.0@.len() ==> r.0@[i].0 != r.0@[j].0,
{
    let started = registry.start_deferred();
    let ghost mid_ops = registry.operations@;
    let ghost mid_members = registry.ready_members@;
    registry.refresh_ready(now);
    proof {
        if !(exists|h: u32| #[trigger] registry.ready_members@.contains(h) && !mid_members.contains(h)) {
            assert forall|h: u32| #[trigger] mid_ops.contains_key(h) && sleep_due(mid_ops[h], now)
                implies mid_members.contains(h) by {
                assert(registry.operations@.contains_key(h));
                assert(registry.ready_members@.contains(h));
            }
        }
    }
    let changed = registry.ready_generation != generation;
    (started, changed)
}

/// How the driver continues after the language runtime's callback.
#[derive(Clone, Copy, Debug, PartialEq, Eq, Structural)]
pub enum Drive {
    /// Stop the driver and cancel every unfinished operation: the requests in
    /// flight are dropped, so started operations never complete; the registry
    /// is left as it is.
    Stop,
    /// Stop the driver while preserving unfinished operations for re-entry.
    Suspend,
    /// Wait until an operation or deadline completes.
    Wait,
}

/// What the driver does at the end of a round.
#[derive(Clone, Copy, Debug, PartialEq, Eq, Structural)]
pub enum Wait {
    /// Stop driving and drop the requests in flight.
    Return,
    /// Keep the in-flight requests for re-entry and stop driving.
    Suspend,
    /// Something became ready: collect finished requests, give running ones
    /// a short time to finish, and start the next round.
    Progress,
    /// Nothing is ready, in flight or scheduled: stop driving.
    Idle,
    /// Wait for a completion, or until the clock reaches the deadline.
    Until(Option<u128>),
}

/// Some registered, not yet ready sleep waits for a finite deadline.
pub open spec fn has_pending_deadline<H, R>(ops: Map<u32, Operation<H, R>>, ready: Set<u32>) -> bool {
    exists|h: u32| #[trigger] ops.contains_key(h) && !ready.contains(h) && sleep_at(ops[h]) is Some
}

/// Fairness window, in nanoseconds, that running requests get to finish after
/// something became ready.
pub const FAIRNESS_YIELD_NANOS: u64 = 1_000_000;

/// Plan the rest of a driver round once the callback chose `mode`:
/// `generation` was read when the round began, `in_flight_empty` says whether
/// no started request is still in flight. When waiting, every deferred
/// request is started (handed out to be performed).
pub fn plan_round<H, R>(
    registry: &mut Registry<H, R>,
    mode: Drive,
    generation: u64,
    now: u64,
    in_flight_empty: bool,
) -> (r: (Vec<(u32, Request<H>)>, Wait))
    requires
        old(registry).wf(),
    ensures
        final(registry).wf(),
        queue_clean(*old(registry)) ==> queue_clean(*final(registry)),
        mode != Drive::Wait ==> *final(registry) == *old(registry) && r.0@.len() == 0,
        mode == Drive::Stop ==> r.1 == Wait::Return,
        mode == Drive::Suspend ==> r.1 == Wait::Suspend,
        mode == Drive::Wait ==> final(registry).deferred_queue() == Seq::<u32>::empty(),
        mode == Drive::Wait ==> forall|i: int| 0 <= i < r.0@.len() ==> {
            let h = (#[trigger] r.0@[i]).0;
            &&& old(registry).ops().contains_key(h)
            &&& deferred_request(old(registry).ops()[h]) == Some(r.0@[i].1)
        },
        mode == Drive::Wait ==> forall|h: u32| #[trigger] old(registry).ops().contains_key(h) && op_deferred(old(registry).ops()[h])
            ==> exists|i: int| 0 <= i < r.0@.len() && #[trigger] r.0@[i].0 == h,
        mode == Drive::Wait ==> final(registry).ops().dom() == old(registry).ops().dom(),
        mode == Drive::Wait ==> forall|h: u32| #[trigger] old(registry).ops().contains_key(h)
            ==> final(registry).ops()[h] == started_op(old(registry).ops()[h]),
        mode == Drive::Wait ==> final(registry).running_set() == old(registry).running_set().union(
            Set::new(|h: u32| old(registry).ops().contains_key(h) && op_deferred(old(registry).ops()[h])),
        ),
        mode == Drive::Wait ==> final(registry).next_handle() == old(registry).next_handle(),
        mode == Drive::Wait ==> old(registry).ready_set().subset_of(final(registry).ready_set()),
        mode == Drive::Wait ==> forall|i: int, j: int| 0 <= i < j < r.0@.len() ==> r.0@[i].0 != r.0@[j].0,
        mode == Drive::Wait ==> (r.1 is Progress || r.1 is Idle || r.1 is Until),
        mode == Drive::Wait ==> ((r.1 == Wait::Progress) == (final(registry).generation() != generation)),
        mode == Drive::Wait && r.1 != Wait::Progress ==> (r.1 == Wait::Idle <==> (in_flight_empty && r.0@.len() == 0
            && final(registry).deadline_entries().len() == 0)),
        mode == Drive::Wait && generation == old(registry).generation() && r.1 == Wait::Progress ==> exists|h: u32|
            #[trigger] final(registry).ready_set().contains(h) && !old(registry).ready_set().contains(h),
        r.1 matches Wait::Until(Some(t)) ==> exists|h: u32| #[trigger] final(registry).ops().contains_key(h)
            && sleep_at(final(registry).ops()[h]) == Some(t),
        r.1 == Wait::Idle ==> !has_pending_deadline(final(registry).ops(), final(registry).ready_set()),
        r.1 matches Wait::Until(Some(t)) ==> t > now && forall|h: u32| #[trigger] final(registry).ops().contains_key(h)
            && !final(registry).ready_set().contains(h) && sleep_at(final(registry).ops()[h]) is Some
            ==> t <= sleep_at(final(registry).ops()[h]).unwrap(),
        r.1 matches Wait::Until(None) ==> !has_pending_deadline(final(registry).ops(), final(registry).ready_set()),
{
    match mode {
        Drive::Stop => (Vec::new(), Wait::Return),
        Drive::Suspend => (Vec::new(), Wait::Suspend),
        Drive::Wait => {
            let (started, changed) = start_round(registry, now, generation);
            if changed {
                (started, Wait::Progress)
            } else {
                let deadline = next_deadline(registry, now);
                if in_flight_empty && started.len() == 0 && deadline.is_none() {
                    (started, Wait::Idle)
                } else {
                    (started, Wait::Until(deadline))
                }
            }
        },
    }
}

/// What finished while the driver waited.
pub enum Completion<R> {
    /// A started request finished with a response, or was aborted (`None`).
    Operation(u32, Option<Response<R>>),
    /// The awaited deadline passed.
    Deadline,
}

/// Whether a completion ends the wait: an aborted request does not.
pub fn ends_wait<R>(completion: &Completion<R>) -> (b: bool)
    ensures
        b == !(completion matches Completion::Operation(_, None)),
{
    match completion {
        Completion::Operation(_, None) => false,
        _ => true,
    }
}

/// Apply a completion; returns whether it is progress (an aborted request is not).
pub fn apply_completion<H, R>(registry: &mut Registry<H, R>, completion: Completion<R>) -> (progress: bool)
    requires
        old(registry).wf(),
    ensures
        final(registry).wf(),
        queue_clean(*old(registry)) ==> queue_clean(*final(registry)),
        progress == !(completion matches Completion::Operation(_, None)),
        !(completion matches Completion::Operation(_, Some(_))) ==> *final(registry) == *old(registry),
        completion matches Completion::Operation(h, Some(response)) ==> {
            &&& final(registry).running_set() == old(registry).running_set().remove(h)
            &&& final(registry).ops() == (if old(registry).ops().contains_key(h) {
                old(registry).ops().insert(h, completed_op(old(registry).ops()[h], response))
            } else {
                old(registry).ops()
            })
        },
{
    match completion {
        Completion::Operation(handle, Some(response)) => {
            complete(registry, handle, response);
            true
        },
        Completion::Deadline => true,
        Completion::Operation(_, None) => false,
    }
}

/// A consumed handle is rejected when it is consumed again.
pub proof fn lemma_consumed_handle_is_invalid<H, R>(ops: Map<u32, Operation<H, R>>, handle: u32, now1: u64, now2: u64)
    requires
        ops.contains_key(handle),
    ensures
        take_spec(ops, handle, now1).1 is Ok,
        take_spec(take_spec(ops, handle, now1).0, handle, now2).1 == Err::<Take<R>, InvalidHandle>(InvalidHandle(handle)),
{
}

/// Releasing a handle frees its slot without handing the same handle out
/// again, unless every other handle is in use.
pub proof fn lemma_released_handle_not_reused(used: Set<u32>, start: u32, first: u32, second: u32)
    requires
        used.finite(),
        used.len() + 1 < handle_space(),
        is_first_free(used, start, first),
        is_first_free(used, handle_after(first, 1), second),
    ensures
        first != second,
{
    if first == second {
        let s = handle_after(first, 1);
        let k = handle_space() - 1;
        lemma_cyclic_range_len(s, k);
        assert(cyclic_range(s, k).subset_of(used)) by {
            assert forall|x: u32| cyclic_range(s, k).contains(x) implies used.contains(x) by {
                lemma_handle_after_of_distance(s, x);
                lemma_distance_to_previous(first);
                assert(handle_distance(s, x) < handle_distance(s, second));
            }
        }
        lemma_len_subset(cyclic_range(s, k), used);
    }
}

/// Handles that become ready together are reported after those already
/// ready, in the order they became ready.
pub proof fn lemma_ready_in_order(queue: Seq<u32>, members: Set<u32>, fresh: Seq<u32>)
    requires
        forall|i: int| 0 <= i < fresh.len() ==> !members.contains(#[trigger] fresh[i]),
    ensures
        keep_members(queue + fresh, members.union(fresh.to_set())) == keep_members(queue, members.union(fresh.to_set())) + fresh,
    decreases fresh.len(),
{
    let all = members.union(fresh.to_set());
    if fresh.len() == 0 {
        assert(queue + fresh =~= queue);
    } else {
        let f = fresh.drop_last();
        assert forall|i: int| 0 <= i < f.len() implies !members.contains(#[trigger] f[i]) by {
            assert(f[i] == fresh[i]);
        }
        lemma_keep_members_split(queue, f, all);
        assert((queue + fresh).drop_last() =~= queue + f);
        assert(fresh.to_set().contains(fresh.last())) by {
            assert(fresh[fresh.len() - 1] == fresh.last());
        }
        lemma_keep_all_members(f, all);
        assert(keep_members(queue + fresh, all) == keep_members(queue + f, all).push(fresh.last()));
        assert(f.push(fresh.last()) =~= fresh);
    }
}

/// `keep_members` distributes over concatenation.
proof fn lemma_keep_members_split(a: Seq<u32>, b: Seq<u32>, keep: Set<u32>)
    ensures
        keep_members(a + b, keep) == keep_members(a, keep) + keep_members(b, keep),
    decreases b.len(),
{
    if b.len() == 0 {
        assert(a + b =~= a);
        assert(keep_members(a, keep) + Seq::<u32>::empty() =~= keep_members(a, keep));
    } else {
        lemma_keep_members_split(a, b.drop_last(), keep);
        assert((a + b).drop_last() =~= a + b.drop_last());
        assert((a + b).last() == b.last());
        if keep.contains(b.last()) {
            assert(keep_members(a, keep) + keep_members(b.drop_last(), keep).push(b.last()) =~= (keep_members(a, keep) + keep_members(b.drop_last(), keep)).push(b.last()));
        }
    }
}

/// A queue of members is kept whole.
proof fn lemma_keep_all_members(q: Seq<u32>, keep: Set<u32>)
    requires
        forall|i: int| 0 <= i < q.len() ==> keep.contains(#[trigger] q[i]),
    ensures
        keep_members(q, keep) == q,
    decreases q.len(),
{
    if q.len() > 0 {
        let d = q.drop_last();
        assert forall|i: int| 0 <= i < d.len() implies keep.contains(#[trigger] d[i]) by {
            assert(d[i] == q[i]);
        }
        lemma_keep_all_members(d, keep);
        assert(keep.contains(q[q.len() - 1]));
        assert(d.push(q.last()) =~= q);
    }
}

/// The handle just before `h + 1` lies at the far end of the cycle.
proof fn lemma_distance_to_previous(h: u32)
    ensures
        handle_distance(handle_after(h, 1), h) == handle_space() - 1,
{
    lemma_handle_after_one(h);
    let m = handle_space();
    if h == u32::MAX {
        vstd::arithmetic::div_mod::lemma_fundamental_div_mod_converse(h as int + m, m, 1, h as int);
    } else {
        vstd::arithmetic::div_mod::lemma_small_mod((m - 1) as nat, m as nat);
    }
}

/// `keep_members` keeps exactly the members that occur in the queue.
proof fn lemma_keep_members_contains(q: Seq<u32>, keep: Set<u32>)
    ensures
        forall|h: u32| #[trigger] keep_members(q, keep).contains(h) <==> q.contains(h) && keep.contains(h),
    decreases q.len(),
{
    if q.len() > 0 {
        lemma_keep_members_contains(q.drop_last(), keep);
        let k = keep_members(q.drop_last(), keep);
        assert forall|h: u32| #[trigger] keep_members(q, keep).contains(h) <==> q.contains(h) && keep.contains(h) by {
            if q.contains(h) && keep.contains(h) {
                let i = choose|i: int| 0 <= i < q.len() && q[i] == h;
                if i < q.len() - 1 {
                    assert(q.drop_last()[i] == h);
                    assert(k.contains(h));
                    let j = choose|j: int| 0 <= j < k.len() && k[j] == h;
                    if keep.contains(q.last()) {
                        assert(k.push(q.last())[j] == h);
                    }
                } else {
                    assert(k.push(q.last())[k.len() as int] == h);
                }
            }
            if keep_members(q, keep).contains(h) {
                if keep.contains(q.last()) {
                    let kk = k.push(q.last());
                    let j = choose|j: int| 0 <= j < kk.len() && kk[j] == h;
                    if j < k.len() {
                        assert(k[j] == h);
                        assert(k.contains(h));
                        let i = choose|i: int| 0 <= i < q.drop_last().len() && q.drop_last()[i] == h;
                        assert(q[i] == h);
                    } else {
                        assert(q[q.len() - 1] == h);
                    }
                } else {
                    assert(k.contains(h));
                    let i = choose|i: int| 0 <= i < q.drop_last().len() && q.drop_last()[i] == h;
                    assert(q[i] == h);
                }
            }
        }
    }
}

/// The finite reading at which a sleep becomes ready.
pub open spec fn sleep_at<H, R>(op: Operation<H, R>) -> Option<u128> {
    match op {
        Operation::Sleep(d) => match d.0 {
            DeadlineState::At(t) => Some(t),
            _ => None,
        },
        _ => None,
    }
}

/// A sleep with a finite deadline that has passed at `now`.
pub open spec fn sleep_due<H, R>(op: Operation<H, R>, now: u64) -> bool {
    op matches Operation::Sleep(d) && d.0 matches DeadlineState::At(t) && t <= now
}

/// Dropping an inactive front entry keeps every sleep tracked.
proof fn lemma_drop_front_keeps_tracking<H, R>(
    ops: Map<u32, Operation<H, R>>,
    members: Set<u32>,
    before: Seq<DeadlineEntry>,
    after: Seq<DeadlineEntry>,
)
    requires
        before.len() > 0,
        after == before.subrange(1, before.len() as int),
        sorted_deadlines(before),
        !(ops.contains_key(before[0].2) && ops[before[0].2] == Operation::<H, R>::Sleep(Deadline(DeadlineState::At(before[0].0)))),
        forall|h: u32| #[trigger] ops.contains_key(h) && !members.contains(h) ==> sleep_tracked(ops[h], h, before),
    ensures
        sorted_deadlines(after),
        forall|h: u32| #[trigger] ops.contains_key(h) && !members.contains(h) ==> sleep_tracked(ops[h], h, after),
{
    assert forall|h: u32| #[trigger] ops.contains_key(h) && !members.contains(h) implies sleep_tracked(ops[h], h, after) by {
        if ops[h] matches Operation::Sleep(d) && d.0 is At {
            let i = choose|i: int| 0 <= i < before.len() && #[trigger] before[i].2 == h
                && ops[h] == Operation::<H, R>::Sleep(Deadline(DeadlineState::At(before[i].0)));
            assert(i != 0);
            assert(after[i - 1] == before[i]);
        }
    }
    assert forall|i: int, j: int| 0 <= i <= j < after.len() implies after[i].0 <= after[j].0 by {
        assert(after[i] == before[i + 1] && after[j] == before[j + 1]);
    }
}

/// Dropping the front entry of `handle` keeps every other sleep tracked.
proof fn lemma_drop_front_keeps_tracking_except<H, R>(
    ops: Map<u32, Operation<H, R>>,
    members: Set<u32>,
    before: Seq<DeadlineEntry>,
    after: Seq<DeadlineEntry>,
    handle: u32,
)
    requires
        before.len() > 0,
        before[0].2 == handle,
        after == before.subrange(1, before.len() as int),
        sorted_deadlines(before),
        forall|h: u32| #[trigger] ops.contains_key(h) && !members.contains(h) ==> sleep_tracked(ops[h], h, before),
    ensures
        sorted_deadlines(after),
        forall|h: u32| #[trigger] ops.contains_key(h) && !members.insert(handle).contains(h) ==> sleep_tracked(ops[h], h, after),
{
    assert forall|h: u32| #[trigger] ops.contains_key(h) && !members.insert(handle).contains(h) implies sleep_tracked(ops[h], h, after) by {
        if ops[h] matches Operation::Sleep(d) && d.0 is At {
            let i = choose|i: int| 0 <= i < before.len() && #[trigger] before[i].2 == h
                && ops[h] == Operation::<H, R>::Sleep(Deadline(DeadlineState::At(before[i].0)));
            assert(i != 0);
            assert(after[i - 1] == before[i]);
        }
    }
    assert forall|i: int, j: int| 0 <= i <= j < after.len() implies after[i].0 <= after[j].0 by {
        assert(after[i] == before[i + 1] && after[j] == before[j + 1]);
    }
}

/// Stepping once more from `handle_after(start, k)` lands on `handle_after(start, k + 1)`.
proof fn lemma_handle_after_step(start: u32, k: int)
    requires
        0 <= k,
    ensures
        handle_after(start, k + 1) == (if handle_after(start, k) == u32::MAX {
            0u32
        } else {
            (handle_after(start, k) + 1) as u32
        }),
{
    let a = start as int + k;
    let m = handle_space();
    assert(0 <= a % m < m);
    if a % m == m - 1 {
        assert((a + 1) % m == 0) by (nonlinear_arith)
            requires
                a % m == m - 1,
                m > 0,
                a >= 0,
        {
            vstd::arithmetic::div_mod::lemma_add_mod_noop(a, 1, m);
        }
    } else {
        assert((a + 1) % m == a % m + 1) by {
            vstd::arithmetic::div_mod::lemma_add_mod_noop(a, 1, m);
            vstd::arithmetic::div_mod::lemma_small_mod((a % m + 1) as nat, m as nat);
        }
    }
}

/// The handle one step after `h` is `handle_after(h, 1)`.
proof fn lemma_handle_after_one(h: u32)
    ensures
        handle_after(h, 1) == (if h == u32::MAX {
            0u32
        } else {
            (h + 1) as u32
        }),
{
    lemma_handle_after_step(h, 0);
    vstd::arithmetic::div_mod::lemma_small_mod(h as nat, handle_space() as nat);
}

/// For `k` below the handle space, the handle `k` steps after `start` lies at distance `k`.
proof fn lemma_handle_distance_of_after(start: u32, k: int)
    requires
        0 <= k < handle_space(),
    ensures
        handle_distance(start, handle_after(start, k)) == k,
{
    let m = handle_space();
    let h = handle_after(start, k);
    assert(h as int == (start as int + k) % m);
    // (((s + k) % m) - s + m) % m == k
    let a = start as int + k;
    vstd::arithmetic::div_mod::lemma_small_mod(k as nat, m as nat);
    if a < m {
        vstd::arithmetic::div_mod::lemma_small_mod(a as nat, m as nat);
        vstd::arithmetic::div_mod::lemma_fundamental_div_mod_converse(k + m, m, 1, k);
    } else {
        vstd::arithmetic::div_mod::lemma_fundamental_div_mod_converse(a, m, 1, a - m);
        assert(h as int == a - m);
    }
}

/// A handle is the one `handle_distance(start, h)` steps after `start`.
proof fn lemma_handle_after_of_distance(start: u32, h: u32)
    ensures
        handle_after(start, handle_distance(start, h)) == h,
        0 <= handle_distance(start, h) < handle_space(),
{
    let m = handle_space();
    let d = handle_distance(start, h);
    let x = h as int - start as int + m;
    assert(0 < x < 2 * m);
    if x >= m {
        assert(d == x - m) by {
            vstd::arithmetic::div_mod::lemma_fundamental_div_mod_converse(x, m, 1, x - m);
        }
        vstd::arithmetic::div_mod::lemma_small_mod(h as nat, m as nat);
    } else {
        vstd::arithmetic::div_mod::lemma_small_mod(x as nat, m as nat);
        assert(start as int + d == h as int + m);
        vstd::arithmetic::div_mod::lemma_fundamental_div_mod_converse(h as int + m, m, 1, h as int);
    }
}

/// The first `k` handles from `start` on are `k` distinct handles.
proof fn lemma_cyclic_range_len(start: u32, k: int)
    requires
        0 <= k <= handle_space(),
    ensures
        cyclic_range(start, k).finite(),
        cyclic_range(start, k).len() == k,
    decreases k,
{
    if k == 0 {
        assert(cyclic_range(start, 0) =~= Set::empty()) by {
            assert forall|h: u32| !cyclic_range(start, 0).contains(h) by {
                lemma_handle_after_of_distance(start, h);
            }
        }
    } else {
        lemma_cyclic_range_len(start, k - 1);
        let x = handle_after(start, k - 1);
        lemma_handle_distance_of_after(start, k - 1);
        assert(cyclic_range(start, k) =~= cyclic_range(start, k - 1).insert(x)) by {
            assert forall|h: u32| cyclic_range(start, k).contains(h) implies cyclic_range(
                start,
                k - 1,
            ).insert(x).contains(h) by {
                lemma_handle_after_of_distance(start, h);
            }
        }
        assert(!cyclic_range(start, k - 1).contains(x));
    }
}

} // verus!
