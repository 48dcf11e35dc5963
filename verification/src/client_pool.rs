//! A pool of HTTP clients, grouped by request configuration. Each client
//! serves a bounded number of requests at a time; idle clients are dropped
//! after a while.
use vstd::prelude::*;

verus! {

/// A pooled client with its bookkeeping.
pub struct ClientEntry<C> {
    /// The configuration the client was built for.
    pub key: u64,
    /// Identifies the entry for the tokens handed out for it.
    pub id: u64,
    pub client: C,
    /// Requests the client currently serves.
    pub in_flight: u32,
    /// When the client was last reserved.
    pub last_used: u64,
}

/// A reservation of a pooled client, to be released when the request ends.
#[derive(Clone, Copy, Debug, PartialEq, Eq, Structural)]
pub struct ClientToken {
    pub key: u64,
    pub id: u64,
}

/// The pool: entries of the same configuration are kept in the order they
/// were created.
pub struct ClientPool<C> {
    entries: Vec<ClientEntry<C>>,
    max_in_flight: u32,
    next_id: u64,
}

/// Whether entry `e` can take one more request.
pub open spec fn has_room<C>(e: ClientEntry<C>, max_in_flight: u32) -> bool {
    e.in_flight < max_in_flight
}

/// The index of the first entry for `key` with room, or -1.
pub open spec fn first_with_room<C>(entries: Seq<ClientEntry<C>>, key: u64, max_in_flight: u32) -> int
    decreases entries.len(),
{
    if entries.len() == 0 {
        -1
    } else {
        let k = first_with_room(entries.drop_last(), key, max_in_flight);
        if k >= 0 {
            k
        } else if entries.last().key == key && has_room(entries.last(), max_in_flight) {
            entries.len() - 1
        } else {
            -1
        }
    }
}

/// The index of the last entry for `key`, or -1.
pub open spec fn last_for_key<C>(entries: Seq<ClientEntry<C>>, key: u64) -> int
    decreases entries.len(),
{
    if entries.len() == 0 {
        -1
    } else if entries.last().key == key {
        entries.len() - 1
    } else {
        last_for_key(entries.drop_last(), key)
    }
}

/// Entry `e` after it was reserved at `now`.
pub open spec fn reserved<C>(e: ClientEntry<C>, now: u64) -> ClientEntry<C> {
    ClientEntry { in_flight: (e.in_flight + 1) as u32, last_used: now, ..e }
}

/// Whether an entry survives a cleanup at `now`: it was used within
/// `max_age`, or it still serves requests.
pub open spec fn survives<C>(e: ClientEntry<C>, now: u64, max_age: u64) -> bool {
    (if now >= e.last_used { now - e.last_used } else { 0 }) < max_age || e.in_flight > 0
}

/// The entries that survive a cleanup, in order.
pub open spec fn surviving<C>(entries: Seq<ClientEntry<C>>, now: u64, max_age: u64) -> Seq<ClientEntry<C>>
    decreases entries.len(),
{
    if entries.len() == 0 {
        Seq::empty()
    } else if survives(entries.last(), now, max_age) {
        surviving(entries.drop_last(), now, max_age).push(entries.last())
    } else {
        surviving(entries.drop_last(), now, max_age)
    }
}

/// The index of the entry with `id`, or -1.
pub open spec fn index_of_id<C>(entries: Seq<ClientEntry<C>>, id: u64) -> int
    decreases entries.len(),
{
    if entries.len() == 0 {
        -1
    } else if entries.last().id == id {
        entries.len() - 1
    } else {
        index_of_id(entries.drop_last(), id)
    }
}

proof fn lemma_index_of_id<C>(entries: Seq<ClientEntry<C>>, id: u64)
    ensures
        -1 <= index_of_id(entries, id) < entries.len(),
        index_of_id(entries, id) >= 0 ==> entries[index_of_id(entries, id)].id == id,
        index_of_id(entries, id) < 0 ==> forall|i: int| 0 <= i < entries.len() ==> (#[trigger] entries[i]).id != id,
    decreases entries.len(),
{
    if entries.len() > 0 {
        let p = entries.drop_last();
        lemma_index_of_id(p, id);
        if index_of_id(entries, id) < 0 {
            assert forall|i: int| 0 <= i < entries.len() implies (#[trigger] entries[i]).id != id by {
                if i < entries.len() - 1 {
                    assert(entries[i] == p[i]);
                }
            }
        }
    }
}

proof fn lemma_first_with_room<C>(entries: Seq<ClientEntry<C>>, key: u64, max_in_flight: u32)
    ensures
        -1 <= first_with_room(entries, key, max_in_flight) < entries.len(),
        first_with_room(entries, key, max_in_flight) >= 0 ==> {
            let k = first_with_room(entries, key, max_in_flight);
            &&& entries[k].key == key
            &&& has_room(entries[k], max_in_flight)
            &&& forall|i: int| 0 <= i < k ==> !((#[trigger] entries[i]).key == key && has_room(entries[i], max_in_flight))
        },
        first_with_room(entries, key, max_in_flight) < 0 ==> forall|i: int| 0 <= i < entries.len()
            ==> !((#[trigger] entries[i]).key == key && has_room(entries[i], max_in_flight)),
    decreases entries.len(),
{
    if entries.len() > 0 {
        let p = entries.drop_last();
        lemma_first_with_room(p, key, max_in_flight);
        let k = first_with_room(entries, key, max_in_flight);
        if k >= 0 {
            assert(entries[k] == p[k] || k == entries.len() - 1);
            assert forall|i: int| 0 <= i < k implies !((#[trigger] entries[i]).key == key && has_room(entries[i], max_in_flight)) by {
                assert(entries[i] == p[i]);
            }
        } else {
            assert forall|i: int| 0 <= i < entries.len() implies !((#[trigger] entries[i]).key == key && has_room(entries[i], max_in_flight)) by {
                if i < entries.len() - 1 {
                    assert(entries[i] == p[i]);
                }
            }
        }
    }
}

proof fn lemma_last_for_key<C>(entries: Seq<ClientEntry<C>>, key: u64)
    ensures
        -1 <= last_for_key(entries, key) < entries.len(),
        last_for_key(entries, key) >= 0 ==> entries[last_for_key(entries, key)].key == key,
        forall|i: int| last_for_key(entries, key) < i < entries.len() ==> (#[trigger] entries[i]).key != key,
    decreases entries.len(),
{
    if entries.len() > 0 {
        let p = entries.drop_last();
        lemma_last_for_key(p, key);
        let k = last_for_key(entries, key);
        if k >= 0 && k < entries.len() - 1 {
            assert(entries[k] == p[k]);
        }
        assert forall|i: int| k < i < entries.len() implies (#[trigger] entries[i]).key != key by {
            if i < entries.len() - 1 {
                assert(entries[i] == p[i]);
            }
        }
    }
}

impl<C> ClientPool<C> {
    /// The pooled entries, in order.
    pub closed spec fn entries(&self) -> Seq<ClientEntry<C>> {
        self.entries@
    }

    /// The most requests a client serves at a time.
    pub closed spec fn max_in_flight(&self) -> u32 {
        self.max_in_flight
    }

    /// The identifier the next new entry gets.
    pub closed spec fn next_id(&self) -> u64 {
        self.next_id
    }

    /// The pool's invariant: identifiers are distinct and below `next_id`, and
    /// no client serves more requests than allowed (a new client always
    /// serves the request it was created for).
    pub closed spec fn wf(&self) -> bool {
        &&& forall|i: int| 0 <= i < self.entries@.len() ==> (#[trigger] self.entries@[i]).id < self.next_id
        &&& forall|i: int, j: int| 0 <= i < self.entries@.len() && 0 <= j < self.entries@.len() && i != j
            ==> (#[trigger] self.entries@[i]).id != (#[trigger] self.entries@[j]).id
        &&& forall|i: int| 0 <= i < self.entries@.len() ==> (#[trigger] self.entries@[i]).in_flight <= if self.max_in_flight
            > 0 { self.max_in_flight } else { 1 }
    }

    /// In a well-formed pool no client serves more than the allowed number of
    /// requests (one, when none are allowed: the one it was created for).
    pub proof fn lemma_in_flight_bounded(&self, i: int)
        requires
            self.wf(),
            0 <= i < self.entries().len(),
        ensures
            self.entries()[i].in_flight <= (if self.max_in_flight() > 0 { self.max_in_flight() } else { 1 }),
    {
    }

    /// An empty pool whose clients serve at most `max_in_flight` requests each.
    pub fn new(max_in_flight: u32) -> (p: Self)
        ensures
            p.wf(),
            p.entries() == Seq::<ClientEntry<C>>::empty(),
            p.max_in_flight() == max_in_flight,
            p.next_id() == 0,
    {
        ClientPool { entries: Vec::new(), max_in_flight, next_id: 0 }
    }

    /// Reserve the first client for `key` that has room, if any.
    pub fn try_reserve(&mut self, key: u64, now: u64) -> (t: Option<ClientToken>)
        requires
            old(self).wf(),
        ensures
            final(self).wf(),
            final(self).max_in_flight() == old(self).max_in_flight(),
            final(self).next_id() == old(self).next_id(),
            ({
                let k = first_with_room(old(self).entries(), key, old(self).max_in_flight());
                &&& k < 0 ==> t is None && final(self).entries() == old(self).entries()
                &&& k >= 0 ==> t == Some(ClientToken { key, id: old(self).entries()[k].id })
                    && final(self).entries() == old(self).entries().update(k, reserved(old(self).entries()[k], now))
            }),
    {
        match self.find_room(key) {
            None => None,
            Some(i) => {
                let ghost before = self.entries@;
                self.entries[i].in_flight = self.entries[i].in_flight + 1;
                self.entries[i].last_used = now;
                proof {
                    assert(self.entries@ =~= before.update(i as int, reserved(before[i as int], now)));
                    assert forall|j: int| 0 <= j < self.entries@.len() implies (#[trigger] self.entries@[j]).id == before[j].id by {}
                }
                Some(ClientToken { key, id: self.entries[i].id })
            },
        }
    }

    /// The index of the first entry for `key` with room.
    fn find_room(&self, key: u64) -> (r: Option<usize>)
        ensures
            r is None ==> first_with_room(self.entries@, key, self.max_in_flight) < 0,
            r matches Some(i) ==> i == first_with_room(self.entries@, key, self.max_in_flight) && i < self.entries@.len()
                && self.entries@[i as int].in_flight < self.max_in_flight,
    {
        let mut i: usize = 0;
        while i < self.entries.len()
            invariant
                i <= self.entries@.len(),
                forall|j: int| 0 <= j < i ==> !((#[trigger] self.entries@[j]).key == key && has_room(self.entries@[j], self.max_in_flight)),
            decreases self.entries@.len() - i,
        {
            if self.entries[i].key == key && self.entries[i].in_flight < self.max_in_flight {
                proof {
                    lemma_first_with_room(self.entries@, key, self.max_in_flight);
                    let k = first_with_room(self.entries@, key, self.max_in_flight);
                    if k != i {
                        assert(k > i ==> (self.entries@[i as int].key == key && has_room(self.entries@[i as int], self.max_in_flight)));
                    }
                }
                return Some(i);
            }
            i = i + 1;
        }
        proof {
            lemma_first_with_room(self.entries@, key, self.max_in_flight);
        }
        None
    }

    /// The index of the entry with `id`.
    fn find_id(&self, id: u64) -> (r: Option<usize>)
        requires
            self.wf(),
        ensures
            r is None ==> index_of_id(self.entries@, id) < 0,
            r matches Some(i) ==> i == index_of_id(self.entries@, id) && i < self.entries@.len(),
    {
        let mut i: usize = 0;
        while i < self.entries.len()
            invariant
                self.wf(),
                i <= self.entries@.len(),
                forall|j: int| 0 <= j < i ==> (#[trigger] self.entries@[j]).id != id,
            decreases self.entries@.len() - i,
        {
            if self.entries[i].id == id {
                proof {
                    lemma_index_of_id(self.entries@, id);
                    let k = index_of_id(self.entries@, id);
                    if k != i {
                        assert(self.entries@[k].id != self.entries@[i as int].id);
                    }
                }
                return Some(i);
            }
            i = i + 1;
        }
        proof {
            lemma_index_of_id(self.entries@, id);
        }
        None
    }

    /// Add a client built for `key`, reserved for one request. If meanwhile
    /// the last client for `key` has room, it is reserved instead and the new
    /// client is handed back, to be dropped.
    #[verifier::loop_isolation(false)]
    pub fn insert(&mut self, key: u64, client: C, now: u64) -> (r: (ClientToken, Option<C>))
        requires
            old(self).wf(),
            old(self).next_id() < u64::MAX,
        ensures
            final(self).wf(),
            final(self).max_in_flight() == old(self).max_in_flight(),
            ({
                let k = last_for_key(old(self).entries(), key);
                if k >= 0 && has_room(old(self).entries()[k], old(self).max_in_flight()) {
                    &&& r.0 == ClientToken { key, id: old(self).entries()[k].id }
                    &&& r.1 == Some(client)
                    &&& final(self).entries() == old(self).entries().update(k, reserved(old(self).entries()[k], now))
                    &&& final(self).next_id() == old(self).next_id()
                } else {
                    &&& r.0 == ClientToken { key, id: old(self).next_id() }
                    &&& r.1 is None
                    &&& final(self).entries() == old(self).entries().push(
                        ClientEntry { key, id: old(self).next_id(), client, in_flight: 1, last_used: now },
                    )
                    &&& final(self).next_id() == old(self).next_id() + 1
                }
            }),
    {
        proof {
            lemma_last_for_key(self.entries@, key);
        }
        let mut i: usize = self.entries.len();
        while i > 0
            invariant
                i <= self.entries@.len(),
                forall|j: int| i <= j < self.entries@.len() ==> (#[trigger] self.entries@[j]).key != key,
            decreases i,
        {
            if self.entries[i - 1].key == key {
                break;
            }
            i = i - 1;
        }
        proof {
            let k = last_for_key(self.entries@, key);
            if i > 0 && self.entries@[i - 1].key == key {
                assert(k == i - 1) by {
                    if k < i - 1 {
                        assert(self.entries@[i - 1].key != key);
                    }
                }
            } else {
                assert(i == 0);
                assert(k < 0) by {
                    if k >= 0 {
                        assert(self.entries@[k].key != key);
                    }
                }
            }
        }
        if i > 0 && self.entries[i - 1].key == key && self.entries[i - 1].in_flight < self.max_in_flight {
            let ghost before = self.entries@;
            self.entries[i - 1].in_flight = self.entries[i - 1].in_flight + 1;
            self.entries[i - 1].last_used = now;
            proof {
                assert(self.entries@ =~= before.update(i - 1, reserved(before[i - 1], now)));
            }
            return (ClientToken { key, id: self.entries[i - 1].id }, Some(client));
        }
        let id = self.next_id;
        self.entries.push(ClientEntry { key, id, client, in_flight: 1, last_used: now });
        self.next_id = self.next_id + 1;
        (ClientToken { key, id }, None)
    }

    /// End a request on the client that `token` reserved.
    pub fn release(&mut self, token: ClientToken)
        requires
            old(self).wf(),
        ensures
            final(self).wf(),
            final(self).max_in_flight() == old(self).max_in_flight(),
            final(self).next_id() == old(self).next_id(),
            ({
                let k = index_of_id(old(self).entries(), token.id);
                &&& k < 0 || old(self).entries()[k].in_flight == 0 ==> final(self).entries() == old(self).entries()
                &&& k >= 0 && old(self).entries()[k].in_flight > 0 ==> final(self).entries() == old(self).entries().update(
                    k,
                    ClientEntry { in_flight: (old(self).entries()[k].in_flight - 1) as u32, ..old(self).entries()[k] },
                )
            }),
    {
        if let Some(i) = self.find_id(token.id) {
            if self.entries[i].in_flight > 0 {
                let ghost before = self.entries@;
                self.entries[i].in_flight = self.entries[i].in_flight - 1;
                proof {
                    assert(self.entries@ =~= before.update(
                        i as int,
                        ClientEntry { in_flight: (before[i as int].in_flight - 1) as u32, ..before[i as int] },
                    ));
                    assert forall|j: int| 0 <= j < self.entries@.len() implies (#[trigger] self.entries@[j]).id == before[j].id by {}
                }
            }
        }
    }

    /// Drop the clients that were idle for `max_age` and serve no request.
    pub fn cleanup(&mut self, now: u64, max_age: u64)
        requires
            old(self).wf(),
        ensures
            final(self).wf(),
            final(self).max_in_flight() == old(self).max_in_flight(),
            final(self).next_id() == old(self).next_id(),
            final(self).entries() == surviving(old(self).entries(), now, max_age),
    {
        let ghost all = self.entries@;
        let mut kept: Vec<ClientEntry<C>> = Vec::new();
        let mut rest: Vec<ClientEntry<C>> = Vec::new();
        std::mem::swap(&mut rest, &mut self.entries);
        let n = rest.len();
        let mut i: usize = 0;
        proof {
            assert(all.skip(0) =~= all);
            assert(all.take(0) =~= Seq::<ClientEntry<C>>::empty());
        }
        while i < n
            invariant
                n == all.len(),
                i <= n,
                rest@ == all.skip(i as int),
                kept@ == surviving(all.take(i as int), now, max_age),
            decreases n - i,
        {
            let e = rest.remove(0);
            proof {
                assert(e == all[i as int]);
                assert(rest@ =~= all.skip(i + 1));
                assert(all.take(i + 1).drop_last() =~= all.take(i as int));
                assert(all.take(i + 1).last() == e);
            }
            let idle: u64 = if now >= e.last_used { now - e.last_used } else { 0 };
            if idle < max_age || e.in_flight > 0 {
                kept.push(e);
            }
            i = i + 1;
        }
        proof {
            assert(all.take(n as int) =~= all);
            lemma_surviving_subseq(all, now, max_age);
        }
        self.entries = kept;
    }

    /// The client that `token` reserved, if it is still pooled.
    pub fn client(&self, token: ClientToken) -> (c: Option<&C>)
        requires
            self.wf(),
        ensures
            ({
                let k = index_of_id(self.entries(), token.id);
                &&& k < 0 ==> c is None
                &&& k >= 0 ==> (c matches Some(x) && *x == self.entries()[k].client)
            }),
    {
        match self.find_id(token.id) {
            Some(i) => Some(&self.entries[i].client),
            None => None,
        }
    }
}

/// Every surviving entry is an entry of the pool, and they keep their order.
proof fn lemma_surviving_subseq<C>(entries: Seq<ClientEntry<C>>, now: u64, max_age: u64)
    ensures
        forall|i: int| 0 <= i < surviving(entries, now, max_age).len() ==> exists|j: int|
            0 <= j < entries.len() && entries[j] == #[trigger] surviving(entries, now, max_age)[i],
        forall|i: int, j: int| 0 <= i < j < surviving(entries, now, max_age).len() ==> exists|a: int, b: int|
            0 <= a < b < entries.len() && entries[a] == #[trigger] surviving(entries, now, max_age)[i]
                && entries[b] == #[trigger] surviving(entries, now, max_age)[j],
    decreases entries.len(),
{
    if entries.len() > 0 {
        let p = entries.drop_last();
        lemma_surviving_subseq(p, now, max_age);
        let s = surviving(entries, now, max_age);
        let sp = surviving(p, now, max_age);
        assert forall|i: int| 0 <= i < s.len() implies exists|j: int| 0 <= j < entries.len() && entries[j] == #[trigger] s[i] by {
            if i < sp.len() {
                assert(s[i] == sp[i]);
                let j = choose|j: int| 0 <= j < p.len() && p[j] == sp[i];
                assert(entries[j] == p[j]);
            } else {
                assert(entries[entries.len() - 1] == s[i]);
            }
        }
        assert forall|i: int, j: int| 0 <= i < j < s.len() implies exists|a: int, b: int|
            0 <= a < b < entries.len() && entries[a] == #[trigger] s[i] && entries[b] == #[trigger] s[j] by {
            if j < sp.len() {
                assert(s[i] == sp[i] && s[j] == sp[j]);
                let (a, b) = choose|a: int, b: int| 0 <= a < b < p.len() && p[a] == sp[i] && p[b] == sp[j];
                assert(entries[a] == p[a] && entries[b] == p[b]);
            } else {
                assert(s[i] == sp[i]);
                let a = choose|a: int| 0 <= a < p.len() && p[a] == sp[i];
                assert(entries[a] == p[a]);
                assert(entries[entries.len() - 1] == s[j]);
            }
        }
    }
}

/// A cleanup never drops a client that serves a request.
pub proof fn lemma_cleanup_keeps_busy<C>(entries: Seq<ClientEntry<C>>, now: u64, max_age: u64, i: int)
    requires
        0 <= i < entries.len(),
        entries[i].in_flight > 0,
    ensures
        surviving(entries, now, max_age).contains(entries[i]),
    decreases entries.len(),
{
    if i < entries.len() - 1 {
        lemma_cleanup_keeps_busy(entries.drop_last(), now, max_age, i);
        let sp = surviving(entries.drop_last(), now, max_age);
        let w = choose|w: int| 0 <= w < sp.len() && sp[w] == entries[i];
        let s = surviving(entries, now, max_age);
        assert(s[w] == sp[w]);
    } else {
        let s = surviving(entries, now, max_age);
        assert(s[s.len() - 1] == entries[i]);
    }
}

/// Releasing a reservation undoes it, up to the time of last use.
pub proof fn lemma_release_undoes_reserve<C>(e: ClientEntry<C>, now: u64)
    requires
        e.in_flight < u32::MAX,
    ensures
        ({
            let r = reserved(e, now);
            ClientEntry { in_flight: (r.in_flight - 1) as u32, ..r } == ClientEntry { last_used: now, ..e }
        }),
{
}

} // verus!
