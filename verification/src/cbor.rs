//! Chunked streaming of serialized output to a host callback.
//!
//! A [`CallbackWriter`] buffers bytes and hands every full chunk to its
//! emitter as a continuation. The last (possibly partial) chunk is emitted
//! with the writer's end type on [`CallbackWriter::finish`]; a writer that is
//! abandoned before finishing emits an empty abort marker instead.
use vstd::prelude::*;
use vstd::arithmetic::div_mod::lemma_fundamental_div_mod_converse;

verus! {

/// Default chunk size for streamed CBOR output.
///
/// Each full chunk crosses the host boundary as a separate emit call, so small
/// chunks dominate large-value latency while large chunks delay when the first
/// bytes reach the host.
pub const DEFAULT_CHUNK_SIZE: usize = 64 * 1024;

/// The kind of a chunk handed to the host.
#[derive(Clone, Copy, Debug, PartialEq, Eq, Structural)]
pub enum EmitType {
    /// More chunks of the same value follow.
    Continuation,
    /// The final chunk of a complete result.
    End,
    /// The final chunk of a partial (streamed) result.
    PartialResult,
    /// The value was abandoned; previously emitted chunks must be discarded.
    Abort,
}

/// Receiver of emitted chunks (the host callback).
pub trait Emit {
    /// Every emission received so far, in order.
    spec fn emitted(&self) -> Seq<(EmitType, Seq<u8>)>;

    /// Receive one chunk.
    fn emit(&mut self, emit_type: EmitType, bytes: &[u8])
        ensures
            final(self).emitted() == old(self).emitted().push((emit_type, bytes@)),
    ;
}

/// An emitter that records every emission, in order.
pub struct EmissionLog {
    entries: Vec<(EmitType, Vec<u8>)>,
}

/// The abstract content of one recorded emission.
pub open spec fn emission_view(e: (EmitType, Vec<u8>)) -> (EmitType, Seq<u8>) {
    (e.0, e.1@)
}

impl EmissionLog {
    /// An empty log.
    pub fn new() -> (log: Self)
        ensures
            log.emitted() == Seq::<(EmitType, Seq<u8>)>::empty(),
    {
        let log = EmissionLog { entries: Vec::new() };
        assert(log.entries@.map_values(|e: (EmitType, Vec<u8>)| emission_view(e)) =~= Seq::empty());
        log
    }

    /// The recorded emissions.
    pub fn into_entries(self) -> (entries: Vec<(EmitType, Vec<u8>)>)
        ensures
            entries@.map_values(|e: (EmitType, Vec<u8>)| emission_view(e)) == self.emitted(),
    {
        self.entries
    }
}

impl Emit for EmissionLog {
    closed spec fn emitted(&self) -> Seq<(EmitType, Seq<u8>)> {
        self.entries@.map_values(|e: (EmitType, Vec<u8>)| emission_view(e))
    }

    fn emit(&mut self, emit_type: EmitType, bytes: &[u8]) {
        let mut copy: Vec<u8> = Vec::new();
        let mut i: usize = 0;
        while i < bytes.len()
            invariant
                i <= bytes@.len(),
                copy@ == bytes@.subrange(0, i as int),
            decreases bytes@.len() - i,
        {
            copy.push(bytes[i]);
            i = i + 1;
        }
        assert(copy@ =~= bytes@);
        self.entries.push((emit_type, copy));
        assert(self.entries@.map_values(|e: (EmitType, Vec<u8>)| emission_view(e)) =~= old(
            self,
        ).entries@.map_values(|e: (EmitType, Vec<u8>)| emission_view(e)).push((emit_type, bytes@)));
    }
}

/// The payloads of a sequence of emissions, concatenated in order.
pub open spec fn payloads(s: Seq<(EmitType, Seq<u8>)>) -> Seq<u8>
    decreases s.len(),
{
    if s.len() == 0 {
        Seq::empty()
    } else {
        payloads(s.drop_last()) + s.last().1
    }
}

/// Every emission is a continuation carrying exactly `chunk_size` bytes.
pub open spec fn full_continuations(s: Seq<(EmitType, Seq<u8>)>, chunk_size: nat) -> bool {
    forall|i: int|
        0 <= i < s.len() ==> (#[trigger] s[i]).0 == EmitType::Continuation && s[i].1.len()
            == chunk_size
}

/// The first `k` consecutive `chunk_size`-byte chunks of `bytes`, as continuations.
pub open spec fn continuation_chunks(bytes: Seq<u8>, chunk_size: nat, k: nat) -> Seq<
    (EmitType, Seq<u8>),
> {
    Seq::new(
        k,
        |i: int| (EmitType::Continuation, bytes.subrange(i * chunk_size, (i + 1) * chunk_size)),
    )
}

/// The number of full chunks a writer hands over when `total` bytes have passed
/// through its buffer: a full buffer is only emitted once another byte arrives.
pub open spec fn flushed_chunks(total: nat, chunk_size: nat) -> nat {
    if total == 0 {
        0
    } else {
        ((total - 1) as nat / chunk_size) as nat
    }
}

/// A bounded writer that streams full chunks and marks the final chunk.
pub struct CallbackWriter<E: Emit> {
    buffer: Vec<u8>,
    chunk_size: usize,
    emit: E,
    end_type: EmitType,
    finished: bool,
    /// The emitter's log when the writer was created.
    prior: Ghost<Seq<(EmitType, Seq<u8>)>>,
    /// Every byte written so far.
    written: Ghost<Seq<u8>>,
}

impl<E: Emit> CallbackWriter<E> {
    /// The emissions made by this writer so far.
    pub closed spec fn own_emissions(&self) -> Seq<(EmitType, Seq<u8>)> {
        self.emit.emitted().skip(self.prior@.len() as int)
    }

    /// The emitter's log when the writer was created.
    pub closed spec fn prior(&self) -> Seq<(EmitType, Seq<u8>)> {
        self.prior@
    }

    /// Every byte written so far.
    pub closed spec fn written(&self) -> Seq<u8> {
        self.written@
    }

    /// The bytes waiting in the buffer.
    pub closed spec fn buffered(&self) -> Seq<u8> {
        self.buffer@
    }

    /// The size of a full chunk.
    pub closed spec fn chunk_size(&self) -> nat {
        self.chunk_size as nat
    }

    /// The emission type of the final chunk.
    pub closed spec fn end_type(&self) -> EmitType {
        self.end_type
    }

    /// Well-formedness: the emitter saw the prior log followed by full
    /// continuations, which together with the buffer hold every written byte;
    /// the last written byte is still buffered.
    pub closed spec fn wf(&self) -> bool {
        &&& self.wf_core()
        &&& self.written@.len() > 0 ==> self.buffer@.len() >= 1
    }

    /// `wf`, except that a full chunk may just have been emitted.
    closed spec fn wf_core(&self) -> bool {
        &&& self.chunk_size >= 1
        &&& self.buffer@.len() <= self.chunk_size
        &&& !self.finished
        &&& self.prior@.len() <= self.emit.emitted().len()
        &&& self.emit.emitted().take(self.prior@.len() as int) == self.prior@
        &&& full_continuations(self.own_emissions(), self.chunk_size as nat)
        &&& payloads(self.own_emissions()) + self.buffer@ == self.written@
        &&& self.own_emissions() == continuation_chunks(
            self.written@,
            self.chunk_size as nat,
            self.own_emissions().len(),
        )
    }

    /// A writer with the default chunk size.
    pub fn new(emit: E, end_type: EmitType) -> (w: Self)
        ensures
            w.wf(),
            w.chunk_size() == DEFAULT_CHUNK_SIZE,
            w.end_type() == end_type,
            w.prior() == emit.emitted(),
            w.own_emissions() == Seq::<(EmitType, Seq<u8>)>::empty(),
            w.written() == Seq::<u8>::empty(),
            w.buffered() == Seq::<u8>::empty(),
    {
        Self::with_chunk_size(emit, end_type, DEFAULT_CHUNK_SIZE)
    }

    /// A writer whose full chunks hold `chunk_size` bytes (at least one).
    pub fn with_chunk_size(emit: E, end_type: EmitType, chunk_size: usize) -> (w: Self)
        ensures
            w.wf(),
            w.chunk_size() == (if chunk_size == 0 { 1 } else { chunk_size }),
            w.end_type() == end_type,
            w.prior() == emit.emitted(),
            w.own_emissions() == Seq::<(EmitType, Seq<u8>)>::empty(),
            w.written() == Seq::<u8>::empty(),
            w.buffered() == Seq::<u8>::empty(),
    {
        let chunk_size = if chunk_size == 0 {
            1
        } else {
            chunk_size
        };
        let ghost prior = emit.emitted();
        let w = CallbackWriter {
            buffer: Vec::new(),
            chunk_size,
            emit,
            end_type,
            finished: false,
            prior: Ghost(prior),
            written: Ghost(Seq::empty()),
        };
        assert(w.emit.emitted().take(prior.len() as int) =~= prior);
        assert(w.own_emissions() =~= Seq::empty());
        assert(continuation_chunks(Seq::empty(), chunk_size as nat, 0) =~= Seq::empty());
        assert(payloads(w.own_emissions()) + w.buffer@ =~= Seq::empty());
        w
    }

    /// Hand a non-empty buffer to the emitter as a continuation.
    fn flush(&mut self)
        requires
            old(self).wf(),
            old(self).buffer@.len() == old(self).chunk_size,
        ensures
            final(self).wf_core(),
            final(self).buffer@ == Seq::<u8>::empty(),
            final(self).written@ == old(self).written@,
            final(self).own_emissions() == old(self).own_emissions().push(
                (EmitType::Continuation, old(self).buffer@),
            ),
            final(self).prior@ == old(self).prior@,
            final(self).chunk_size == old(self).chunk_size,
            final(self).end_type == old(self).end_type,
    {
        let ghost old_own = self.own_emissions();
        let ghost old_all = self.emit.emitted();
        let ghost cs = self.chunk_size as nat;
        let ghost n = old_own.len();
        if !self.buffer.is_empty() {
            self.emit.emit(EmitType::Continuation, self.buffer.as_slice());
            let ghost chunk = self.buffer@;
            self.buffer.clear();
            proof {
                let new_all = self.emit.emitted();
                assert(new_all == old_all.push((EmitType::Continuation, chunk)));
                assert(new_all.take(self.prior@.len() as int) =~= old_all.take(
                    self.prior@.len() as int,
                ));
                assert(self.own_emissions() =~= old_own.push((EmitType::Continuation, chunk)));
                assert(self.own_emissions().drop_last() =~= old_own);
                lemma_payloads_push(old_own, (EmitType::Continuation, chunk));
                // the new chunk is the next slice of the written bytes
                lemma_full_payload_len(old_own, cs);
                assert(n * cs + cs == (n + 1) * cs) by (nonlinear_arith);
                lemma_continuation_payloads(self.written@, cs, n);
                assert(payloads(old_own).len() == n * cs);
                assert(chunk =~= self.written@.subrange((n * cs) as int, ((n + 1) * cs) as int)) by {
                    assert(payloads(old_own) + chunk == self.written@);
                    assert forall|j: int| 0 <= j < chunk.len() implies chunk[j]
                        == self.written@.subrange((n * cs) as int, ((n + 1) * cs) as int)[j] by {
                        assert(self.written@[n * cs + j] == (payloads(old_own) + chunk)[n * cs
                            + j]);
                    }
                }
                assert(self.own_emissions() =~= continuation_chunks(self.written@, cs, n + 1));
                assert(payloads(self.own_emissions()) + self.buffer@ =~= self.written@);
            }
        }
    }

    /// Buffer `bytes`, emitting every chunk that fills up while more bytes follow.
    pub fn write_all(&mut self, bytes: &[u8])
        requires
            old(self).wf(),
        ensures
            final(self).wf(),
            final(self).written() == old(self).written() + bytes@,
            final(self).chunk_size() == old(self).chunk_size(),
            final(self).end_type() == old(self).end_type(),
            final(self).prior() == old(self).prior(),
            final(self).own_emissions() == continuation_chunks(
                final(self).written(),
                final(self).chunk_size(),
                final(self).own_emissions().len(),
            ),
            old(self).own_emissions().len() + flushed_chunks(
                old(self).buffered().len() + bytes@.len(),
                old(self).chunk_size(),
            ) == final(self).own_emissions().len(),
            final(self).buffered() == final(self).written().skip(
                (final(self).own_emissions().len() * final(self).chunk_size()) as int,
            ),
            final(self).own_emissions().len() == flushed_chunks(final(self).written().len(), final(self).chunk_size()),
            final(self).own_emissions().len() * final(self).chunk_size() + final(self).buffered().len()
                == final(self).written().len(),
    {
        let ghost b = self.buffer@.len();
        let ghost cs = self.chunk_size as nat;
        let ghost n0 = self.own_emissions().len();
        let ghost w0 = self.written@;
        proof {
            lemma_full_payload_len(self.own_emissions(), cs);
            lemma_continuation_payloads(w0, cs, n0);
        }
        let mut i: usize = 0;
        while i < bytes.len()
            invariant
                self.wf(),
                i <= bytes@.len(),
                self.written@ == w0 + bytes@.subrange(0, i as int),
                self.chunk_size as nat == cs,
                cs >= 1,
                self.end_type == old(self).end_type,
                self.prior@ == old(self).prior@,
                self.own_emissions().len() >= n0,
                (self.own_emissions().len() - n0) * cs + self.buffer@.len() == b + i,
                b + i == 0 || self.buffer@.len() >= 1,
            decreases bytes@.len() - i,
        {
            if self.buffer.len() == self.chunk_size {
                proof {
                    let n = self.own_emissions().len();
                    assert((n + 1 - n0) * cs == (n - n0) * cs + cs) by (nonlinear_arith);
                }
                self.flush();
            }
            let ghost before = self.written@;
            let ghost n = self.own_emissions().len();
            self.buffer.push(bytes[i]);
            proof {
                self.written@ = before.push(bytes@[i as int]);
                assert(bytes@.subrange(0, i + 1) =~= bytes@.subrange(0, i as int).push(
                    bytes@[i as int],
                ));
                assert(payloads(self.own_emissions()) + self.buffer@ =~= self.written@);
                lemma_full_payload_len(self.own_emissions(), cs);
                assert(self.written@.subrange(0, before.len() as int) =~= before);
                lemma_continuation_prefix(before, self.written@, cs, n);
            }
            i = i + 1;
        }
        proof {
            assert(bytes@.subrange(0, i as int) =~= bytes@);
            let n = self.own_emissions().len();
            let t = b + i;
            lemma_full_payload_len(self.own_emissions(), cs);
            if t == 0 {
                assert((n - n0) * cs == 0);
                assert(n - n0 == 0) by (nonlinear_arith)
                    requires
                        (n - n0) * cs == 0,
                        cs >= 1,
                ;
            }
            if t > 0 {
                let r = self.buffer@.len();
                assert((t - 1) as int == (n - n0) * cs + (r - 1));
                lemma_fundamental_div_mod_converse((t - 1) as int, cs as int, (n - n0) as int, (r - 1) as int);
            }
            assert(self.buffer@ =~= self.written@.skip((n * cs) as int)) by {
                assert(payloads(self.own_emissions()) + self.buffer@ == self.written@);
                assert forall|j: int| 0 <= j < self.buffer@.len() implies self.buffer@[j]
                    == self.written@.skip((n * cs) as int)[j] by {
                    assert(self.written@[n * cs + j] == (payloads(self.own_emissions())
                        + self.buffer@)[n * cs + j]);
                }
            }
            self.lemma_counts();
        }
    }

    /// A writer's counts: each emission carries a full chunk, the buffer the
    /// rest, and a full buffer is only emitted once another byte arrives.
    proof fn lemma_counts(&self)
        requires
            self.wf(),
        ensures
            self.own_emissions().len() * self.chunk_size() + self.buffered().len() == self.written().len(),
            self.own_emissions().len() == flushed_chunks(self.written().len(), self.chunk_size()),
            self.buffered() == self.written().skip((self.own_emissions().len() * self.chunk_size()) as int),
    {
        let n = self.own_emissions().len();
        let cs = self.chunk_size as nat;
        let r = self.buffer@.len();
        lemma_full_payload_len(self.own_emissions(), cs);
        assert(payloads(self.own_emissions()) + self.buffer@ == self.written@);
        if self.written@.len() > 0 {
            assert((self.written@.len() - 1) as int == n * cs + (r - 1));
            lemma_fundamental_div_mod_converse((self.written@.len() - 1) as int, cs as int, n as int, (r - 1) as int);
        } else {
            assert(n * cs == 0);
            assert(n == 0) by (nonlinear_arith)
                requires
                    n * cs == 0,
                    cs >= 1,
            ;
        }
        assert(self.buffer@ =~= self.written@.skip((n * cs) as int)) by {
            assert forall|j: int| 0 <= j < self.buffer@.len() implies self.buffer@[j]
                == self.written@.skip((n * cs) as int)[j] by {
                assert(self.written@[n * cs + j] == (payloads(self.own_emissions()) + self.buffer@)[n * cs + j]);
            }
        }
    }

    /// Emit the buffered final chunk with the end type, after serialization
    /// succeeded, and give the emitter back.
    pub fn finish(self) -> (emit: E)
        requires
            self.wf(),
        ensures
            emit.emitted() == self.prior() + self.own_emissions().push(
                (self.end_type(), self.buffered()),
            ),
            payloads(emit.emitted().skip(self.prior().len() as int)) == self.written(),
            emit.emitted() == self.prior() + continuation_chunks(
                self.written(),
                self.chunk_size(),
                flushed_chunks(self.written().len(), self.chunk_size()),
            ).push(
                (
                    self.end_type(),
                    self.written().skip(
                        (flushed_chunks(self.written().len(), self.chunk_size()) * self.chunk_size()) as int,
                    ),
                ),
            ),
    {
        proof {
            self.lemma_counts();
        }
        let CallbackWriter { buffer, chunk_size, mut emit, end_type, finished, prior, written } =
            self;
        let ghost before = emit.emitted();
        emit.emit(end_type, buffer.as_slice());
        proof {
            let own = before.skip(prior@.len() as int);
            assert(before =~= prior@ + own);
            assert(emit.emitted().skip(prior@.len() as int) =~= own.push((end_type, buffer@)));
            lemma_payloads_push(own, (end_type, buffer@));
            assert(own.push((end_type, buffer@)).drop_last() =~= own);
        }
        emit
    }

    /// Abandon the writer before it finished: the emitter receives an empty
    /// abort marker, and is given back.
    pub fn abort(self) -> (emit: E)
        requires
            self.wf(),
        ensures
            emit.emitted() == self.prior() + self.own_emissions().push(
                (EmitType::Abort, Seq::<u8>::empty()),
            ),
    {
        let CallbackWriter { buffer, chunk_size, mut emit, end_type, finished, prior, written } =
            self;
        let ghost before = emit.emitted();
        let empty: Vec<u8> = Vec::new();
        if !finished {
            emit.emit(EmitType::Abort, empty.as_slice());
        }
        proof {
            let own = before.skip(prior@.len() as int);
            assert(before =~= prior@ + own);
            assert(empty@ =~= Seq::<u8>::empty());
        }
        emit
    }
}

proof fn lemma_payloads_push(s: Seq<(EmitType, Seq<u8>)>, e: (EmitType, Seq<u8>))
    ensures
        payloads(s.push(e)) == payloads(s) + e.1,
{
    assert(s.push(e).drop_last() =~= s);
}

/// Full continuations carry `chunk_size` bytes each.
proof fn lemma_full_payload_len(s: Seq<(EmitType, Seq<u8>)>, chunk_size: nat)
    requires
        full_continuations(s, chunk_size),
    ensures
        payloads(s).len() == s.len() * chunk_size,
    decreases s.len(),
{
    if s.len() > 0 {
        let t = s.drop_last();
        assert(full_continuations(t, chunk_size)) by {
            assert forall|i: int| 0 <= i < t.len() implies (#[trigger] t[i]).0
                == EmitType::Continuation && t[i].1.len() == chunk_size by {
                assert(t[i] == s[i]);
            }
        }
        lemma_full_payload_len(t, chunk_size);
        assert(s[s.len() - 1].1.len() == chunk_size);
        assert((t.len() + 1) * chunk_size == t.len() * chunk_size + chunk_size) by (nonlinear_arith);
    }
}

/// The concatenated continuation chunks are the first `k * chunk_size` bytes.
proof fn lemma_continuation_payloads(bytes: Seq<u8>, chunk_size: nat, k: nat)
    requires
        k * chunk_size <= bytes.len(),
    ensures
        payloads(continuation_chunks(bytes, chunk_size, k)) == bytes.subrange(0, (k * chunk_size) as int),
        payloads(continuation_chunks(bytes, chunk_size, k)).len() == k * chunk_size,
    decreases k,
{
    if k == 0 {
        assert(continuation_chunks(bytes, chunk_size, 0) =~= Seq::empty());
        assert(k * chunk_size == 0) by (nonlinear_arith)
            requires
                k == 0,
        ;
        assert(bytes.subrange(0, 0) =~= Seq::<u8>::empty());
        assert(payloads(continuation_chunks(bytes, chunk_size, 0)) =~= Seq::<u8>::empty());
    } else {
        let km = (k - 1) as nat;
        assert(km * chunk_size + chunk_size == k * chunk_size && (km + 1) * chunk_size == k
            * chunk_size && km * chunk_size <= k * chunk_size) by (nonlinear_arith)
            requires
                km == k - 1,
        ;
        lemma_continuation_payloads(bytes, chunk_size, km);
        let s = continuation_chunks(bytes, chunk_size, k);
        assert(s.drop_last() =~= continuation_chunks(bytes, chunk_size, km));
        assert(s[km as int] == (
            EmitType::Continuation,
            bytes.subrange((km * chunk_size) as int, ((km + 1) * chunk_size) as int),
        ));
        assert(s.last() == s[km as int]);
        assert(payloads(s) == payloads(s.drop_last()) + s.last().1);
        assert(payloads(s.drop_last()) == bytes.subrange(0, (km * chunk_size) as int));
        assert(payloads(s).len() == k * chunk_size);
        assert(bytes.subrange(0, (km * chunk_size) as int) + bytes.subrange(
            (km * chunk_size) as int,
            (k * chunk_size) as int,
        ) =~= bytes.subrange(0, (k * chunk_size) as int));
    }
}

/// Continuation chunks only look at the bytes they cover.
proof fn lemma_continuation_prefix(short: Seq<u8>, long: Seq<u8>, chunk_size: nat, k: nat)
    requires
        short.len() <= long.len(),
        long.subrange(0, short.len() as int) == short,
        k * chunk_size <= short.len(),
    ensures
        continuation_chunks(short, chunk_size, k) == continuation_chunks(long, chunk_size, k),
{
    assert forall|i: int| 0 <= i < k implies continuation_chunks(short, chunk_size, k)[i]
        == continuation_chunks(long, chunk_size, k)[i] by {
        assert((i + 1) * chunk_size <= k * chunk_size) by (nonlinear_arith)
            requires
                0 <= i < k,
        ;
        assert(i * chunk_size <= (i + 1) * chunk_size) by (nonlinear_arith)
            requires
                0 <= i,
        ;
        assert(short.subrange(i * chunk_size, (i + 1) * chunk_size) =~= long.subrange(
            i * chunk_size,
            (i + 1) * chunk_size,
        )) by {
            assert forall|j: int| i * chunk_size <= j < (i + 1) * chunk_size implies #[trigger] short[j]
                == long[j] by {
                assert(long.subrange(0, short.len() as int)[j] == long[j]);
            }
        }
    }
    assert(continuation_chunks(short, chunk_size, k) =~= continuation_chunks(long, chunk_size, k));
}

} // verus!
