//! A bounded in-memory sink for a guest's standard output.
use vstd::prelude::*;

verus! {

/// The text `bytes` decode to as UTF-8, if they are valid UTF-8.
pub uninterp spec fn utf8_text(bytes: Seq<u8>) -> Option<Seq<char>>;

/// Decode bytes as UTF-8 with `String::from_utf8`; the result depends on the
/// bytes alone.
#[verifier::external_body]
fn decode_utf8(bytes: Vec<u8>) -> (r: Option<String>)
    ensures
        match r {
            Some(s) => utf8_text(bytes@) == Some(s@),
            None => utf8_text(bytes@) is None,
        },
{
    String::from_utf8(bytes).ok()
}

/// Message when a write does not fit.
pub open spec fn full_message() -> Seq<char> {
    "write beyond capacity of MemoryOutputPipe"@
}

/// Bytes written by the guest, up to a capacity.
pub struct MemoryOutputBuffer {
    capacity: usize,
    buffer: Vec<u8>,
}

impl MemoryOutputBuffer {
    /// The most bytes the buffer holds.
    pub closed spec fn capacity(&self) -> usize {
        self.capacity
    }

    /// The bytes written and not yet taken.
    pub closed spec fn contents(&self) -> Seq<u8> {
        self.buffer@
    }

    /// The buffer's invariant: it holds no more than its capacity.
    pub closed spec fn wf(&self) -> bool {
        self.buffer@.len() <= self.capacity
    }

    /// An empty buffer holding at most `capacity` bytes.
    pub fn new(capacity: usize) -> (b: Self)
        ensures
            b.wf(),
            b.capacity() == capacity,
            b.contents() == Seq::<u8>::empty(),
    {
        MemoryOutputBuffer { capacity, buffer: Vec::new() }
    }

    /// Append `bytes` if they fit, else fail and keep the contents.
    pub fn write(&mut self, bytes: &[u8]) -> (r: Result<(), String>)
        requires
            old(self).wf(),
        ensures
            final(self).wf(),
            final(self).capacity() == old(self).capacity(),
            old(self).contents().len() + bytes@.len() <= old(self).capacity() ==> r is Ok && final(self).contents()
                == old(self).contents() + bytes@,
            old(self).contents().len() + bytes@.len() > old(self).capacity() ==> (r matches Err(m) && m@ == full_message())
                && final(self).contents() == old(self).contents(),
    {
        if bytes.len() > self.capacity - self.buffer.len() {
            return Err(String::from_str("write beyond capacity of MemoryOutputPipe"));
        }
        let mut i: usize = 0;
        let ghost start = self.buffer@;
        while i < bytes.len()
            invariant
                i <= bytes@.len(),
                self.capacity == old(self).capacity,
                start.len() + bytes@.len() <= self.capacity,
                self.buffer@ == start + bytes@.take(i as int),
            decreases bytes@.len() - i,
        {
            self.buffer.push(bytes[i]);
            proof {
                assert(bytes@.take(i + 1) =~= bytes@.take(i as int).push(bytes@[i as int]));
            }
            i = i + 1;
        }
        proof {
            assert(bytes@.take(i as int) =~= bytes@);
        }
        Ok(())
    }

    /// Room left; a full buffer counts as closed.
    pub fn check_write(&self) -> (r: Option<usize>)
        requires
            self.wf(),
        ensures
            self.contents().len() < self.capacity() ==> r == Some((self.capacity() - self.contents().len()) as usize),
            self.contents().len() >= self.capacity() ==> r is None,
    {
        let consumed = self.buffer.len();
        if consumed < self.capacity {
            Some(self.capacity - consumed)
        } else {
            None
        }
    }

    /// Take everything written so far as text; `None` if it is not valid
    /// UTF-8 (the contents are taken either way).
    pub fn pop(&mut self) -> (r: Option<String>)
        requires
            old(self).wf(),
        ensures
            final(self).wf(),
            final(self).capacity() == old(self).capacity(),
            final(self).contents() == Seq::<u8>::empty(),
            match r {
                Some(s) => utf8_text(old(self).contents()) == Some(s@),
                None => utf8_text(old(self).contents()) is None,
            },
    {
        let mut taken: Vec<u8> = Vec::new();
        std::mem::swap(&mut taken, &mut self.buffer);
        decode_utf8(taken)
    }
}

} // verus!
