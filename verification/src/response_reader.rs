//! The guest's view of an HTTP response: status, headers, and a body read in
//! pieces from a stream of chunks.
use vstd::prelude::*;

verus! {

/// Message for any use of a closed response.
pub open spec fn closed_message() -> Seq<char> {
    "response closed"@
}

/// Message for reading a response whose body was read to the end.
pub open spec fn consumed_message() -> Seq<char> {
    "Response already read"@
}

/// Message for a read size that does not fit this platform.
pub open spec fn size_message() -> Seq<char> {
    "read size is too large for this platform"@
}

/// The state of a response as the guest reads it.
pub struct ReaderView {
    pub status: u16,
    /// The body stream, until it ended or the response was closed.
    pub stream_handle: Option<u32>,
    /// The chunk being read out.
    pub chunk: Seq<u8>,
    pub cursor: int,
    /// The body was read to the end.
    pub consumed: bool,
    pub closed: bool,
    /// A read of the next chunk, registered and not yet taken.
    pub pending_read: Option<u32>,
}

/// An HTTP response being read by the guest.
pub struct ResponseReader {
    status: u16,
    headers: Vec<(String, Vec<u8>)>,
    stream_handle: Option<u32>,
    chunk: Vec<u8>,
    cursor: usize,
    consumed: bool,
    closed: bool,
    pending_read: Option<u32>,
}

impl View for ResponseReader {
    type V = ReaderView;

    closed spec fn view(&self) -> ReaderView {
        ReaderView {
            status: self.status,
            stream_handle: self.stream_handle,
            chunk: self.chunk@,
            cursor: self.cursor as int,
            consumed: self.consumed,
            closed: self.closed,
            pending_read: self.pending_read,
        }
    }
}

/// How a read starts.
#[derive(Clone, Copy, Debug, PartialEq, Eq, Structural)]
pub enum ReadPlan {
    /// Nothing to read: answer at once that the read is complete.
    Done,
    /// A read of the next chunk is registered: if it is not ready, wait on
    /// it; else take its result and hand it to [`ResponseReader::on_chunk`].
    AwaitPending(u32),
    /// Copy out of the current chunk with [`ResponseReader::copy_out`].
    Copy,
}

/// How a read goes on after a step.
#[derive(Clone, Copy, Debug, PartialEq, Eq, Structural)]
pub enum ReadNext {
    /// More bytes are at hand: answer with a ready pollable.
    Ready,
    /// Register a read of the next chunk of this stream, hand its handle to
    /// [`ResponseReader::set_pending`], and wait on it.
    Register(u32),
    /// The body ended: close the buffer; release the stream, if given.
    Finished(Option<u32>),
    /// Go on with [`ResponseReader::copy_out`].
    Continue,
}

/// The number of bytes a read of `size` asks for: all of them when negative.
pub open spec fn read_size(size: i64) -> int {
    if size < 0 {
        usize::MAX as int
    } else {
        size as int
    }
}

impl ResponseReader {
    /// A response whose body is read from the stream `stream_handle`.
    pub fn new(status: u16, headers: Vec<(String, Vec<u8>)>, stream_handle: u32) -> (r: Self)
        ensures
            r@ == (ReaderView {
                status,
                stream_handle: Some(stream_handle),
                chunk: Seq::empty(),
                cursor: 0,
                consumed: false,
                closed: false,
                pending_read: None,
            }),
            r.header_list() == headers,
    {
        ResponseReader {
            status,
            headers,
            stream_handle: Some(stream_handle),
            chunk: Vec::new(),
            cursor: 0,
            consumed: false,
            closed: false,
            pending_read: None,
        }
    }

    /// The headers.
    pub closed spec fn header_list(&self) -> Vec<(String, Vec<u8>)> {
        self.headers
    }

    /// The reader's invariant: the cursor lies within the chunk.
    pub closed spec fn wf(&self) -> bool {
        self.cursor <= self.chunk@.len()
    }

    /// Close the response; returns the registered read and the body stream
    /// to release (nothing the second time).
    pub fn close(&mut self) -> (r: (Option<u32>, Option<u32>))
        ensures
            final(self).wf() == old(self).wf(),
            old(self)@.closed ==> r == (None::<u32>, None::<u32>) && final(self)@ == old(self)@,
            !old(self)@.closed ==> r == (old(self)@.pending_read, old(self)@.stream_handle) && final(self)@ == (ReaderView {
                closed: true,
                pending_read: None,
                stream_handle: None,
                ..old(self)@
            }),
            final(self).header_list() == old(self).header_list(),
    {
        if self.closed {
            return (None, None);
        }
        self.closed = true;
        (self.pending_read.take(), self.stream_handle.take())
    }

    /// The status code, unless the response is closed.
    pub fn status(&self) -> (r: Result<u16, String>)
        ensures
            self@.closed ==> (r matches Err(m) && m@ == closed_message()),
            !self@.closed ==> r == Ok::<u16, String>(self@.status),
    {
        if self.closed {
            return Err(String::from_str("response closed"));
        }
        Ok(self.status)
    }

    /// The headers, unless the response is closed.
    pub fn headers(&self) -> (r: Result<&Vec<(String, Vec<u8>)>, String>)
        ensures
            self@.closed ==> (r matches Err(m) && m@ == closed_message()),
            !self@.closed ==> (r matches Ok(h) && *h == self.header_list()),
    {
        if self.closed {
            return Err(String::from_str("response closed"));
        }
        Ok(&self.headers)
    }

    /// Start a read of up to `size` bytes (all of them if negative): it must
    /// be open and not read to the end. Returns how to go on and the byte count.
    pub fn begin_read(&self, size: i64) -> (r: Result<(ReadPlan, usize), String>)
        ensures
            self@.closed ==> (r matches Err(m) && m@ == closed_message()),
            !self@.closed && self@.consumed ==> (r matches Err(m) && m@ == consumed_message()),
            !self@.closed && !self@.consumed && read_size(size) > usize::MAX ==> (r matches Err(m) && m@ == size_message()),
            !self@.closed && !self@.consumed && read_size(size) <= usize::MAX ==> (r matches Ok((plan, n)) && n == read_size(size)
                && plan == (if n == 0 {
                ReadPlan::Done
            } else {
                match self@.pending_read {
                    Some(h) => ReadPlan::AwaitPending(h),
                    None => ReadPlan::Copy,
                }
            })),
    {
        if self.closed {
            return Err(String::from_str("response closed"));
        }
        if self.consumed {
            return Err(String::from_str("Response already read"));
        }
        let n: usize = if size < 0 {
            usize::MAX
        } else {
            if size as u64 as u128 > usize::MAX as u128 {
                return Err(String::from_str("read size is too large for this platform"));
            }
            size as usize
        };
        if n == 0 {
            return Ok((ReadPlan::Done, 0));
        }
        match self.pending_read {
            Some(h) => Ok((ReadPlan::AwaitPending(h), n)),
            None => Ok((ReadPlan::Copy, n)),
        }
    }

    /// The result of the registered read arrived: the next chunk, or `None`
    /// at the end of the body. An error leaves the state as it is.
    pub fn on_chunk(&mut self, result: Result<Option<Vec<u8>>, String>) -> (r: Result<ReadNext, String>)
        ensures
            final(self).header_list() == old(self).header_list(),
            match result {
                Err(e) => r == Err::<ReadNext, String>(e) && final(self)@ == old(self)@ && final(self).wf() == old(self).wf(),
                Ok(Some(c)) => r == Ok::<ReadNext, String>(ReadNext::Continue) && final(self).wf() && final(self)@ == (ReaderView {
                    pending_read: None,
                    chunk: c@,
                    cursor: 0,
                    ..old(self)@
                }),
                Ok(None) => r == Ok::<ReadNext, String>(ReadNext::Finished(old(self)@.stream_handle)) && final(self).wf()
                    == old(self).wf() && final(self)@ == (ReaderView {
                    pending_read: None,
                    stream_handle: None,
                    consumed: true,
                    ..old(self)@
                }),
            },
    {
        match result {
            Err(e) => Err(e),
            Ok(Some(c)) => {
                self.pending_read = None;
                self.chunk = c;
                self.cursor = 0;
                Ok(ReadNext::Continue)
            },
            Ok(None) => {
                self.pending_read = None;
                let stream = self.stream_handle.take();
                self.consumed = true;
                Ok(ReadNext::Finished(stream))
            },
        }
    }

    /// Copy up to `n` bytes of the current chunk into `out`. If the chunk is
    /// not used up, more is at hand; else the next chunk is to be read, or,
    /// without a stream, the body is complete.
    pub fn copy_out(&mut self, n: usize, out: &mut Vec<u8>) -> (r: ReadNext)
        requires
            old(self).wf(),
        ensures
            final(self).wf(),
            final(self).header_list() == old(self).header_list(),
            ({
                let s = old(self)@;
                let end = if s.cursor + n < s.chunk.len() { s.cursor + n } else { s.chunk.len() as int };
                &&& final(out)@ == old(out)@ + s.chunk.subrange(s.cursor, end)
                &&& end < s.chunk.len() ==> r == ReadNext::Ready && final(self)@ == (ReaderView { cursor: end, ..s })
                &&& end >= s.chunk.len() ==> match s.stream_handle {
                    Some(h) => r == ReadNext::Register(h) && final(self)@ == (ReaderView {
                        chunk: Seq::empty(),
                        cursor: 0,
                        ..s
                    }),
                    None => r == ReadNext::Finished(None) && final(self)@ == (ReaderView {
                        chunk: Seq::empty(),
                        cursor: 0,
                        consumed: true,
                        ..s
                    }),
                }
            }),
    {
        let ghost s = self@;
        let ghost out0 = out@;
        let len = self.chunk.len();
        if self.cursor < len {
            let end = if n < len - self.cursor {
                self.cursor + n
            } else {
                len
            };
            let mut i = self.cursor;
            while i < end
                invariant
                    self.cursor <= i <= end <= len,
                    len == self.chunk@.len(),
                    out@ == out0 + self.chunk@.subrange(self.cursor as int, i as int),
                decreases end - i,
            {
                out.push(self.chunk[i]);
                proof {
                    assert(self.chunk@.subrange(self.cursor as int, i + 1) =~= self.chunk@.subrange(
                        self.cursor as int,
                        i as int,
                    ).push(self.chunk@[i as int]));
                }
                i = i + 1;
            }
            self.cursor = end;
            if end < len {
                return ReadNext::Ready;
            }
            self.chunk.clear();
            self.cursor = 0;
        } else {
            proof {
                assert(s.chunk.subrange(s.cursor, s.chunk.len() as int) =~= Seq::<u8>::empty());
            }
            self.chunk.clear();
            self.cursor = 0;
        }
        match self.stream_handle {
            Some(h) => ReadNext::Register(h),
            None => {
                self.consumed = true;
                ReadNext::Finished(None)
            },
        }
    }

    /// Remember the read registered for the next chunk.
    pub fn set_pending(&mut self, handle: u32)
        ensures
            final(self)@ == (ReaderView { pending_read: Some(handle), ..old(self)@ }),
            final(self).wf() == old(self).wf(),
            final(self).header_list() == old(self).header_list(),
    {
        self.pending_read = Some(handle);
    }

    /// Mark the body as read to the end (after a blocking read of all of it).
    pub fn mark_consumed(&mut self)
        ensures
            final(self)@ == (ReaderView { consumed: true, ..old(self)@ }),
            final(self).wf() == old(self).wf(),
            final(self).header_list() == old(self).header_list(),
    {
        self.consumed = true;
    }

    /// A blocking read may start only on a body not read to the end.
    pub fn begin_blocking_read(&self) -> (r: Result<(), String>)
        ensures
            self@.consumed ==> (r matches Err(m) && m@ == consumed_message()),
            !self@.consumed ==> r is Ok,
    {
        if self.consumed {
            return Err(String::from_str("Response already read"));
        }
        Ok(())
    }
}

} // verus!
