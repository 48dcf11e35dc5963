//! Tracing of response streams: what each poll of a wrapped stream records
//! on its span, and what it passes on.
use vstd::prelude::*;

verus! {

/// The outcome of polling a stream.
pub enum Polled<T, E> {
    Pending,
    Item(T),
    Failed(E),
    End,
}

/// The outcome of polling a future that yields no value.
pub enum FutPoll<E> {
    Pending,
    Done,
    Failed(E),
}

/// The status a span ends with.
#[derive(Clone, Copy, Debug, PartialEq, Eq, Structural)]
pub enum SpanStatus {
    Success,
    Error,
}

/// What a poll records on the span.
#[derive(Clone, Copy, Debug, PartialEq, Eq, Structural)]
pub enum Record {
    Nothing,
    /// The span ends with `status`; for an HTTP body, with the body's size.
    Finished { status: SpanStatus, body_size: Option<u64> },
}

/// The record that ends a span that is still open.
pub open spec fn finish_record(span_open: bool, status: SpanStatus, body_size: Option<u64>) -> Record {
    if span_open {
        Record::Finished { status, body_size }
    } else {
        Record::Nothing
    }
}

/// An HTTP response body under a span: counts the bytes of data frames and
/// ends the span when the body ends or fails.
pub struct InstrumentStream {
    size: usize,
    span_open: bool,
}

impl InstrumentStream {
    /// Bytes of data passed on so far.
    pub closed spec fn size(&self) -> usize {
        self.size
    }

    /// Whether the span is still open.
    pub closed spec fn span_open(&self) -> bool {
        self.span_open
    }

    /// A body under an open span, nothing passed on yet.
    pub fn new() -> (s: Self)
        ensures
            s.size() == 0,
            s.span_open(),
    {
        InstrumentStream { size: 0, span_open: true }
    }

    /// Bytes of data passed on so far.
    pub fn body_size(&self) -> (n: usize)
        ensures
            n == self.size(),
    {
        self.size
    }

    /// Handle one poll of the body; `data_len` is the length of the frame's
    /// data, for a frame that carries data. The polled value is passed on.
    pub fn on_poll<T, E>(&mut self, polled: Polled<T, E>, data_len: Option<usize>) -> (r: (Polled<T, E>, Record))
        requires
            polled is Item && data_len is Some ==> old(self).size() + data_len.unwrap() <= usize::MAX,
        ensures
            r.0 == polled,
            polled is Item ==> r.1 == Record::Nothing && final(self).span_open() == old(self).span_open()
                && final(self).size() == old(self).size() + (match data_len {
                    Some(n) => n as int,
                    None => 0,
                }),
            polled is End ==> r.1 == finish_record(old(self).span_open(), SpanStatus::Success, Some(old(self).size() as u64))
                && !final(self).span_open() && final(self).size() == old(self).size(),
            polled is Failed ==> r.1 == finish_record(old(self).span_open(), SpanStatus::Error, None)
                && !final(self).span_open() && final(self).size() == old(self).size(),
            polled is Pending ==> r.1 == Record::Nothing && *final(self) == *old(self),
    {
        match polled {
            Polled::Item(frame) => {
                if let Some(n) = data_len {
                    self.size = self.size + n;
                }
                (Polled::Item(frame), Record::Nothing)
            },
            Polled::End => {
                let record = if self.span_open {
                    Record::Finished { status: SpanStatus::Success, body_size: Some(self.size as u64) }
                } else {
                    Record::Nothing
                };
                self.span_open = false;
                (Polled::End, record)
            },
            Polled::Failed(e) => {
                let record = if self.span_open {
                    Record::Finished { status: SpanStatus::Error, body_size: None }
                } else {
                    Record::Nothing
                };
                self.span_open = false;
                (Polled::Failed(e), record)
            },
            Polled::Pending => (Polled::Pending, Record::Nothing),
        }
    }
}

/// A gRPC response stream under a span, ended when the stream ends or fails.
pub struct GrpcInstrumentStream {
    span_open: bool,
}

impl GrpcInstrumentStream {
    /// Whether the span is still open.
    pub closed spec fn span_open(&self) -> bool {
        self.span_open
    }

    /// A stream under an open span.
    pub fn new() -> (s: Self)
        ensures
            s.span_open(),
    {
        GrpcInstrumentStream { span_open: true }
    }

    /// Handle one poll of the stream; the polled value is passed on.
    pub fn on_poll<T, E>(&mut self, polled: Polled<T, E>) -> (r: (Polled<T, E>, Record))
        ensures
            r.0 == polled,
            (polled is Item || polled is Pending) ==> r.1 == Record::Nothing && *final(self) == *old(self),
            polled is End ==> r.1 == finish_record(old(self).span_open(), SpanStatus::Success, None) && !final(self).span_open(),
            polled is Failed ==> r.1 == finish_record(old(self).span_open(), SpanStatus::Error, None)
                && !final(self).span_open(),
    {
        match polled {
            Polled::End => {
                let record = if self.span_open {
                    Record::Finished { status: SpanStatus::Success, body_size: None }
                } else {
                    Record::Nothing
                };
                self.span_open = false;
                (Polled::End, record)
            },
            Polled::Failed(e) => {
                let record = if self.span_open {
                    Record::Finished { status: SpanStatus::Error, body_size: None }
                } else {
                    Record::Nothing
                };
                self.span_open = false;
                (Polled::Failed(e), record)
            },
            other => (other, Record::Nothing),
        }
    }
}

/// The next step of a joined poll.
pub enum JoinStep<T, E> {
    /// Answer the poll with this, after recording.
    Yield(Polled<T, E>, Record),
    /// Go on with the next part of the poll.
    Continue,
}

/// A websocket's incoming messages joined with the task that forwards the
/// outgoing ones, under one span. A poll first polls the messages, then the
/// task, then decides; the joined stream ends when both are done.
pub struct InstrumentJoinStream {
    stream_open: bool,
    fut_open: bool,
    span_open: bool,
}

impl InstrumentJoinStream {
    /// Whether incoming messages may still arrive.
    pub closed spec fn stream_open(&self) -> bool {
        self.stream_open
    }

    /// Whether the forwarding task is still running.
    pub closed spec fn fut_open(&self) -> bool {
        self.fut_open
    }

    /// Whether the span is still open.
    pub closed spec fn span_open(&self) -> bool {
        self.span_open
    }

    /// Messages and task both running, under an open span.
    pub fn new() -> (s: Self)
        ensures
            s.stream_open() && s.fut_open() && s.span_open(),
    {
        InstrumentJoinStream { stream_open: true, fut_open: true, span_open: true }
    }

    /// Whether the incoming messages are to be polled.
    pub fn polls_stream(&self) -> (b: bool)
        ensures
            b == self.stream_open(),
    {
        self.stream_open
    }

    /// Whether the forwarding task is to be polled.
    pub fn polls_future(&self) -> (b: bool)
        ensures
            b == self.fut_open(),
    {
        self.fut_open
    }

    /// First part of a poll: the incoming messages were polled. A message,
    /// failed or not, is passed on at once.
    pub fn on_stream<T, E>(&mut self, polled: Polled<T, E>) -> (r: JoinStep<T, E>)
        ensures
            polled is End ==> r is Continue && !final(self).stream_open() && final(self).fut_open() == old(self).fut_open()
                && final(self).span_open() == old(self).span_open(),
            polled is Pending ==> r is Continue && *final(self) == *old(self),
            polled is Item || polled is Failed ==> r == JoinStep::Yield(polled, Record::Nothing) && *final(self) == *old(self),
    {
        match polled {
            Polled::End => {
                self.stream_open = false;
                JoinStep::Continue
            },
            Polled::Pending => JoinStep::Continue,
            other => JoinStep::Yield(other, Record::Nothing),
        }
    }

    /// Second part of a poll: the forwarding task was polled. Its failure
    /// ends everything with an error; while it runs, the poll is pending.
    pub fn on_future<T, E>(&mut self, polled: FutPoll<E>) -> (r: JoinStep<T, E>)
        ensures
            polled is Done ==> r is Continue && !final(self).fut_open() && final(self).stream_open() == old(self).stream_open()
                && final(self).span_open() == old(self).span_open(),
            polled is Pending ==> r == JoinStep::<T, E>::Yield(Polled::Pending, Record::Nothing) && *final(self) == *old(self),
            polled matches FutPoll::Failed(e) ==> r == JoinStep::<T, E>::Yield(
                Polled::Failed(e),
                finish_record(old(self).span_open(), SpanStatus::Error, None),
            ) && !final(self).stream_open() && !final(self).fut_open() && !final(self).span_open(),
    {
        match polled {
            FutPoll::Done => {
                self.fut_open = false;
                JoinStep::Continue
            },
            FutPoll::Pending => JoinStep::Yield(Polled::Pending, Record::Nothing),
            FutPoll::Failed(e) => {
                let record = if self.span_open {
                    Record::Finished { status: SpanStatus::Error, body_size: None }
                } else {
                    Record::Nothing
                };
                self.stream_open = false;
                self.fut_open = false;
                self.span_open = false;
                JoinStep::Yield(Polled::Failed(e), record)
            },
        }
    }

    /// Last part of a poll: the joined stream ends once both parts are done.
    pub fn finish<T, E>(&mut self) -> (r: (Polled<T, E>, Record))
        ensures
            !old(self).stream_open() && !old(self).fut_open() ==> r == (Polled::<T, E>::End, finish_record(
                old(self).span_open(),
                SpanStatus::Success,
                None,
            )) && !final(self).span_open() && !final(self).stream_open() && !final(self).fut_open(),
            old(self).stream_open() || old(self).fut_open() ==> r == (Polled::<T, E>::Pending, Record::Nothing)
                && *final(self) == *old(self),
    {
        if !self.stream_open && !self.fut_open {
            let record = if self.span_open {
                Record::Finished { status: SpanStatus::Success, body_size: None }
            } else {
                Record::Nothing
            };
            self.span_open = false;
            (Polled::End, record)
        } else {
            (Polled::Pending, Record::Nothing)
        }
    }
}

} // verus!
