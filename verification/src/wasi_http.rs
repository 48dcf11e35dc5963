//! Decisions of the guest HTTP client: which headers may be sent, how the
//! method and scheme are named, how errors read, and when a response body is
//! too large.
use vstd::prelude::*;
use crate::text::{ascii_lower, chars_of, chars_eq, chars_eq_ignore_ascii_case, eq_ignore_ascii_case};

verus! {

/// Largest accepted response body.
pub const MAX_HTTP_RESPONSE_BODY_BYTES: usize = 16 * 1024 * 1024;

/// Capacity of one response body read.
pub const HTTP_RESPONSE_BODY_CHUNK_BYTES: usize = 64 * 1024;

/// Headers that WASI HTTP forbids setting. `host` is derived from the request
/// authority and the rest are hop-by-hop; caller-supplied values are dropped
/// so that the header list is not rejected.
pub open spec fn forbidden_headers() -> Seq<Seq<char>> {
    seq![
        "connection"@,
        "host"@,
        "keep-alive"@,
        "http2-settings"@,
        "proxy-authenticate"@,
        "proxy-authorization"@,
        "proxy-connection"@,
        "te"@,
        "trailer"@,
        "transfer-encoding"@,
        "upgrade"@,
    ]
}

/// Whether a header name is forbidden, ignoring ASCII case.
pub open spec fn header_forbidden(name: Seq<char>) -> bool {
    exists|i: int| 0 <= i < forbidden_headers().len() && eq_ignore_ascii_case(name, #[trigger] forbidden_headers()[i])
}

/// A header is forbidden exactly when it is the host or a hop-by-hop header,
/// ASCII case ignored.
pub proof fn lemma_forbidden_header_names(name: Seq<char>)
    ensures
        header_forbidden(name) <==> (eq_ignore_ascii_case(name, "connection"@) || eq_ignore_ascii_case(name, "host"@) || eq_ignore_ascii_case(name, "keep-alive"@) || eq_ignore_ascii_case(name, "http2-settings"@) || eq_ignore_ascii_case(name, "proxy-authenticate"@) || eq_ignore_ascii_case(name, "proxy-authorization"@) || eq_ignore_ascii_case(name, "proxy-connection"@) || eq_ignore_ascii_case(name, "te"@) || eq_ignore_ascii_case(name, "trailer"@) || eq_ignore_ascii_case(name, "transfer-encoding"@) || eq_ignore_ascii_case(name, "upgrade"@)),
{
    assert(forbidden_headers().len() == 11);
    assert(forbidden_headers()[0] == "connection"@);
    assert(forbidden_headers()[1] == "host"@);
    assert(forbidden_headers()[2] == "keep-alive"@);
    assert(forbidden_headers()[3] == "http2-settings"@);
    assert(forbidden_headers()[4] == "proxy-authenticate"@);
    assert(forbidden_headers()[5] == "proxy-authorization"@);
    assert(forbidden_headers()[6] == "proxy-connection"@);
    assert(forbidden_headers()[7] == "te"@);
    assert(forbidden_headers()[8] == "trailer"@);
    assert(forbidden_headers()[9] == "transfer-encoding"@);
    assert(forbidden_headers()[10] == "upgrade"@);
    if header_forbidden(name) {
        let i = choose|i: int| 0 <= i < forbidden_headers().len() && eq_ignore_ascii_case(name, #[trigger] forbidden_headers()[i]);
        assert(0 <= i < 11);
    }
}

fn forbidden_header(i: usize) -> (name: &'static str)
    requires
        i < 11,
    ensures
        name@ == forbidden_headers()[i as int],
{
    match i {
        0 => "connection",
        1 => "host",
        2 => "keep-alive",
        3 => "http2-settings",
        4 => "proxy-authenticate",
        5 => "proxy-authorization",
        6 => "proxy-connection",
        7 => "te",
        8 => "trailer",
        9 => "transfer-encoding",
        _ => "upgrade",
    }
}

/// Whether WASI HTTP forbids setting the header `name` (ASCII case ignored).
pub fn is_forbidden_header(name: &str) -> (b: bool)
    ensures
        b == header_forbidden(name@),
        b <==> (eq_ignore_ascii_case(name@, "connection"@) || eq_ignore_ascii_case(name@, "host"@) || eq_ignore_ascii_case(name@, "keep-alive"@) || eq_ignore_ascii_case(name@, "http2-settings"@) || eq_ignore_ascii_case(name@, "proxy-authenticate"@) || eq_ignore_ascii_case(name@, "proxy-authorization"@) || eq_ignore_ascii_case(name@, "proxy-connection"@) || eq_ignore_ascii_case(name@, "te"@) || eq_ignore_ascii_case(name@, "trailer"@) || eq_ignore_ascii_case(name@, "transfer-encoding"@) || eq_ignore_ascii_case(name@, "upgrade"@)),
{
    proof {
        lemma_forbidden_header_names(name@);
    }
    let chars = chars_of(name);
    let mut i: usize = 0;
    while i < 11
        invariant
            i <= 11,
            chars@ == name@,
            forall|j: int| 0 <= j < i ==> !eq_ignore_ascii_case(name@, #[trigger] forbidden_headers()[j]),
        decreases 11 - i,
    {
        let candidate = chars_of(forbidden_header(i));
        if chars_eq_ignore_ascii_case(&chars, &candidate) {
            return true;
        }
        i = i + 1;
    }
    false
}

/// The headers whose names are not forbidden, in order.
pub open spec fn allowed_headers(headers: Seq<(String, Vec<u8>)>) -> Seq<(String, Vec<u8>)>
    decreases headers.len(),
{
    if headers.len() == 0 {
        Seq::empty()
    } else if header_forbidden(headers.last().0@) {
        allowed_headers(headers.drop_last())
    } else {
        allowed_headers(headers.drop_last()).push(headers.last())
    }
}

/// Drop the headers that WASI HTTP forbids, keeping the order of the rest.
pub fn retain_allowed_headers(headers: Vec<(String, Vec<u8>)>) -> (kept: Vec<(String, Vec<u8>)>)
    ensures
        kept@ == allowed_headers(headers@),
{
    let ghost all = headers@;
    let mut kept: Vec<(String, Vec<u8>)> = Vec::new();
    for header in it: headers
        invariant
            it.seq() == all,
            kept@ == allowed_headers(all.take(it.index() as int)),
    {
        proof {
            assert(all.take(it.index() + 1).drop_last() =~= all.take(it.index() as int));
            assert(all.take(it.index() + 1).last() == header);
        }
        if !is_forbidden_header(header.0.as_str()) {
            kept.push(header);
        }
    }
    proof {
        assert(all.take(all.len() as int) =~= all);
    }
    kept
}

/// An HTTP method.
#[derive(Debug, PartialEq, Eq)]
pub enum Method {
    Get,
    Head,
    Post,
    Put,
    Delete,
    Connect,
    Options,
    Trace,
    Patch,
    Other(String),
}

/// The method named by `m`, ASCII case ignored; other names are kept as given.
pub open spec fn method_named(m: Seq<char>, parsed: Method) -> bool {
    if eq_ignore_ascii_case(m, "GET"@) {
        parsed == Method::Get
    } else if eq_ignore_ascii_case(m, "HEAD"@) {
        parsed == Method::Head
    } else if eq_ignore_ascii_case(m, "POST"@) {
        parsed == Method::Post
    } else if eq_ignore_ascii_case(m, "PUT"@) {
        parsed == Method::Put
    } else if eq_ignore_ascii_case(m, "DELETE"@) {
        parsed == Method::Delete
    } else if eq_ignore_ascii_case(m, "CONNECT"@) {
        parsed == Method::Connect
    } else if eq_ignore_ascii_case(m, "OPTIONS"@) {
        parsed == Method::Options
    } else if eq_ignore_ascii_case(m, "TRACE"@) {
        parsed == Method::Trace
    } else if eq_ignore_ascii_case(m, "PATCH"@) {
        parsed == Method::Patch
    } else {
        parsed matches Method::Other(s) && s@ == m
    }
}

/// Every standard method name, ASCII case ignored, is named by its own
/// variant, and only by it; any other name is kept as given.
pub proof fn lemma_method_table(m: Seq<char>, parsed: Method)
    requires
        method_named(m, parsed),
    ensures
        parsed == Method::Get <==> eq_ignore_ascii_case(m, "GET"@),
        parsed == Method::Head <==> eq_ignore_ascii_case(m, "HEAD"@),
        parsed == Method::Post <==> eq_ignore_ascii_case(m, "POST"@),
        parsed == Method::Put <==> eq_ignore_ascii_case(m, "PUT"@),
        parsed == Method::Delete <==> eq_ignore_ascii_case(m, "DELETE"@),
        parsed == Method::Connect <==> eq_ignore_ascii_case(m, "CONNECT"@),
        parsed == Method::Options <==> eq_ignore_ascii_case(m, "OPTIONS"@),
        parsed == Method::Trace <==> eq_ignore_ascii_case(m, "TRACE"@),
        parsed == Method::Patch <==> eq_ignore_ascii_case(m, "PATCH"@),
        parsed is Other <==> !(eq_ignore_ascii_case(m, "GET"@) || eq_ignore_ascii_case(m, "HEAD"@) || eq_ignore_ascii_case(m, "POST"@) || eq_ignore_ascii_case(m, "PUT"@) || eq_ignore_ascii_case(m, "DELETE"@) || eq_ignore_ascii_case(m, "CONNECT"@) || eq_ignore_ascii_case(m, "OPTIONS"@) || eq_ignore_ascii_case(m, "TRACE"@) || eq_ignore_ascii_case(m, "PATCH"@)),
{
    reveal_strlit("GET");
    reveal_strlit("HEAD");
    reveal_strlit("POST");
    reveal_strlit("PUT");
    reveal_strlit("DELETE");
    reveal_strlit("CONNECT");
    reveal_strlit("OPTIONS");
    reveal_strlit("TRACE");
    reveal_strlit("PATCH");
    if eq_ignore_ascii_case(m, "GET"@) && eq_ignore_ascii_case(m, "PUT"@) {
        assert(ascii_lower(m[0]) == ascii_lower("GET"@[0]));
        assert(ascii_lower(m[0]) == ascii_lower("PUT"@[0]));
        assert("GET"@[0] == 'G' && "PUT"@[0] == 'P');
        assert(false);
    }
    if eq_ignore_ascii_case(m, "HEAD"@) && eq_ignore_ascii_case(m, "POST"@) {
        assert(ascii_lower(m[0]) == ascii_lower("HEAD"@[0]));
        assert(ascii_lower(m[0]) == ascii_lower("POST"@[0]));
        assert("HEAD"@[0] == 'H' && "POST"@[0] == 'P');
        assert(false);
    }
    if eq_ignore_ascii_case(m, "CONNECT"@) && eq_ignore_ascii_case(m, "OPTIONS"@) {
        assert(ascii_lower(m[0]) == ascii_lower("CONNECT"@[0]));
        assert(ascii_lower(m[0]) == ascii_lower("OPTIONS"@[0]));
        assert("CONNECT"@[0] == 'C' && "OPTIONS"@[0] == 'O');
        assert(false);
    }
    if eq_ignore_ascii_case(m, "TRACE"@) && eq_ignore_ascii_case(m, "PATCH"@) {
        assert(ascii_lower(m[0]) == ascii_lower("TRACE"@[0]));
        assert(ascii_lower(m[0]) == ascii_lower("PATCH"@[0]));
        assert("TRACE"@[0] == 'T' && "PATCH"@[0] == 'P');
        assert(false);
    }
}

/// Name the method `method`, ignoring ASCII case.
pub fn parse_method(method: &str) -> (parsed: Method)
    ensures
        method_named(method@, parsed),
        parsed == Method::Get <==> eq_ignore_ascii_case(method@, "GET"@),
        parsed == Method::Head <==> eq_ignore_ascii_case(method@, "HEAD"@),
        parsed == Method::Post <==> eq_ignore_ascii_case(method@, "POST"@),
        parsed == Method::Put <==> eq_ignore_ascii_case(method@, "PUT"@),
        parsed == Method::Delete <==> eq_ignore_ascii_case(method@, "DELETE"@),
        parsed == Method::Connect <==> eq_ignore_ascii_case(method@, "CONNECT"@),
        parsed == Method::Options <==> eq_ignore_ascii_case(method@, "OPTIONS"@),
        parsed == Method::Trace <==> eq_ignore_ascii_case(method@, "TRACE"@),
        parsed == Method::Patch <==> eq_ignore_ascii_case(method@, "PATCH"@),
{
    let m = chars_of(method);
    let parsed = if chars_eq_ignore_ascii_case(&m, &chars_of("GET")) {
        Method::Get
    } else if chars_eq_ignore_ascii_case(&m, &chars_of("HEAD")) {
        Method::Head
    } else if chars_eq_ignore_ascii_case(&m, &chars_of("POST")) {
        Method::Post
    } else if chars_eq_ignore_ascii_case(&m, &chars_of("PUT")) {
        Method::Put
    } else if chars_eq_ignore_ascii_case(&m, &chars_of("DELETE")) {
        Method::Delete
    } else if chars_eq_ignore_ascii_case(&m, &chars_of("CONNECT")) {
        Method::Connect
    } else if chars_eq_ignore_ascii_case(&m, &chars_of("OPTIONS")) {
        Method::Options
    } else if chars_eq_ignore_ascii_case(&m, &chars_of("TRACE")) {
        Method::Trace
    } else if chars_eq_ignore_ascii_case(&m, &chars_of("PATCH")) {
        Method::Patch
    } else {
        Method::Other(method.to_owned())
    };
    proof {
        lemma_method_table(method@, parsed);
    }
    parsed
}

/// A URL scheme.
#[derive(Debug, PartialEq, Eq)]
pub enum Scheme {
    Http,
    Https,
    Other(String),
}

/// Name the scheme `scheme` (case-sensitive).
pub fn parse_scheme(scheme: &str) -> (parsed: Scheme)
    ensures
        scheme@ == "http"@ ==> parsed == Scheme::Http,
        scheme@ == "https"@ ==> parsed == Scheme::Https,
        scheme@ != "http"@ && scheme@ != "https"@ ==> (parsed matches Scheme::Other(s) && s@ == scheme@),
{
    let s = chars_of(scheme);
    proof {
        reveal_strlit("http");
        reveal_strlit("https");
        assert("http"@.len() == 4 && "https"@.len() == 5);
        assert("http"@ != "https"@);
    }
    if chars_eq(&s, &chars_of("http")) {
        Scheme::Http
    } else if chars_eq(&s, &chars_of("https")) {
        Scheme::Https
    } else {
        Scheme::Other(scheme.to_owned())
    }
}

/// The kind of a failed HTTP exchange, as far as the error text depends on it.
#[derive(Clone, Copy, Debug, PartialEq, Eq, Structural)]
pub enum HttpErrorKind {
    DnsTimeout,
    ConnectionTimeout,
    ConnectionReadTimeout,
    ConnectionWriteTimeout,
    HttpResponseTimeout,
    Other,
}

/// Whether the error is a timeout.
pub open spec fn is_timeout(kind: HttpErrorKind) -> bool {
    kind != HttpErrorKind::Other
}

/// The error text for `context`: timeouts read "timed out", others "failed",
/// followed by the error's description `detail`.
pub fn format_http_error(context: &str, kind: HttpErrorKind, detail: &str) -> (message: String)
    ensures
        message@ == context@ + (if is_timeout(kind) {
            " timed out: "@
        } else {
            " failed: "@
        }) + detail@,
{
    let mut message = context.to_owned();
    let timeout = match kind {
        HttpErrorKind::Other => false,
        _ => true,
    };
    if timeout {
        message.append(" timed out: ");
    } else {
        message.append(" failed: ");
    }
    message.append(detail);
    message
}

/// The error text for a response body over the size limit.
pub fn body_too_large_message() -> (message: String)
    ensures
        message@ == "HTTP response body exceeds maximum size of 16777216 bytes"@,
{
    "HTTP response body exceeds maximum size of 16777216 bytes".to_owned()
}

/// One step of collecting a response body: the chunk is appended unless the
/// body would exceed [`MAX_HTTP_RESPONSE_BODY_BYTES`], which is an error that
/// leaves the collected bytes as they were.
pub fn collect_body_step(output: &mut Vec<u8>, chunk: &[u8]) -> (r: Result<(), String>)
    ensures
        old(output)@.len() + chunk@.len() > MAX_HTTP_RESPONSE_BODY_BYTES <==> r.is_err(),
        r.is_ok() ==> final(output)@ == old(output)@ + chunk@,
        r.is_err() ==> final(output)@ == old(output)@,
        r matches Err(e) ==> e@ == "HTTP response body exceeds maximum size of 16777216 bytes"@,
{
    let total = output.len().saturating_add(chunk.len());
    if total > MAX_HTTP_RESPONSE_BODY_BYTES {
        return Err(body_too_large_message());
    }
    let ghost before = output@;
    let mut i: usize = 0;
    while i < chunk.len()
        invariant
            i <= chunk@.len(),
            output@ == before + chunk@.take(i as int),
        decreases chunk@.len() - i,
    {
        output.push(chunk[i]);
        proof {
            assert(chunk@.take(i + 1) =~= chunk@.take(i as int).push(chunk@[i as int]));
        }
        i = i + 1;
    }
    proof {
        assert(chunk@.take(i as int) =~= chunk@);
    }
    Ok(())
}

/// The text of the error for a body over the size limit.
pub open spec fn body_too_large_text() -> Seq<char> {
    "HTTP response body exceeds maximum size of 16777216 bytes"@
}

/// The result of collecting the rest `items` of a body onto `acc`: chunks are
/// appended in order until one fails (its error) or would take the body past
/// [`MAX_HTTP_RESPONSE_BODY_BYTES`] (the size error); nothing after that is read.
pub open spec fn collect_from(acc: Seq<u8>, items: Seq<Result<Vec<u8>, String>>) -> Result<Seq<u8>, Seq<char>>
    decreases items.len(),
{
    if items.len() == 0 {
        Ok(acc)
    } else {
        match items[0] {
            Err(e) => Err(e@),
            Ok(c) => if acc.len() + c@.len() > MAX_HTTP_RESPONSE_BODY_BYTES {
                Err(body_too_large_text())
            } else {
                collect_from(acc + c@, items.drop_first())
            },
        }
    }
}

/// The bytes of a body's chunks, concatenated.
pub open spec fn chunks_bytes(items: Seq<Result<Vec<u8>, String>>) -> Seq<u8>
    decreases items.len(),
{
    if items.len() == 0 {
        Seq::empty()
    } else {
        match items[0] {
            Ok(c) => c@ + chunks_bytes(items.drop_first()),
            Err(_) => chunks_bytes(items.drop_first()),
        }
    }
}

/// Collecting a body succeeds exactly when every chunk arrives and the whole
/// body fits the limit, and then gives every chunk's bytes in order.
pub proof fn lemma_collect_whole(acc: Seq<u8>, items: Seq<Result<Vec<u8>, String>>)
    requires
        acc.len() <= MAX_HTTP_RESPONSE_BODY_BYTES,
    ensures
        collect_from(acc, items) is Ok <==> (forall|i: int| 0 <= i < items.len() ==> #[trigger] items[i] is Ok)
            && acc.len() + chunks_bytes(items).len() <= MAX_HTTP_RESPONSE_BODY_BYTES,
        collect_from(acc, items) is Ok ==> collect_from(acc, items) == Ok::<Seq<u8>, Seq<char>>(acc + chunks_bytes(items)),
    decreases items.len(),
{
    if items.len() == 0 {
        assert(acc + chunks_bytes(items) =~= acc);
    } else {
        let rest = items.drop_first();
        assert forall|i: int| 0 <= i < rest.len() implies rest[i] == items[i + 1] by {}
        match items[0] {
            Err(e) => {
                assert(!(items[0] is Ok));
            },
            Ok(c) => {
                assert(chunks_bytes(items) == c@ + chunks_bytes(rest));
                if acc.len() + c@.len() <= MAX_HTTP_RESPONSE_BODY_BYTES {
                    lemma_collect_whole(acc + c@, rest);
                    if (forall|i: int| 0 <= i < items.len() ==> #[trigger] items[i] is Ok) {
                        assert forall|i: int| 0 <= i < rest.len() implies #[trigger] rest[i] is Ok by {
                            assert(items[i + 1] is Ok);
                        }
                    }
                    if (forall|i: int| 0 <= i < rest.len() ==> #[trigger] rest[i] is Ok) {
                        assert forall|i: int| 0 <= i < items.len() implies #[trigger] items[i] is Ok by {
                            if i > 0 {
                                assert(rest[i - 1] is Ok);
                            }
                        }
                    }
                    assert(acc + c@ + chunks_bytes(rest) =~= acc + (c@ + chunks_bytes(rest)));
                }
            },
        }
    }
}

/// Collect a whole response body, chunk by chunk, into one buffer.
pub fn collect_body(items: Vec<Result<Vec<u8>, String>>) -> (r: Result<Vec<u8>, String>)
    ensures
        match r {
            Ok(b) => collect_from(Seq::empty(), items@) == Ok::<Seq<u8>, Seq<char>>(b@),
            Err(e) => collect_from(Seq::empty(), items@) == Err::<Seq<u8>, Seq<char>>(e@),
        },
{
    let ghost all = items@;
    let mut output: Vec<u8> = Vec::new();
    proof {
        assert(all.skip(0) =~= all);
        assert(output@ =~= Seq::<u8>::empty());
    }
    for item in it: items
        invariant
            it.seq() == all,
            collect_from(Seq::empty(), all) == collect_from(output@, all.skip(it.index() as int)),
    {
        proof {
            let rest = all.skip(it.index() as int);
            assert(rest[0] == item);
            assert(rest.drop_first() =~= all.skip(it.index() + 1));
        }
        match item {
            Err(e) => {
                return Err(e);
            },
            Ok(chunk) => {
                match collect_body_step(&mut output, chunk.as_slice()) {
                    Ok(()) => {},
                    Err(e) => {
                        return Err(e);
                    },
                }
            },
        }
    }
    proof {
        assert(all.skip(all.len() as int) =~= Seq::<Result<Vec<u8>, String>>::empty());
    }
    Ok(output)
}

/// The running size of a streamed response body after a non-empty chunk of
/// `chunk_len` bytes; past [`MAX_HTTP_RESPONSE_BODY_BYTES`] the stream ends
/// with an error.
pub fn next_body_total(total: usize, chunk_len: usize) -> (r: Result<usize, String>)
    ensures
        total + chunk_len > MAX_HTTP_RESPONSE_BODY_BYTES <==> r.is_err(),
        r matches Ok(t) ==> t == total + chunk_len,
        r matches Err(e) ==> e@ == "HTTP response body exceeds maximum size of 16777216 bytes"@,
{
    let next = total.saturating_add(chunk_len);
    if next > MAX_HTTP_RESPONSE_BODY_BYTES {
        Err(body_too_large_message())
    } else {
        Ok(next)
    }
}

/// A request timeout in milliseconds as nanoseconds, saturating.
pub fn timeout_nanos(millis: u64) -> (nanos: u64)
    ensures
        nanos == (if millis * 1_000_000 > u64::MAX {
            u64::MAX as int
        } else {
            millis * 1_000_000
        }),
{
    match millis.checked_mul(1_000_000) {
        Some(nanos) => nanos,
        None => u64::MAX,
    }
}

/// What reading the response body stream gave.
pub enum BodyRead {
    /// A chunk of this many bytes; an empty one is skipped.
    Chunk(usize),
    /// An empty read.
    Empty,
    /// The stream was closed by the sender.
    Dropped,
}

/// What the body stream does after a read.
pub enum BodyStep {
    /// Pass the chunk on.
    Emit,
    /// Pass this error on instead.
    Fail(String),
    /// Read again.
    ReadAgain,
    /// The body is complete: check the trailers and the request's
    /// transmission, and pass on their error if there is one.
    CheckTrailers,
    /// The body stream ends.
    End,
}

/// The response body stream's state: the size so far, and whether the
/// trailers and the transmission are still to be checked.
pub struct BodyReader {
    total: usize,
    pending: bool,
}

impl BodyReader {
    /// Bytes passed on (or refused) so far.
    pub closed spec fn total(&self) -> usize {
        self.total
    }

    /// Whether the trailers are still to be checked.
    pub closed spec fn pending(&self) -> bool {
        self.pending
    }

    /// A body of which nothing was read.
    pub fn new() -> (r: Self)
        ensures
            r.total() == 0,
            r.pending(),
    {
        BodyReader { total: 0, pending: true }
    }

    /// Decide after a read. An empty chunk is skipped; a chunk that takes the body past
    /// [`MAX_HTTP_RESPONSE_BODY_BYTES`] is refused with an error, and the
    /// trailers are no longer checked.
    pub fn step(&mut self, read: BodyRead) -> (r: BodyStep)
        ensures
            match read {
                BodyRead::Chunk(n) => if n == 0 {
                    r is ReadAgain && *final(self) == *old(self)
                } else if old(self).total() + n > MAX_HTTP_RESPONSE_BODY_BYTES {
                    (r matches BodyStep::Fail(m) && m@ == "HTTP response body exceeds maximum size of 16777216 bytes"@)
                        && !final(self).pending() && final(self).total() == (if old(self).total() + n > usize::MAX {
                        usize::MAX as int
                    } else {
                        old(self).total() + n
                    })
                } else {
                    r is Emit && final(self).pending() == old(self).pending() && final(self).total() == old(self).total() + n
                },
                BodyRead::Empty => r is ReadAgain && *final(self) == *old(self),
                BodyRead::Dropped => (if old(self).pending() { r is CheckTrailers } else { r is End }) && !final(self).pending()
                    && final(self).total() == old(self).total(),
            },
    {
        match read {
            BodyRead::Chunk(n) => {
                if n == 0 {
                    return BodyStep::ReadAgain;
                }
                let next = self.total.saturating_add(n);
                match next_body_total(self.total, n) {
                    Ok(t) => {
                        self.total = t;
                        BodyStep::Emit
                    },
                    Err(message) => {
                        self.total = next;
                        self.pending = false;
                        BodyStep::Fail(message)
                    },
                }
            },
            BodyRead::Empty => BodyStep::ReadAgain,
            BodyRead::Dropped => {
                if self.pending {
                    self.pending = false;
                    BodyStep::CheckTrailers
                } else {
                    BodyStep::End
                }
            },
        }
    }
}

/// The error, if any, once a body is complete: a failure to receive the
/// trailers (described by `trailers`), else a failure of the request's
/// transmission (its kind and description).
pub fn trailers_error(trailers: Result<(), String>, transmission: Result<(), (HttpErrorKind, String)>) -> (r: Option<String>)
    ensures
        match trailers {
            Err(d) => r matches Some(m) && m@ == "HTTP response body failed: "@ + d@,
            Ok(()) => match transmission {
                Ok(()) => r is None,
                Err((k, d)) => r matches Some(m) && m@ == "HTTP request transmission"@ + (if is_timeout(k) {
                    " timed out: "@
                } else {
                    " failed: "@
                }) + d@,
            },
        },
{
    match trailers {
        Err(d) => {
            let mut m = String::from_str("HTTP response body failed: ");
            m.append(d.as_str());
            Some(m)
        },
        Ok(()) => match transmission {
            Ok(()) => None,
            Err((k, d)) => Some(format_http_error("HTTP request transmission", k, d.as_str())),
        },
    }
}

/// The text `format!("{:?}", s)` gives for a string: quoted, with escapes.
pub uninterp spec fn debug_quoted(s: Seq<char>) -> Seq<char>;

/// A string's debug text, by the `Debug` impl of `str`; it depends on the
/// string alone.
#[verifier::external_body]
fn debug_str(s: &str) -> (r: String)
    ensures
        r@ == debug_quoted(s@),
{
    format!("{s:?}")
}

/// The error for a header list that WASI HTTP refuses: it names the first
/// header that is refused on its own, if there is one; `error` is the debug
/// text of the refusal.
pub fn invalid_headers_message(rejected: Option<&str>, error: &str) -> (m: String)
    ensures
        m@ == match rejected {
            Some(name) => "invalid HTTP header "@ + debug_quoted(name@) + ": "@ + error@,
            None => "invalid HTTP headers: "@ + error@,
        },
{
    match rejected {
        Some(name) => {
            let mut m = String::from_str("invalid HTTP header ");
            let quoted = debug_str(name);
            m.append(quoted.as_str());
            m.append(": ");
            m.append(error);
            m
        },
        None => {
            let mut m = String::from_str("invalid HTTP headers: ");
            m.append(error);
            m
        },
    }
}

/// A part of a request that WASI HTTP may refuse.
#[derive(Clone, Copy, Debug, PartialEq, Eq, Structural)]
pub enum RequestPart {
    Method,
    Scheme,
    Authority,
    Path,
}

/// The error for a refused part of a request.
pub fn invalid_part_message(part: RequestPart) -> (m: String)
    ensures
        m@ == match part {
            RequestPart::Method => "invalid HTTP method"@,
            RequestPart::Scheme => "invalid HTTP scheme"@,
            RequestPart::Authority => "invalid HTTP authority"@,
            RequestPart::Path => "invalid HTTP path"@,
        },
{
    match part {
        RequestPart::Method => String::from_str("invalid HTTP method"),
        RequestPart::Scheme => String::from_str("invalid HTTP scheme"),
        RequestPart::Authority => String::from_str("invalid HTTP authority"),
        RequestPart::Path => String::from_str("invalid HTTP path"),
    }
}

/// The error for a timeout that WASI HTTP refuses; `error` is the debug text
/// of the refusal.
pub fn invalid_timeout_message(error: &str) -> (m: String)
    ensures
        m@ == "invalid HTTP timeout: "@ + error@,
{
    let mut m = String::from_str("invalid HTTP timeout: ");
    m.append(error);
    m
}

/// What writing the request body does with the next chunk of its stream.
pub enum BodyWrite {
    /// Write these bytes.
    Write(Vec<u8>),
    /// Skip an empty chunk.
    Skip,
    /// Stop with this error.
    Fail(String),
}

/// Decide on the next chunk of the request body: empty chunks are skipped,
/// and an error of the stream ends the write.
pub fn body_write_step(chunk: Result<Vec<u8>, String>) -> (w: BodyWrite)
    ensures
        match chunk {
            Ok(bytes) => if bytes@.len() == 0 {
                w is Skip
            } else {
                w == BodyWrite::Write(bytes)
            },
            Err(e) => w == BodyWrite::Fail(e),
        },
{
    match chunk {
        Ok(bytes) => if bytes.len() == 0 {
            BodyWrite::Skip
        } else {
            BodyWrite::Write(bytes)
        },
        Err(e) => BodyWrite::Fail(e),
    }
}

/// The outcome of writing a chunk: the bytes the stream did not take mean it
/// was closed early.
pub fn body_written(unwritten: usize) -> (r: Result<(), String>)
    ensures
        unwritten == 0 <==> r is Ok,
        r matches Err(m) ==> m@ == "HTTP request body stream closed early"@,
{
    if unwritten == 0 {
        Ok(())
    } else {
        Err(String::from_str("HTTP request body stream closed early"))
    }
}

} // verus!
