//! Per-request options of the HTTP client: the context that opens a tracing
//! span for each request.
use vstd::prelude::*;

verus! {

/// Opens the span that traces a request. Users of the client implement it.
pub trait RequestContext {
    /// The span type.
    type Span;

    /// Open the span for `request`.
    fn make_span<Req>(&mut self, request: &Req) -> Self::Span;
}

/// The context that traces nothing.
impl RequestContext for () {
    type Span = ();

    fn make_span<Req>(&mut self, request: &Req) -> Self::Span {
    }
}

/// Options of one request.
pub struct RequestOptions<C: RequestContext = ()> {
    pub context: C,
}

impl<C: RequestContext> RequestOptions<C> {
    /// Options with the tracing context `c`.
    pub fn new(c: C) -> (o: Self)
        ensures
            o.context == c,
    {
        RequestOptions { context: c }
    }
}

impl Default for RequestOptions<()> {
    fn default() -> (o: Self)
        ensures
            o.context == (),
    {
        RequestOptions { context: () }
    }
}

/// The headers that ask the server to switch the connection to the websocket
/// protocol, with the handshake `key`.
pub fn websocket_upgrade_headers(key: String) -> (h: Vec<(String, String)>)
    ensures
        h@.len() == 4,
        h@[0].0@ == "connection"@ && h@[0].1@ == "Upgrade"@,
        h@[1].0@ == "upgrade"@ && h@[1].1@ == "websocket"@,
        h@[2].0@ == "sec-websocket-version"@ && h@[2].1@ == "13"@,
        h@[3].0@ == "sec-websocket-key"@ && h@[3].1 == key,
{
    let mut h: Vec<(String, String)> = Vec::new();
    h.push((String::from_str("connection"), String::from_str("Upgrade")));
    h.push((String::from_str("upgrade"), String::from_str("websocket")));
    h.push((String::from_str("sec-websocket-version"), String::from_str("13")));
    h.push((String::from_str("sec-websocket-key"), key));
    h
}

/// The request header through which a caller routes a request via a proxy.
pub fn proxy_header() -> (name: &'static str)
    ensures
        name@ == "x-promptkit-proxy"@,
{
    "x-promptkit-proxy"
}

} // verus!
