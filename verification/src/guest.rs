//! The guest language's view of pending operations: pollables, call results
//! and argument splitting.
use vstd::prelude::*;
use crate::pending::{
    self, Drive, InvalidHandle, Output, Registry, Take, handle_space, invalid_handle_message, op_ready,
    take_spec,
};
use crate::text::{chars_eq_ignore_ascii_case, chars_of, eq_ignore_ascii_case, string_of, text_result};
use crate::time::{Deadline, deadline_ready_at};

verus! {

/// What a pollable waits for.
#[derive(Clone, Copy, Debug, PartialEq, Eq, Structural)]
pub enum PollableState {
    /// Nothing: it is ready.
    Ready,
    /// A registered operation.
    Operation(u32),
}

/// A guest-visible handle that can be polled for readiness.
pub struct PyPollable {
    state: PollableState,
}

/// Message when a pollable is consumed before it is ready.
pub open spec fn not_ready_message() -> Seq<char> {
    "operation is not ready"@
}

/// Message when a pollable is consumed for a result that belongs elsewhere.
pub open spec fn owner_message() -> Seq<char> {
    "operation result must be read from its owner"@
}

/// Message when waiting did not make the operation ready.
pub open spec fn stalled_message() -> Seq<char> {
    "operation did not become ready"@
}

/// Whether a pollable in `state` is ready at clock reading `now`; an
/// unregistered operation counts as ready.
pub open spec fn state_ready<H, R>(state: PollableState, registry: Registry<H, R>, now: u64) -> bool {
    match state {
        PollableState::Ready => true,
        PollableState::Operation(h) => !registry.ops().contains_key(h) || op_ready(registry.ops()[h], now),
    }
}

/// What consuming a pollable's operation reports.
pub open spec fn get_outcome<R>(r: Result<Take<R>, InvalidHandle>) -> Result<(), Seq<char>> {
    match r {
        Ok(Take::Ready(Output::Sleep)) => Ok(()),
        Ok(Take::Ready(_)) => Err(owner_message()),
        Ok(Take::Pending) => Err(not_ready_message()),
        Err(e) => Err(invalid_handle_message(e.0)),
    }
}

/// The view of a `Result<(), String>`.
pub open spec fn unit_result_view(r: Result<(), String>) -> Result<(), Seq<char>> {
    match r {
        Ok(()) => Ok(()),
        Err(m) => Err(m@),
    }
}

impl PyPollable {
    /// What the pollable waits for.
    pub closed spec fn state(&self) -> PollableState {
        self.state
    }

    /// A pollable for a registered operation.
    pub fn operation(handle: u32) -> (p: Self)
        ensures
            p.state() == PollableState::Operation(handle),
    {
        PyPollable { state: PollableState::Operation(handle) }
    }

    /// The registered operation, if any.
    pub fn handle(&self) -> (h: Option<u32>)
        ensures
            h == (match self.state() {
                PollableState::Ready => None,
                PollableState::Operation(h) => Some(h),
            }),
    {
        match self.state {
            PollableState::Ready => None,
            PollableState::Operation(h) => Some(h),
        }
    }

    /// A pollable for a sleep: ready at once if the deadline already passed,
    /// else backed by a registered sleep.
    pub fn sleep<H, R>(registry: &mut Registry<H, R>, deadline: Deadline, now: u64) -> (p: Self)
        requires
            old(registry).wf(),
            old(registry).ops().dom().len() < handle_space(),
        ensures
            final(registry).wf(),
            deadline_ready_at(deadline.0, now) ==> p.state() == PollableState::Ready && *final(registry) == *old(registry),
            !deadline_ready_at(deadline.0, now) ==> (p.state() matches PollableState::Operation(h)
                && final(registry).ops() == old(registry).ops().insert(h, pending::Operation::Sleep(deadline))
                && !old(registry).ops().contains_key(h)),
    {
        if deadline.is_ready_at(now) {
            PyPollable::default()
        } else {
            let handle = pending::register_sleep(registry, deadline, now);
            PyPollable::operation(handle)
        }
    }

    /// Whether the pollable is ready.
    pub fn is_ready<H, R>(&self, registry: &Registry<H, R>, now: u64) -> (b: bool)
        ensures
            b == state_ready(self.state(), *registry, now),
    {
        match self.state {
            PollableState::Ready => true,
            PollableState::Operation(handle) => pending::is_ready(registry, handle, now),
        }
    }

    /// A pollable to wait on, or `None` if this one is ready already.
    pub fn subscribe<H, R>(&self, registry: &Registry<H, R>, now: u64) -> (r: Option<Self>)
        ensures
            state_ready(self.state(), *registry, now) ==> r is None,
            !state_ready(self.state(), *registry, now) ==> (r matches Some(p) && p.state() == self.state()),
    {
        if self.is_ready(registry, now) {
            None
        } else {
            Some(PyPollable { state: self.state })
        }
    }

    /// Consume a pollable: a due sleep is fine; any other result must be read
    /// by the future that owns it; the operation is removed in every case.
    pub fn get<H, R>(&self, registry: &mut Registry<H, R>, now: u64) -> (r: Result<(), String>)
        requires
            old(registry).wf(),
        ensures
            final(registry).wf(),
            self.state() == PollableState::Ready ==> r is Ok && *final(registry) == *old(registry),
            self.state() matches PollableState::Operation(h) ==> {
                &&& final(registry).ops() == take_spec(old(registry).ops(), h, now).0
                &&& unit_result_view(r) == get_outcome(take_spec(old(registry).ops(), h, now).1)
            },
    {
        match self.state {
            PollableState::Ready => Ok(()),
            PollableState::Operation(handle) => match pending::take(registry, handle, now) {
                Ok(Take::Ready(Output::Sleep)) => Ok(()),
                Ok(Take::Ready(_)) => Err(String::from_str("operation result must be read from its owner")),
                Ok(Take::Pending) => Err(String::from_str("operation is not ready")),
                Err(error) => Err(error.message()),
            },
        }
    }

    /// Drop the pollable's operation without consuming it; returns whether a
    /// running request must be aborted.
    pub fn release<H, R>(&self, registry: &mut Registry<H, R>) -> (aborted: bool)
        requires
            old(registry).wf(),
        ensures
            final(registry).wf(),
            self.state() == PollableState::Ready ==> !aborted && *final(registry) == *old(registry),
            self.state() matches PollableState::Operation(h) ==> final(registry).ops() == old(registry).ops().remove(h)
                && aborted == old(registry).running_set().contains(h),
    {
        match self.state {
            PollableState::Ready => false,
            PollableState::Operation(handle) => pending::release(registry, handle),
        }
    }

    /// The driver's step while blocking on this pollable: suspend once it is
    /// ready, else keep waiting.
    pub fn wait_step<H, R>(&self, registry: &Registry<H, R>, now: u64) -> (mode: Drive)
        ensures
            mode == (if state_ready(self.state(), *registry, now) { Drive::Suspend } else { Drive::Wait }),
    {
        if self.is_ready(registry, now) {
            Drive::Suspend
        } else {
            Drive::Wait
        }
    }

    /// The outcome of blocking on this pollable, once the driver returned.
    pub fn wait_outcome<H, R>(&self, registry: &Registry<H, R>, now: u64) -> (r: Result<(), String>)
        ensures
            r is Ok <==> state_ready(self.state(), *registry, now),
            r matches Err(m) ==> m@ == stalled_message(),
    {
        if self.is_ready(registry, now) {
            Ok(())
        } else {
            Err(String::from_str("operation did not become ready"))
        }
    }
}

impl Default for PyPollable {
    fn default() -> (p: Self)
        ensures
            p.state() == PollableState::Ready,
    {
        PyPollable { state: PollableState::Ready }
    }
}

/// The driver's step while waiting for `handle`: suspend once it is ready.
pub fn ready_step<H, R>(registry: &Registry<H, R>, handle: u32, now: u64) -> (mode: Drive)
    ensures
        mode == (if state_ready(PollableState::Operation(handle), *registry, now) {
            Drive::Suspend
        } else {
            Drive::Wait
        }),
{
    if pending::is_ready(registry, handle, now) {
        Drive::Suspend
    } else {
        Drive::Wait
    }
}

/// The driver's step after the guest's step callback: `step` is what the
/// callback returned (`None` if it failed).
pub fn drive_mode(step: Option<bool>, suspend: bool) -> (mode: Drive)
    ensures
        mode == (match step {
            Some(true) => Drive::Wait,
            Some(false) => if suspend { Drive::Suspend } else { Drive::Stop },
            None => Drive::Stop,
        }),
{
    match step {
        Some(true) => Drive::Wait,
        Some(false) => if suspend {
            Drive::Suspend
        } else {
            Drive::Stop
        },
        None => Drive::Stop,
    }
}

/// Readiness of each polled item, as bytes: an item without a pollable counts as ready.
pub fn ready_flags<H, R>(registry: &Registry<H, R>, items: &Vec<Option<PyPollable>>, now: u64) -> (flags: Vec<u8>)
    ensures
        flags@.len() == items@.len(),
        forall|i: int| 0 <= i < items@.len() ==> #[trigger] flags@[i] == (match items@[i] {
            None => 1u8,
            Some(p) => if state_ready(p.state(), *registry, now) { 1u8 } else { 0u8 },
        }),
{
    let mut flags: Vec<u8> = Vec::new();
    let mut i: usize = 0;
    while i < items.len()
        invariant
            i <= items@.len(),
            flags@.len() == i,
            forall|j: int| 0 <= j < i ==> #[trigger] flags@[j] == (match items@[j] {
                None => 1u8,
                Some(p) => if state_ready(p.state(), *registry, now) { 1u8 } else { 0u8 },
            }),
        decreases items@.len() - i,
    {
        let flag: u8 = match &items[i] {
            None => 1,
            Some(p) => if p.is_ready(registry, now) {
                1
            } else {
                0
            },
        };
        flags.push(flag);
        i = i + 1;
    }
    flags
}

/// Message for a call handle that is unknown or not yet completed.
pub open spec fn undriven_call_message() -> Seq<char> {
    "invalid or undriven call handle"@
}

/// Message for a call handle that cannot be driven.
pub open spec fn invalid_call_message() -> Seq<char> {
    "invalid call handle"@
}

/// Message for an HTTP handle that is unknown or not yet completed.
pub open spec fn undriven_http_message() -> Seq<char> {
    "invalid or undriven HTTP handle"@
}

/// The view of a host call's result.
pub open spec fn bytes_result_view(r: Result<Vec<u8>, String>) -> Result<Seq<u8>, Seq<char>> {
    match r {
        Ok(b) => Ok(b@),
        Err(m) => Err(m@),
    }
}

/// What consuming a completed host call reports.
pub open spec fn call_outcome<R>(r: Result<Take<R>, InvalidHandle>) -> Result<Seq<u8>, Seq<char>> {
    match r {
        Ok(Take::Ready(Output::Host(result))) => bytes_result_view(result),
        _ => Err(undriven_call_message()),
    }
}

/// Consume a driven host call's result.
pub fn take_result<H, R>(registry: &mut Registry<H, R>, handle: u32, now: u64) -> (r: Result<Vec<u8>, String>)
    requires
        old(registry).wf(),
    ensures
        final(registry).wf(),
        final(registry).ops() == take_spec(old(registry).ops(), handle, now).0,
        bytes_result_view(r) == call_outcome(take_spec(old(registry).ops(), handle, now).1),
{
    match pending::take(registry, handle, now) {
        Ok(Take::Ready(Output::Host(result))) => result,
        _ => Err(String::from_str("invalid or undriven call handle")),
    }
}

/// The result of a host call driven to completion: a call result, or the
/// report for a handle that is not a host call.
pub fn call_output<R>(output: Result<Output<R>, InvalidHandle>) -> (r: Result<Vec<u8>, String>)
    ensures
        bytes_result_view(r) == (match output {
            Ok(Output::Host(result)) => bytes_result_view(result),
            _ => Err(invalid_call_message()),
        }),
{
    match output {
        Ok(Output::Host(result)) => result,
        _ => Err(String::from_str("invalid call handle")),
    }
}

/// What consuming a completed HTTP request reports.
pub open spec fn http_outcome<R>(r: Result<Take<R>, InvalidHandle>) -> Result<R, Seq<char>> {
    match r {
        Ok(Take::Ready(Output::Http { response, .. })) => match response {
            Ok(v) => Ok(v),
            Err(m) => Err(m@),
        },
        _ => Err(undriven_http_message()),
    }
}

/// Consume a driven HTTP request's response.
pub fn take_http_result<H, R>(registry: &mut Registry<H, R>, handle: u32, now: u64) -> (r: Result<R, String>)
    requires
        old(registry).wf(),
    ensures
        final(registry).wf(),
        final(registry).ops() == take_spec(old(registry).ops(), handle, now).0,
        (match r {
            Ok(v) => Ok(v),
            Err(m) => Err(m@),
        }) == http_outcome(take_spec(old(registry).ops(), handle, now).1),
{
    match pending::take(registry, handle, now) {
        Ok(Take::Ready(Output::Http { response, .. })) => response,
        _ => Err(String::from_str("invalid or undriven HTTP handle")),
    }
}

/// The values of the unnamed arguments, in order.
pub open spec fn positional_of<V>(args: Seq<(Option<String>, V)>) -> Seq<V>
    decreases args.len(),
{
    if args.len() == 0 {
        Seq::empty()
    } else if args.last().0 is None {
        positional_of(args.drop_last()).push(args.last().1)
    } else {
        positional_of(args.drop_last())
    }
}

/// The named arguments, in order.
pub open spec fn named_of<V>(args: Seq<(Option<String>, V)>) -> Seq<(String, V)>
    decreases args.len(),
{
    if args.len() == 0 {
        Seq::empty()
    } else if args.last().0 is Some {
        named_of(args.drop_last()).push((args.last().0->0, args.last().1))
    } else {
        named_of(args.drop_last())
    }
}

/// Split call arguments into positional ones and named ones, keeping the order
/// of each.
pub fn split_arguments<V>(args: Vec<(Option<String>, V)>) -> (r: (Vec<V>, Vec<(String, V)>))
    ensures
        r.0@ == positional_of(args@),
        r.1@ == named_of(args@),
{
    let ghost all = args@;
    let mut positional: Vec<V> = Vec::new();
    let mut named: Vec<(String, V)> = Vec::new();
    let mut rest = args;
    let mut i: usize = 0;
    let n = rest.len();
    proof {
        assert(all.skip(0) =~= all);
        assert(all.take(0) =~= Seq::<(Option<String>, V)>::empty());
    }
    while i < n
        invariant
            n == all.len(),
            i <= n,
            rest@ == all.skip(i as int),
            positional@ == positional_of(all.take(i as int)),
            named@ == named_of(all.take(i as int)),
        decreases n - i,
    {
        let arg = rest.remove(0);
        proof {
            assert(arg == all[i as int]);
            assert(rest@ =~= all.skip(i + 1));
            assert(all.take(i + 1).drop_last() =~= all.take(i as int));
            assert(all.take(i + 1).last() == arg);
        }
        let (name, value) = arg;
        match name {
            Some(name) => {
                named.push((name, value));
            },
            None => {
                positional.push(value);
            },
        }
        i = i + 1;
    }
    proof {
        assert(all.take(n as int) =~= all);
    }
    (positional, named)
}

/// Whether a header list names a content type, in any case.
pub open spec fn has_content_type(headers: Seq<(String, Vec<u8>)>) -> bool {
    exists|i: int| 0 <= i < headers.len() && eq_ignore_ascii_case((#[trigger] headers[i]).0@, "content-type"@)
}

/// The serialization of the URL that `url::Url::parse` reads from `url`, after
/// each pair of `params` was appended to its query (`application/x-www-form-urlencoded`)
/// in order; or the text of the parse error.
pub uninterp spec fn url_with_query(url: Seq<char>, params: Seq<(Seq<char>, Seq<char>)>) -> Result<
    Seq<char>,
    Seq<char>,
>;

/// Query parameters taken by their views.
pub open spec fn params_view(params: Seq<(String, String)>) -> Seq<(Seq<char>, Seq<char>)> {
    params.map_values(|p: (String, String)| (p.0@, p.1@))
}

/// The number of characters of the query parameters' names and values.
pub open spec fn params_size(params: Seq<(Seq<char>, Seq<char>)>) -> nat
    decreases params.len(),
{
    if params.len() == 0 {
        0
    } else {
        params_size(params.drop_last()) + params.last().0.len() + params.last().1.len() + 2
    }
}

/// Inputs small enough that the URL's serialization stays far below
/// `u32::MAX` bytes, past which `url` panics when it appends to the query: a
/// character takes at most four bytes, and parsing (percent-encoding, host
/// mapping) and form-encoding expand a byte a bounded number of times.
pub open spec fn url_fits(url: Seq<char>, params: Seq<(Seq<char>, Seq<char>)>) -> bool {
    64 * (url.len() + params_size(params) + 1) <= u32::MAX
}

/// Parse `url` with `url::Url::parse` and serialize it; the error is the
/// parse error's text. The result depends on the text alone.
#[verifier::external_body]
fn parse_url(url: &str) -> (r: Result<String, String>)
    ensures
        text_result(r) == url_with_query(url@, Seq::empty()),
{
    url::Url::parse(url).map(String::from).map_err(|e| e.to_string())
}

/// Parse `url` with `url::Url::parse`, append `params` to its query with
/// `query_pairs_mut().extend_pairs` and serialize it; the error is the parse
/// error's text. The result depends on the arguments alone.
#[verifier::external_body]
fn parse_url_with_query(url: &str, params: &Vec<(String, String)>) -> (r: Result<String, String>)
    requires
        params@.len() > 0,
        url_fits(url@, params_view(params@)),
    ensures
        text_result(r) == url_with_query(url@, params_view(params@)),
{
    let mut parsed = url::Url::parse(url).map_err(|e| e.to_string())?;
    parsed.query_pairs_mut().extend_pairs(params.iter().map(|p| (p.0.as_str(), p.1.as_str())));
    Ok(parsed.into())
}

/// The URL of a guest request: `url` parsed, with the query parameters
/// appended in order; a URL that does not parse is refused with the parse
/// error's text.
pub fn request_url(url: &str, params: &Vec<(String, String)>) -> (r: Result<String, String>)
    requires
        url_fits(url@, params_view(params@)),
    ensures
        text_result(r) == url_with_query(url@, params_view(params@)),
{
    if params.len() == 0 {
        proof {
            assert(params_view(params@) =~= Seq::empty());
        }
        parse_url(url)
    } else {
        parse_url_with_query(url, params)
    }
}

/// The headers of a request whose body is serialized from an object: a JSON
/// content type is added unless one is given.
pub fn with_json_content_type(headers: Vec<(String, Vec<u8>)>, object_body: bool) -> (r: Vec<(String, Vec<u8>)>)
    ensures
        object_body && !has_content_type(headers@) ==> r@.len() == headers@.len() + 1
            && r@.subrange(0, headers@.len() as int) == headers@ && r@.last().0@ == "content-type"@
            && r@.last().1@ == "application/json"@.map_values(|c: char| c as u8),
        !(object_body && !has_content_type(headers@)) ==> r@ == headers@,
{
    if !object_body {
        return headers;
    }
    let name = chars_of("content-type");
    let mut i: usize = 0;
    while i < headers.len()
        invariant
            i <= headers@.len(),
            name@ == "content-type"@,
            forall|j: int| 0 <= j < i ==> !eq_ignore_ascii_case((#[trigger] headers@[j]).0@, "content-type"@),
        decreases headers@.len() - i,
    {
        let header_name = chars_of(headers[i].0.as_str());
        if chars_eq_ignore_ascii_case(&header_name, &name) {
            return headers;
        }
        i = i + 1;
    }
    let mut out = headers;
    let ghost before = out@;
    let value: Vec<u8> = vec![97u8, 112, 112, 108, 105, 99, 97, 116, 105, 111, 110, 47, 106, 115, 111, 110];
    proof {
        reveal_strlit("application/json");
        assert(value@ =~= "application/json"@.map_values(|c: char| c as u8));
    }
    out.push((String::from_str("content-type"), value));
    proof {
        assert(out@.subrange(0, before.len() as int) =~= before);
    }
    out
}

} // verus!
