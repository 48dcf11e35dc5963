//! The life cycle of an embedded sandbox: configuration, start, exclusive
//! use while a script runs, and the output collected from a run.
use vstd::prelude::*;
use crate::sdk_config::{
    ErrorView, PendingSandboxConfig, PendingSandboxConfigView, SandboxConfigPatch, SdkError, apply_sandbox_patch,
    invalid_argument, patch_env_ordered, unit_view,
};
use crate::text::{push_decimal, push_str, str_eq, string_of, decimal};

verus! {

/// Message when a sandbox is used before it was created or after it was closed.
pub open spec fn not_initialized_message() -> Seq<char> {
    "sandbox is not initialized"@
}

/// Message when a running sandbox is reconfigured.
pub open spec fn already_running_message() -> Seq<char> {
    "sandbox is already running"@
}

/// Message when a sandbox is started twice.
pub open spec fn not_pending_message() -> Seq<char> {
    "sandbox is not in pending state"@
}

/// Message when a script is run on a sandbox that is not running.
pub open spec fn not_running_message() -> Seq<char> {
    "sandbox is not running"@
}

/// Message when a sandbox is used while another script runs on it.
pub open spec fn busy_message() -> Seq<char> {
    "sandbox is busy"@
}

/// The state of a sandbox: `S` is the running instance, `C` the output
/// callback, `Hd` the HTTP handler.
pub enum SandboxInner<S, C, Hd> {
    Uninitialized,
    Pending { config: PendingSandboxConfig, callback: Option<C>, http_handler: Option<Hd> },
    /// `sandbox` is `None` while a script runs on it.
    Running { sandbox: Option<S>, callback: Option<C>, timeout_ms: Option<u64> },
}

/// The state once a running sandbox was handed out for a run.
pub open spec fn acquired<S, C, Hd>(s: SandboxInner<S, C, Hd>) -> SandboxInner<S, C, Hd> {
    match s {
        SandboxInner::Running { sandbox: Some(_), callback, timeout_ms } => SandboxInner::Running {
            sandbox: None,
            callback,
            timeout_ms,
        },
        _ => s,
    }
}

/// The state once `x` came back from a run: it is put back only into an
/// empty slot of a running sandbox.
pub open spec fn given_back<S, C, Hd>(s: SandboxInner<S, C, Hd>, x: S) -> SandboxInner<S, C, Hd> {
    match s {
        SandboxInner::Running { sandbox: None, callback, timeout_ms } => SandboxInner::Running {
            sandbox: Some(x),
            callback,
            timeout_ms,
        },
        _ => s,
    }
}

/// The output callback of a sandbox, if one is set.
pub open spec fn callback_of<S, C, Hd>(s: SandboxInner<S, C, Hd>) -> Option<C> {
    match s {
        SandboxInner::Pending { callback, .. } => callback,
        SandboxInner::Running { callback, .. } => callback,
        SandboxInner::Uninitialized => None,
    }
}

impl<S, C, Hd> SandboxInner<S, C, Hd> {
    /// A new sandbox, waiting to be configured and started.
    pub fn pending() -> (s: Self)
        ensures
            s matches SandboxInner::Pending { config, callback, http_handler } && config@ == (PendingSandboxConfigView {
                max_memory: None,
                mounts: Seq::empty(),
                env: Seq::empty(),
                timeout_ms: None,
            }) && callback is None && http_handler is None,
    {
        SandboxInner::Pending { config: PendingSandboxConfig::default(), callback: None, http_handler: None }
    }

    /// Apply a configuration patch to a sandbox that has not started.
    pub fn configure(&mut self, patch: SandboxConfigPatch) -> (r: Result<(), SdkError>)
        requires
            patch_env_ordered(patch.env),
        ensures
            match *old(self) {
                SandboxInner::Pending { config, callback, http_handler } => *final(self) matches SandboxInner::Pending {
                    config: c2,
                    callback: cb2,
                    http_handler: h2,
                } && cb2 == callback && h2 == http_handler && (c2@, unit_view(r)) == apply_sandbox_patch(config@, patch),
                SandboxInner::Running { .. } => *final(self) == *old(self) && unit_view(r) == Err::<(), ErrorView>(
                    ErrorView::InvalidArgument(already_running_message()),
                ),
                SandboxInner::Uninitialized => *final(self) == *old(self) && unit_view(r) == Err::<(), ErrorView>(
                    ErrorView::InvalidArgument(not_initialized_message()),
                ),
            },
    {
        match self {
            SandboxInner::Pending { config, .. } => config.apply_patch(patch),
            SandboxInner::Running { .. } => Err(invalid_argument("sandbox is already running")),
            SandboxInner::Uninitialized => Err(invalid_argument("sandbox is not initialized")),
        }
    }

    /// Set or clear the output callback.
    pub fn set_callback(&mut self, callback: Option<C>) -> (r: Result<(), SdkError>)
        ensures
            match *old(self) {
                SandboxInner::Pending { config, http_handler, .. } => r is Ok && *final(self) == (SandboxInner::<S, C, Hd>::Pending {
                    config,
                    callback,
                    http_handler,
                }),
                SandboxInner::Running { sandbox, timeout_ms, .. } => r is Ok && *final(self) == (SandboxInner::<S, C, Hd>::Running {
                    sandbox,
                    callback,
                    timeout_ms,
                }),
                SandboxInner::Uninitialized => *final(self) == *old(self) && unit_view(r) == Err::<(), ErrorView>(
                    ErrorView::InvalidArgument(not_initialized_message()),
                ),
            },
    {
        match self {
            SandboxInner::Pending { callback: slot, .. } => {
                *slot = callback;
                Ok(())
            },
            SandboxInner::Running { callback: slot, .. } => {
                *slot = callback;
                Ok(())
            },
            SandboxInner::Uninitialized => Err(invalid_argument("sandbox is not initialized")),
        }
    }

    /// Set or clear the HTTP handler of a sandbox that has not started.
    pub fn set_http_handler(&mut self, http_handler: Option<Hd>) -> (r: Result<(), SdkError>)
        ensures
            match *old(self) {
                SandboxInner::Pending { config, callback, .. } => r is Ok && *final(self) == (SandboxInner::<S, C, Hd>::Pending {
                    config,
                    callback,
                    http_handler,
                }),
                SandboxInner::Running { .. } => *final(self) == *old(self) && unit_view(r) == Err::<(), ErrorView>(
                    ErrorView::InvalidArgument(already_running_message()),
                ),
                SandboxInner::Uninitialized => *final(self) == *old(self) && unit_view(r) == Err::<(), ErrorView>(
                    ErrorView::InvalidArgument(not_initialized_message()),
                ),
            },
    {
        match self {
            SandboxInner::Pending { http_handler: slot, .. } => {
                *slot = http_handler;
                Ok(())
            },
            SandboxInner::Running { .. } => Err(invalid_argument("sandbox is already running")),
            SandboxInner::Uninitialized => Err(invalid_argument("sandbox is not initialized")),
        }
    }

    /// Take the parts of a pending sandbox to start it; the sandbox is
    /// uninitialized until the start finishes.
    pub fn begin_start(&mut self) -> (r: Result<(PendingSandboxConfig, Option<C>, Option<Hd>), SdkError>)
        ensures
            match *old(self) {
                SandboxInner::Pending { config, callback, http_handler } => r == Ok::<
                    (PendingSandboxConfig, Option<C>, Option<Hd>),
                    SdkError,
                >((config, callback, http_handler)) && *final(self) == SandboxInner::<S, C, Hd>::Uninitialized,
                _ => *final(self) == *old(self) && (r matches Err(e) && e@ == ErrorView::InvalidArgument(
                    not_pending_message(),
                )),
            },
    {
        let mut current = SandboxInner::Uninitialized;
        std::mem::swap(self, &mut current);
        match current {
            SandboxInner::Pending { config, callback, http_handler } => Ok((config, callback, http_handler)),
            other => {
                *self = other;
                Err(invalid_argument("sandbox is not in pending state"))
            },
        }
    }

    /// Finish a start: a created instance makes the sandbox run with the
    /// configured timeout; a failure puts the parts back.
    pub fn finish_start(
        &mut self,
        outcome: Result<S, SdkError>,
        config: PendingSandboxConfig,
        callback: Option<C>,
        http_handler: Option<Hd>,
    ) -> (r: Result<(), SdkError>)
        ensures
            match outcome {
                Ok(x) => r is Ok && *final(self) == (SandboxInner::<S, C, Hd>::Running {
                    sandbox: Some(x),
                    callback,
                    timeout_ms: config.timeout_ms,
                }),
                Err(e) => r == Err::<(), SdkError>(e) && *final(self) == (SandboxInner::<S, C, Hd>::Pending {
                    config,
                    callback,
                    http_handler,
                }),
            },
    {
        match outcome {
            Ok(sandbox) => {
                let timeout_ms = config.timeout_ms;
                *self = SandboxInner::Running { sandbox: Some(sandbox), callback, timeout_ms };
                Ok(())
            },
            Err(e) => {
                *self = SandboxInner::Pending { config, callback, http_handler };
                Err(e)
            },
        }
    }

    /// Hand out the running instance for a run, with the run's timeout.
    pub fn acquire(&mut self) -> (r: Result<(S, Option<u64>), SdkError>)
        ensures
            *final(self) == acquired(*old(self)),
            match *old(self) {
                SandboxInner::Running { sandbox: Some(x), timeout_ms, .. } => r == Ok::<(S, Option<u64>), SdkError>(
                    (x, timeout_ms),
                ),
                SandboxInner::Running { sandbox: None, .. } => r matches Err(e) && e@ == ErrorView::InvalidArgument(
                    busy_message(),
                ),
                _ => r matches Err(e) && e@ == ErrorView::InvalidArgument(not_running_message()),
            },
    {
        match self {
            SandboxInner::Running { sandbox, timeout_ms, .. } => match sandbox.take() {
                Some(x) => Ok((x, *timeout_ms)),
                None => Err(invalid_argument("sandbox is busy")),
            },
            _ => Err(invalid_argument("sandbox is not running")),
        }
    }

    /// Put an instance back after a run. It goes back only into the empty
    /// slot of a running sandbox; otherwise it is returned, to be dropped.
    pub fn give_back(&mut self, sandbox: S) -> (leftover: Option<S>)
        ensures
            *final(self) == given_back(*old(self), sandbox),
            (old(self) matches SandboxInner::Running { sandbox: None, .. }) <==> leftover is None,
            leftover matches Some(x) ==> x == sandbox,
    {
        match self {
            SandboxInner::Running { sandbox: slot, .. } => {
                if slot.is_none() {
                    *slot = Some(sandbox);
                    None
                } else {
                    Some(sandbox)
                }
            },
            _ => Some(sandbox),
        }
    }

    /// The output callback, if one is set.
    pub fn callback(&self) -> (c: Option<&C>)
        ensures
            c is Some == callback_of(*self) is Some,
            c matches Some(x) ==> callback_of(*self) == Some(*x),
    {
        match self {
            SandboxInner::Pending { callback, .. } => callback.as_ref(),
            SandboxInner::Running { callback, .. } => callback.as_ref(),
            SandboxInner::Uninitialized => None,
        }
    }

    /// Close the sandbox.
    pub fn close(&mut self)
        ensures
            *final(self) == SandboxInner::<S, C, Hd>::Uninitialized,
    {
        *self = SandboxInner::Uninitialized;
    }
}

/// A run hands the instance out and gets it back: the sandbox is as it was.
pub proof fn lemma_run_restores<S, C, Hd>(s: SandboxInner<S, C, Hd>)
    requires
        s matches SandboxInner::Running { sandbox: Some(_), .. },
    ensures
        given_back(acquired(s), s->sandbox.unwrap()) == s,
{
}

/// While the instance is out, a second run is refused and leaves the state alone.
pub proof fn lemma_busy_while_out<S, C, Hd>(s: SandboxInner<S, C, Hd>)
    requires
        s matches SandboxInner::Running { sandbox: Some(_), .. },
    ensures
        acquired(acquired(s)) == acquired(s),
        acquired(s) matches SandboxInner::Running { sandbox: None, .. },
{
}

/// Both the HTTP callback and its event loop, or neither.
pub fn pair_handler<A, B>(callback: Option<A>, event_loop: Option<B>) -> (r: Result<Option<(A, B)>, SdkError>)
    ensures
        match (callback, event_loop) {
            (Some(a), Some(b)) => r == Ok::<Option<(A, B)>, SdkError>(Some((a, b))),
            (None, None) => r == Ok::<Option<(A, B)>, SdkError>(None),
            _ => r matches Err(e) && e@ == ErrorView::InvalidArgument(
                "callback and event_loop must both be set or both be None"@,
            ),
        },
{
    match (callback, event_loop) {
        (Some(a), Some(b)) => Ok(Some((a, b))),
        (None, None) => Ok(None),
        _ => Err(invalid_argument("callback and event_loop must both be set or both be None")),
    }
}

/// What a run reports to the output callback.
#[derive(Clone, Copy, Debug, PartialEq, Eq, Structural)]
pub enum CallbackEvent {
    ResultJson,
    EndJson,
    Stdout,
    Stderr,
    Error,
    Log,
}

/// The name of a callback event.
pub open spec fn event_name(e: CallbackEvent) -> Seq<char> {
    match e {
        CallbackEvent::ResultJson => "result_json"@,
        CallbackEvent::EndJson => "end_json"@,
        CallbackEvent::Stdout => "stdout"@,
        CallbackEvent::Stderr => "stderr"@,
        CallbackEvent::Error => "error"@,
        CallbackEvent::Log => "log"@,
    }
}

impl CallbackEvent {
    /// The event's name.
    pub fn as_str(self) -> (s: &'static str)
        ensures
            s@ == event_name(self),
    {
        match self {
            CallbackEvent::ResultJson => "result_json",
            CallbackEvent::EndJson => "end_json",
            CallbackEvent::Stdout => "stdout",
            CallbackEvent::Stderr => "stderr",
            CallbackEvent::Error => "error",
            CallbackEvent::Log => "log",
        }
    }
}

/// Where a log line was written.
#[derive(Clone, Copy, Debug, PartialEq, Eq, Structural)]
pub enum LogStream {
    Stdout,
    Stderr,
    /// Any log level of the runtime's logger.
    Log,
}

/// Everything a run produced.
pub struct OutputData {
    pub result_json: Vec<String>,
    pub final_json: Option<String>,
    pub stdout: Vec<String>,
    pub stderr: Vec<String>,
    pub logs: Vec<String>,
    pub errors: Vec<String>,
}

/// The view of collected output.
pub struct OutputView {
    pub result_json: Seq<String>,
    pub final_json: Option<String>,
    pub stdout: Seq<String>,
    pub stderr: Seq<String>,
    pub logs: Seq<String>,
    pub errors: Seq<String>,
}

impl View for OutputData {
    type V = OutputView;

    open spec fn view(&self) -> OutputView {
        OutputView {
            result_json: self.result_json@,
            final_json: self.final_json,
            stdout: self.stdout@,
            stderr: self.stderr@,
            logs: self.logs@,
            errors: self.errors@,
        }
    }
}

impl OutputData {
    /// No output yet.
    pub fn new() -> (d: Self)
        ensures
            d@ == (OutputView {
                result_json: Seq::empty(),
                final_json: None,
                stdout: Seq::empty(),
                stderr: Seq::empty(),
                logs: Seq::empty(),
                errors: Seq::empty(),
            }),
    {
        OutputData {
            result_json: Vec::new(),
            final_json: None,
            stdout: Vec::new(),
            stderr: Vec::new(),
            logs: Vec::new(),
            errors: Vec::new(),
        }
    }

    /// Record a partial result; returns what to report to the callback.
    pub fn on_item(&mut self, text: String) -> (e: (CallbackEvent, Option<String>))
        ensures
            final(self)@ == (OutputView { result_json: old(self)@.result_json.push(text), ..old(self)@ }),
            e == (CallbackEvent::ResultJson, Some(text)),
    {
        self.result_json.push(text.clone());
        (CallbackEvent::ResultJson, Some(text))
    }

    /// Record the end of a run, with its final result if any.
    pub fn on_complete(&mut self, item: Option<String>) -> (e: (CallbackEvent, Option<String>))
        ensures
            item is Some ==> final(self)@ == (OutputView { final_json: item, ..old(self)@ }),
            item is None ==> final(self)@ == old(self)@,
            e == (CallbackEvent::EndJson, item),
    {
        match item {
            Some(text) => {
                self.final_json = Some(text.clone());
                (CallbackEvent::EndJson, Some(text))
            },
            None => (CallbackEvent::EndJson, None),
        }
    }

    /// Record a log line by where it was written.
    pub fn on_log(&mut self, stream: LogStream, message: &str) -> (e: (CallbackEvent, Option<String>))
        ensures
            e.1 matches Some(m) && m@ == message@,
            stream == LogStream::Stdout ==> e.0 == CallbackEvent::Stdout && final(self)@ == (OutputView {
                stdout: old(self)@.stdout.push(e.1.unwrap()),
                ..old(self)@
            }),
            stream == LogStream::Stderr ==> e.0 == CallbackEvent::Stderr && final(self)@ == (OutputView {
                stderr: old(self)@.stderr.push(e.1.unwrap()),
                ..old(self)@
            }),
            stream == LogStream::Log ==> e.0 == CallbackEvent::Log && final(self)@ == (OutputView {
                logs: old(self)@.logs.push(e.1.unwrap()),
                ..old(self)@
            }),
    {
        let line = String::from_str(message);
        match stream {
            LogStream::Stdout => {
                self.stdout.push(line.clone());
                (CallbackEvent::Stdout, Some(line))
            },
            LogStream::Stderr => {
                self.stderr.push(line.clone());
                (CallbackEvent::Stderr, Some(line))
            },
            LogStream::Log => {
                self.logs.push(line.clone());
                (CallbackEvent::Log, Some(line))
            },
        }
    }

    /// Record an error message.
    pub fn on_error(&mut self, message: &str) -> (e: (CallbackEvent, Option<String>))
        ensures
            e.0 == CallbackEvent::Error,
            e.1 matches Some(m) && m@ == message@,
            final(self)@ == (OutputView { errors: old(self)@.errors.push(e.1.unwrap()), ..old(self)@ }),
    {
        let line = String::from_str(message);
        self.errors.push(line.clone());
        (CallbackEvent::Error, Some(line))
    }
}

/// What a script was doing when it failed.
#[derive(Clone, Copy, Debug, PartialEq, Eq, Structural)]
pub enum Phase {
    /// Loading the script.
    Loading,
    /// Calling a function of the script.
    Calling,
}

/// The message for a run that exceeded its timeout.
pub open spec fn timeout_text(phase: Phase, timeout_ms: u64) -> Seq<char> {
    let prefix = match phase {
        Phase::Loading => "Script execution timed out after "@,
        Phase::Calling => "Sandbox execution timed out after "@,
    };
    prefix + decimal(timeout_ms as nat) + "ms"@
}

/// The message for a run that failed with `cause`.
pub open spec fn failure_text(phase: Phase, cause: Seq<char>) -> Seq<char> {
    let prefix = match phase {
        Phase::Loading => "Script loading failed: "@,
        Phase::Calling => "Sandbox execution failed: "@,
    };
    prefix + cause
}

/// The internal error for a run that exceeded its timeout.
pub fn timeout_error(phase: Phase, timeout_ms: u64) -> (e: SdkError)
    ensures
        e@ == ErrorView::Internal(timeout_text(phase, timeout_ms)),
{
    let mut out: Vec<char> = Vec::new();
    match phase {
        Phase::Loading => push_str(&mut out, "Script execution timed out after "),
        Phase::Calling => push_str(&mut out, "Sandbox execution timed out after "),
    }
    push_decimal(&mut out, timeout_ms);
    push_str(&mut out, "ms");
    SdkError::Internal(string_of(&out))
}

/// The message for a run that failed with `cause`.
pub fn failure_message(phase: Phase, cause: &str) -> (m: String)
    ensures
        m@ == failure_text(phase, cause@),
{
    let prefix = match phase {
        Phase::Loading => String::from_str("Script loading failed: "),
        Phase::Calling => String::from_str("Sandbox execution failed: "),
    };
    prefix.concat(cause)
}

/// How a run argument is passed.
#[derive(Clone, Copy, Debug, PartialEq, Eq, Structural)]
pub enum ArgKind {
    /// A JSON text.
    Json,
    /// A stream of JSON values.
    Stream,
}

/// The kind of a run argument by its name.
pub fn argument_kind(kind: &str) -> (r: Result<ArgKind, SdkError>)
    ensures
        kind@ == "json"@ ==> r == Ok::<ArgKind, SdkError>(ArgKind::Json),
        kind@ == "stream"@ ==> r == Ok::<ArgKind, SdkError>(ArgKind::Stream),
        kind@ != "json"@ && kind@ != "stream"@ ==> (r matches Err(e) && e@ == ErrorView::InvalidArgument(
            "unsupported argument kind: "@ + kind@,
        )),
{
    proof {
        reveal_strlit("json");
        reveal_strlit("stream");
        assert("json"@.len() != "stream"@.len());
    }
    if str_eq(kind, "json") {
        Ok(ArgKind::Json)
    } else if str_eq(kind, "stream") {
        Ok(ArgKind::Stream)
    } else {
        Err(SdkError::InvalidArgument(String::from_str("unsupported argument kind: ").concat(kind)))
    }
}

/// The sending and receiving ends of an argument stream, each taken at most
/// once.
pub struct StreamSlots<Tx, Rx> {
    pub sender: Option<Tx>,
    pub receiver: Option<Rx>,
}

/// Refuse a stream without room for any value.
pub fn check_stream_capacity(capacity: usize) -> (r: Result<(), SdkError>)
    ensures
        capacity > 0 <==> r is Ok,
        r matches Err(e) ==> e@ == ErrorView::InvalidArgument("stream capacity must be greater than 0"@),
{
    if capacity == 0 {
        return Err(invalid_argument("stream capacity must be greater than 0"));
    }
    Ok(())
}

impl<Tx, Rx> StreamSlots<Tx, Rx> {
    /// The sending end; refused once the stream was ended.
    pub fn sender(&self) -> (r: Result<&Tx, SdkError>)
        ensures
            self.sender matches Some(t) ==> (r matches Ok(u) && *u == t),
            self.sender is None ==> (r matches Err(e) && e@ == ErrorView::StreamClosed),
    {
        match &self.sender {
            Some(t) => Ok(t),
            None => Err(SdkError::StreamClosed),
        }
    }

    /// Take the receiving end, once.
    pub fn take_receiver(&mut self) -> (r: Result<Rx, SdkError>)
        ensures
            final(self).sender == old(self).sender,
            final(self).receiver is None,
            old(self).receiver matches Some(x) ==> r == Ok::<Rx, SdkError>(x),
            old(self).receiver is None ==> (r matches Err(e) && e@ == ErrorView::InvalidArgument(
                "stream receiver already taken"@,
            )),
    {
        match self.receiver.take() {
            Some(x) => Ok(x),
            None => Err(invalid_argument("stream receiver already taken")),
        }
    }

    /// End the stream: drop the sending end.
    pub fn close_sender(&mut self) -> (t: Option<Tx>)
        ensures
            final(self).sender is None,
            final(self).receiver == old(self).receiver,
            t == old(self).sender,
    {
        self.sender.take()
    }
}

/// The error for a value that could not be queued: the stream was full, or
/// its receiver is gone.
pub fn send_error(full: bool) -> (e: SdkError)
    ensures
        e@ == (if full { ErrorView::StreamFull } else { ErrorView::StreamClosed }),
{
    if full {
        SdkError::StreamFull
    } else {
        SdkError::StreamClosed
    }
}

/// Answer a host call from the sandbox: only `echo`, which answers with its payload.
pub fn hostcall<V>(call_type: &str, payload: V) -> (r: Result<V, String>)
    ensures
        call_type@ == "echo"@ ==> r == Ok::<V, String>(payload),
        call_type@ != "echo"@ ==> (r matches Err(m) && m@ == "unknown hostcall type"@),
{
    if str_eq(call_type, "echo") {
        Ok(payload)
    } else {
        Err(String::from_str("unknown hostcall type"))
    }
}

/// How the HTTP handler passes a response body.
#[derive(Clone, Copy, Debug, PartialEq, Eq, Structural)]
pub enum BodyMode {
    Empty,
    Bytes,
    Stream,
}

/// The body mode by its name.
pub fn body_mode(mode: &str) -> (r: Result<BodyMode, String>)
    ensures
        mode@ == "none"@ ==> r == Ok::<BodyMode, String>(BodyMode::Empty),
        mode@ == "bytes"@ ==> r == Ok::<BodyMode, String>(BodyMode::Bytes),
        mode@ == "stream"@ ==> r == Ok::<BodyMode, String>(BodyMode::Stream),
        mode@ != "none"@ && mode@ != "bytes"@ && mode@ != "stream"@ ==> (r matches Err(m) && m@
            == "unknown body mode: "@ + mode@),
{
    proof {
        reveal_strlit("none");
        reveal_strlit("bytes");
        reveal_strlit("stream");
        assert("none"@.len() != "bytes"@.len() && "none"@.len() != "stream"@.len() && "bytes"@.len() != "stream"@.len());
    }
    if str_eq(mode, "none") {
        Ok(BodyMode::Empty)
    } else if str_eq(mode, "bytes") {
        Ok(BodyMode::Bytes)
    } else if str_eq(mode, "stream") {
        Ok(BodyMode::Stream)
    } else {
        Err(String::from_str("unknown body mode: ").concat(mode))
    }
}

/// What pulling the next chunk of a streamed response body gave.
pub enum BodyPull<E> {
    /// A chunk, or the error met turning it into bytes.
    Chunk(Result<Vec<u8>, E>),
    /// The body's iterator is exhausted.
    Exhausted,
    /// The body's iterator failed.
    Failed(E),
}

/// What the body stream does next.
pub enum BodyFeed<E> {
    /// Send the chunk, then pull again unless the receiver is gone.
    Send(Vec<u8>),
    /// Send the error, then stop.
    SendErrorAndStop(E),
    /// End the body.
    Stop,
}

/// Decide what to do with a pulled chunk: a chunk goes on, the end of the
/// iterator ends the body, and any error is passed on and ends it.
pub fn body_feed<E>(pull: BodyPull<E>) -> (f: BodyFeed<E>)
    ensures
        match pull {
            BodyPull::Chunk(Ok(bytes)) => f == BodyFeed::<E>::Send(bytes),
            BodyPull::Chunk(Err(e)) => f == BodyFeed::<E>::SendErrorAndStop(e),
            BodyPull::Exhausted => f == BodyFeed::<E>::Stop,
            BodyPull::Failed(e) => f == BodyFeed::<E>::SendErrorAndStop(e),
        },
{
    match pull {
        BodyPull::Chunk(Ok(bytes)) => BodyFeed::Send(bytes),
        BodyPull::Chunk(Err(e)) => BodyFeed::SendErrorAndStop(e),
        BodyPull::Exhausted => BodyFeed::Stop,
        BodyPull::Failed(e) => BodyFeed::SendErrorAndStop(e),
    }
}

} // verus!
