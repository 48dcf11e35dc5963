//! Running a function of a script on a VM: finding a cached VM for the
//! script, and answering from the messages the VM sends.
use vstd::prelude::*;
use sha2::{Digest, Sha256};
use crate::server::{raw_json, raw_json_text};
use crate::vm_cache::{ScriptHash, VmCache};

verus! {

/// The SHA-256 digest of `data`.
pub uninterp spec fn sha256(data: Seq<u8>) -> Seq<u8>;

/// The SHA-256 digest of `data`, by `sha2::Digest::digest` on `sha2::Sha256`;
/// the digest depends on the bytes alone.
#[verifier::external_body]
fn sha256_of(data: &[u8]) -> (h: ScriptHash)
    ensures
        h@ == sha256(data@),
{
    Sha256::digest(data).into()
}

/// The hash that identifies a script: the SHA-256 digest of its UTF-8 text.
pub fn script_hash(script: &str) -> (h: ScriptHash)
    ensures
        h@ == sha256(vstd::string::StringSliceAdditionalSpecFns::spec_bytes(script)),
{
    sha256_of(script.as_bytes())
}

/// The hash of `script` and an idle VM already prepared for it, if the cache
/// holds one (it is taken out of the cache).
pub fn cached_vm<V>(cache: &mut VmCache<V>, script: &str) -> (r: (ScriptHash, Option<V>))
    requires
        old(cache).wf(),
    ensures
        final(cache).wf(),
        r.0@ == sha256(vstd::string::StringSliceAdditionalSpecFns::spec_bytes(script)),
        !old(cache).cached().contains_key(r.0@) || old(cache).cached()[r.0@].len() == 0 ==> r.1 is None
            && final(cache).cached() == old(cache).cached(),
        old(cache).cached().contains_key(r.0@) && old(cache).cached()[r.0@].len() > 0 ==> r.1 == Some(
            old(cache).cached()[r.0@].last(),
        ) && final(cache).cached() == old(cache).cached().insert(r.0@, old(cache).cached()[r.0@].drop_last()),
{
    let hash = script_hash(script);
    let vm = cache.get(hash);
    (hash, vm)
}

/// A message from a running VM: a result and whether it is the last, or an error.
pub type VmMessage = Result<(String, bool), String>;

/// How a run is answered, by the VM's first message.
pub enum VmFirst {
    /// The run ended with this result: wait for the VM, then check that
    /// nothing else was sent.
    AwaitEnd(String),
    /// Stream the results as server-sent events, starting with this one.
    Stream(String),
    /// 500 with this error.
    Failed(String),
    /// The VM sent nothing.
    Missing,
}

/// Decide by the VM's first message (`None` if the channel closed).
pub fn first_vm_message(first: Option<VmMessage>) -> (r: VmFirst)
    ensures
        match first {
            Some(Ok((d, true))) => r == VmFirst::AwaitEnd(d),
            Some(Ok((d, false))) => r == VmFirst::Stream(d),
            Some(Err(e)) => r == VmFirst::Failed(e),
            None => r is Missing,
        },
{
    match first {
        Some(Ok((d, true))) => VmFirst::AwaitEnd(d),
        Some(Ok((d, false))) => VmFirst::Stream(d),
        Some(Err(e)) => VmFirst::Failed(e),
        None => VmFirst::Missing,
    }
}

/// How a run that ended at once is answered.
pub enum VmEnd {
    /// 200 with this JSON value, without the whitespace around it.
    Json(String),
    /// 500 with this error.
    Failed(String),
    /// The VM sent a result after the last one.
    Unexpected,
    /// The result is not JSON.
    InvalidJson,
}

/// Decide, once the VM finished, by what followed its last result `data`.
pub fn vm_end(data: String, next: Option<VmMessage>) -> (r: VmEnd)
    ensures
        match next {
            Some(Ok(_)) => r is Unexpected,
            Some(Err(e)) => r == VmEnd::Failed(e),
            None => match raw_json(data@) {
                Some(v) => r matches VmEnd::Json(j) && j@ == v,
                None => r is InvalidJson,
            },
        },
{
    match next {
        Some(Ok(_)) => VmEnd::Unexpected,
        Some(Err(e)) => VmEnd::Failed(e),
        None => match raw_json_text(data.as_str()) {
            Some(v) => VmEnd::Json(v),
            None => VmEnd::InvalidJson,
        },
    }
}

/// A server-sent event of a streamed run.
pub enum VmEvent {
    /// A data event.
    Data(String),
    /// An `error` event with this message.
    Error(String),
}

/// The event for a VM message: the last result, if empty, reads `[DONE]`.
pub fn vm_event(message: VmMessage) -> (r: VmEvent)
    ensures
        match message {
            Ok((d, true)) => if d@.len() == 0 {
                r matches VmEvent::Data(t) && t@ == "[DONE]"@
            } else {
                r == VmEvent::Data(d)
            },
            Ok((d, false)) => r == VmEvent::Data(d),
            Err(e) => r == VmEvent::Error(e),
        },
{
    match message {
        Ok((d, true)) => if d.as_str().is_empty() {
            VmEvent::Data(String::from_str("[DONE]"))
        } else {
            VmEvent::Data(d)
        },
        Ok((d, false)) => VmEvent::Data(d),
        Err(e) => VmEvent::Error(e),
    }
}

} // verus!
