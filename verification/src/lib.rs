//! Verified core logic of a sandboxed script runtime.
use vstd::prelude::*;

pub mod cbor;
pub mod time;
pub mod pending;
pub mod text;
pub mod wasi_http;
pub mod pymeta;
pub mod guest;
pub mod sdk_config;
pub mod sdk_run;
pub mod vm_cache;
pub mod client_pool;
pub mod instrument;
pub mod options;
pub mod server;
pub mod memory_buffer;
pub mod response_reader;
pub mod vm_exec;

verus! {

} // verus!
