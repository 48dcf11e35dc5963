# isola

The verified core of a runtime that runs untrusted Python inside reusable
WebAssembly sandboxes, with a host SDK and an execution server around it.

`src/` holds the logic, each function with its contract, proved with Verus:

- `pending`: the registry of deferred host calls, HTTP requests and sleeps
  behind the guest's handles, and the driver's decisions between waits
- `time`, `cbor`: monotonic deadlines and chunked streaming of output
- `guest`, `pymeta`, `response_reader`, `wasi_http`: the guest's pollables
  and call results, inline script metadata, reading response bodies, and the
  request and response rules of the HTTP client
- `sdk_config`, `sdk_run`: sandbox configuration patches, mounts, the sandbox
  life cycle and the output collected from a run
- `server`, `vm_exec`, `vm_cache`, `memory_buffer`: the execution server's
  access rules, tokens, answers over HTTP, SSE, websockets and gRPC, and its
  cache of idle VMs
- `client_pool`, `instrument`, `options`: the outgoing HTTP client's pool and
  the tracing of its response streams

`app/` is the glue that stays outside verification: the thread-local registry
and the clock, `minicbor` output, and JSON configuration through `serde`.
`tests/` exercises the library.
