# libzmq (verified core)

A Verus crate holding the logic of ZeroMQ's Rust library:

- `src/z85.rs`, `src/z85_spec.rs`: the Z85 codec (RFC 32). `z85_spec` defines
  the alphabet, group values and the encoding/decoding of whole buffers, and
  proves that decoding undoes encoding and encoding undoes decoding.
  `encode`/`decode` are proved to write exactly those texts and bytes.
- `src/atomic_counter.rs`: the utility counter (wrapping increment that
  reports the previous value, decrement that reports liveness).
- `src/context.rs`: context lifecycle transitions and their laws.
- `src/message.rs`, `src/poller.rs`, `src/socket.rs`, `src/version.rs`,
  `src/zmtp.rs`, `src/inproc.rs`: small descriptors and constants.

`app/lib.rs` holds the `zmq_rs_*` C ABI functions: raw-pointer handling that
calls into the verified crate. The counter is shared with C behind a mutex.
