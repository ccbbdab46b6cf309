# mission_core

The decision logic of an orbital data node, verified with Verus, and the supervisor program
around it.

- `src/` is the verified library. Every function states what it computes, and Verus proves it,
  but for the few that call an outside crate or std: they are marked `external_body`, their
  contracts are believed, and each says in its comment what is taken on trust.
  - `vault`, `sealing`, `hexcode`: configuration, sealing of payloads, the vault file format
  - `ingest`, `storage`, `recovery`, `recovery_laws`: the six-step pipeline onto two drives, and
    recovery after a crash, against a model of what the drives hold
  - `priority`, `heap`, `sorting`, `eviction`: the transmission queue and storage eviction
  - `dtn`, `serde_bytes_compat`: chunks, ACKs and the spool
  - `clock`, `timestamp`, `orbit`: the virtual clock, UTC instants and orbital propagation
  - `supervisor`: power states, inference results and the state broadcast
  - `paths`: path operations by the conventions of the machine
  - `double`, `text`: numbers carried by their bits, and text helpers
  - `calls`: calls whose outcome a contract can speak of
- `tests/` runs the library with the real outside crates.
- `app/` is the supervisor program: sockets, files, timers, JSON and floating-point arithmetic.

Functions named `law_...` are proofs of what holds across several functions, such as that a
committed file survives a loss of power, or that eviction never drops data that was not sent.

Where the library needs arithmetic on doubles, it takes the computation as a function argument
and says in its contract how the result is used.
