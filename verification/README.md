# ethersync_protocol

Timecode synchronization over a local network: a leader publishes a timeline (a
timestamped trajectory of frame positions, with scheduled changes) and followers estimate
the leader's clock from four-timestamp probe exchanges to show the same timecode at the
same instant.

`src/` is the library, verified with Verus:

- `timecode` — frame formats (including drop-frame), labels, Q32 fixed-point positions and
  exact rational playback rates.
- `codec`, `wire` — the Protocol Buffers framing and the v1 messages, with encoders and
  decoders proved inverse to each other; `lib.rs` validates decoded messages.
- `timeline` — trajectories, scheduled changes, transport controls and their conversion
  to and from snapshots.
- `probes`, `clock` — matching probe replies to requests; screening exchanges.
- `engine`, `leader`, `link`, `follower`, `tracking`, `timers`, `runtime`, `boundary` —
  the decisions of leaders and followers: what to publish and when, which snapshots to
  admit, when a discontinuity or a large error is confirmed, probe timing, reconnection
  pacing, the timer registry and task list of the transport runtime, deadlines.
- `options`, `config`, `discovery`, `tls`, `ids` — engine configuration, endpoints, mDNS
  naming, certificate pins and fingerprints, random identifiers.
- `facade`, `output`, `text` — the runtime-free client surface, output-time conversion and
  number formatting.
- `bindings` — the foreign-language bindings: reading the API source (parsed by `syn`)
  into records, handles and functions checked against the schema; the API manifest, the
  Swift bridge module and the C ABI shims; the C, C++, C# and Swift sources generated
  from the API's signatures; how names and types are written in each language; and the
  ABI's buffers and status codes.

`tests/` exercises the library on concrete values. `app/` holds what the library leaves to
its caller: the floating-point clock estimator and output evaluation, the jobs' state
between transport passes, the text forms of socket addresses, and the writing of the
API source, manifest, glue and generated binding sources, with their hand-written
templates, and the copying and merging of the Apple libraries.
