# atmoq

The atproto firehose over MoQ: a bridge that consumes a WebSocket firehose,
keeps only valid DRISL frames, and republishes them byte for byte on a MoQ
track, with replay from disk.

- `src/` is the library, verified with Verus: which frames are valid, what is
  printed, published, stored, replayed and answered. Contracts stand on the
  functions; what holds of several of them together stands in proof functions
  whose names start with `law_`.
- `app/` is the program around it: the command line, sockets, files, timers and
  the MoQ sessions. `atmoq firehose` prints events, `atmoq relay` publishes
  through a MoQ relay, `atmoq serve` serves subscribers itself; `ws-tail`,
  `moq-tail` and `conformance` are for comparing captures and decoders.
- `tests/` runs the library on concrete values.

The moq-lite legs of the program (`app/lite.rs`, `app/did_tracks.rs`) use
moq-net and moq-native from the workspace; everything else comes from the
registry.

What the proofs rest on, besides Verus itself, are the functions marked
`external_body`: each hands over to another crate or to std, and its doc comment
says what is taken for granted of that.
