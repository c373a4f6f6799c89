# skymp_wire

The network edge of a multiplayer game, verified with Verus: the wire schema,
its canonical codec, the structural validator, and the bookkeeping of the
transport, of the two C++ embeddings and of the replay comparison around them.

- `src/` is the library. Every function states what it returns or changes, and
  the public proof functions whose names begin with `law_` state what holds of
  the whole: that decoding undoes encoding and accepts nothing else, that no
  sequence number counts twice, that rates stay bounded, that every message
  handed on has passed all checks.
- `tests/` runs the library, with the outside crates linked.
- `app/` is the program around it: sockets (renet over netcode), the cxx bridge,
  the C ABI, fuzz entry points, and the `difftest` command.

The library rests on postcard for the primitive encodings, on heapless for the
fixed-capacity collections, on renet for the channel configuration, on
renet_netcode for connect tokens and on serde_json for the reports of the
comparison. What is taken for granted of each call stands
in the contract and the doc comment of the wrapper that makes it.
