# quest_app

The decision-making core of a headset client for a multiplayer game, verified
with Verus.

- `src/` is the library. It decides what a hand grabs, pulls and lets go, what
  the server is told, which bodies, meshes, walls and particles a frame draws,
  which sounds play, what a change of scene replaces, and how the frame loop, the
  session and the map streams go on. Every function states in its contract what
  it returns and changes; laws that span functions are public proof functions
  beside them.
- `tests/` runs the library on concrete values.
- `app/` is ordinary Rust around the library: devices, files, sockets, and all
  floating-point arithmetic. What needs the headset is compiled on Android only.

Numbers from tracked devices are carried through the library as IEEE 754 bit
patterns (`src/scalar.rs`). The library compares them and hands them on; it never
computes with them. Where a decision needs a distance or a transformed point, the
caller passes the measured value or a closure that measures it, and the contract
speaks of what that closure returned.

Two functions are trusted: the wrappers of the Base64 decoder and of the image
decoder in `src/picture.rs`.
