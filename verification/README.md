# orpheus_native

The native side of a music player, as a verified library and the bindings around it.

- `src/av3a`: splitting AV3A input into frames, indexing AV3A in MP4, rendering decoded frames to
  16-bit stereo, and the sessions that do it. The decoder is supplied by the caller.
- `src/binary32.rs`: single-precision numbers as bit patterns. Comparison and conversion to
  integers are computed on the patterns; rounding arithmetic is supplied by the caller.
- `src/database`: what a request does on its SQL connection, step by step, and what it replies.
- `src/media`: the media sessions of Windows and macOS.
- `src/x11`, `src/syscalls.rs`: the wire format, sequence numbers and connections of the X11 proxy,
  and the system calls it makes.
- `app`: the bindings to SQLite, the operating systems, the decoder and JavaScript.

Every item under `src` is checked by Verus, and nothing there is taken on trust.
