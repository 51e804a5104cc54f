# ym_core

A verified library for YM-2149 register streams: it compiles sound effects to
fixed 5-byte YFX records and songs to pattern-deduplicated, delta-coded YSG
payloads, decodes both formats back, and reads AYFX effects, AYFX banks and
AYFX CSV text. Every executable function in `src/` carries a contract that
Verus proves, except the two trusted wrappers around `String::from_utf8` and
the replayer crate's decompression, whose contracts Verus takes as given;
`src/roundtrip.rs` and `src/chip.rs` state the laws that tie the encoders to the
decoders and the playback cursor to its sequence.

Layout:

- `src/` — the library (Verus): `delta` (compilers), `ysg`, `yfx`, `ayfx`,
  `csv`, `text` (formats), `chip` (register writes and playback cursor),
  `render` (frame decimation), `ym` (YM file helpers around the replayer crate),
  `roundtrip` (laws).
- `app/` — the command-line tools, audio output, JSON input and the
  floating-point pitch and timing arithmetic.
- `tests/` — tests of the library.
