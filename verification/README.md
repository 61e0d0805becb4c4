# vox

The logic of a streaming text-to-speech reader, verified with Verus: voice
references (`provider/[model/]voice`), sentence chunking, pronunciation
fixes, provider descriptions and error reasons, karaoke word timing, the
seekable playback cursor, the reader UI's state machine and texts, the
command-line decisions, and the menu-bar companion's settings model.

- `src/` — the library. Every function carries a contract that Verus
  proves; the few calls into std and outside crates that Verus cannot read
  (Unicode case mapping, base64 and JSON string decoding) are wrapped and
  their contracts documented where they stand.
- `tests/` — tests of the library on concrete values.
- `app/` — the `vox` program around the library: flags, files, HTTP, the
  audio device (rodio, a time stretcher), the local engine and the
  terminal UI. It decides nothing the library can decide.

The menu-bar companion exists here only as its logic (`src/tray.rs`: the
settings model and its defaults, patches, the history kept and shown, which
saved readouts to prune, the launch command). Its program shell is not written: the socket loop,
spawning and queueing readouts, the pruning timer, reading and writing
`state.json` and the history file, and the window UI.

Positions are sample indices at 24 kHz; playback rates are held in quarter
steps and synthesis speeds in thousandths, so the library needs no floating
point.
