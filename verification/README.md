# recorder

A multi-source audio recorder: it captures a microphone and the speaker output, runs both
through strips of effects, mixes them, writes WAV, FLAC or MP3 files, and analyses what it
hears while it records.

- `src/` is the library. Verus proves its functions against their contracts: pipelines and
  queues, the bus mixer, file sinks, channel strips, plugin hosting, capture hosts, sentence
  assembly for transcription, the C interface's rules, and the decisions behind the window.
  Samples are of a generic type; the arithmetic on them is handed in.
- `app/` is the program around it: threads, files, devices, the window, the transcription
  process, and the arithmetic on `f32`.
- `tests/` runs the library on concrete values.

What the proofs rest on is marked in the source: each call into another crate stands in an item
whose doc comment says what is taken for granted of it.
