# pyusp

A Uniscribe (usp10) OpenType shaping tracer: it drives
`ScriptItemizeOpenType` / `ScriptShapeOpenType` / `ScriptPlaceOpenType` on a
font and a text and reports the final glyph run, and, where the loaded engine
can give one (wineusp's per-lookup trace, or the TextShaping engine's
per-application runs captured by an inline hook), the run after each step.

The logic is a Verus-verified library (`src/`):

- `features` — the HarfBuzz-style feature list (`+kern,-liga,aalt=2`) to
  `OPENTYPE_FEATURE_RECORD` pairs, with its laws (duplicates keep the first
  position and the last value, an explicit value overrides the sign, blank
  items are skipped, every malformed item is refused).
- `sfnt` — units per em, glyph count and Windows family name from a font blob.
- `uniscribe` — the usp10 records as plain values, their bit fields, HRESULT texts.
- `shape` — the decisions of a shape: paragraph level, buffer sizes and their
  growth, item spans, script tags, clusters, placement, the RTL final run,
  trace stages, messages and refusals.
- `hookcode` — the x86-64 bytes of the inline hooks (jumps, stubs,
  trampolines, the patch and the bytes that undo it).
- `probe`, `probeplan` — what the probes record and report, and which probes
  a set of switches arms.
- `pe`, `sigscan` — signature search in a module image and hex signatures.
- `text`, `cli` — character helpers and the command line.

`app/` is the program around it: module loading, the calls into the engine,
GDI, the hooks' memory writes, the sampler thread, JSON output.
