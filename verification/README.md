# raw_util

Utilities of the RAW audio workstation (complex-exponential reverb synthesis),
with their behaviour stated and proved in Verus.

- `src/` — the verified library: integer vectors (`ivec2`), pixel grids with
  drawing and edge detection (`texture`, `distance_field`), a generational
  arena (`gen_ref`), the voice mixer of the audio thread (`mixer`), the generator's hash step and clock seed (`rng`),
  wave-file loading from bytes (`signal`, header parsed by `riff_wave` behind a trusted wrapper), the text-glyph choice and vertex-index batching of the renderer (`render`), directory entries (`file_utils`) and the
  `Option`/`Result` helpers (`option_utils`). The arena's laws (a stored item
  is read back, freed handles never come back to life, other handles are left
  alone) are proof functions in `gen_ref.rs`.
- `app/` — the experiment runner: floating-point synthesis (reverbs, FM, AM,
  signal chains, waveguides), file reading and PNG writing, the signed
  distance field, directory walking, the OpenGL renderer and the audio
  thread's sample summing.
- `tests/` — tests of the library.
