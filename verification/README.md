# lv2render

An offline host for LV2 plugins: it reads an audio file, sends it through a chain of plugins,
and writes a WAV file of 32 bit floats. What it decides and computes is a library whose
contracts Verus proves.

- `src/` is the library.
  - `text`: splitting, trimming, searching and printing.
  - `config`: plugin texts such as `"Calf Reverb:Decay time=0.5"`.
  - `yaml`, `document`: the chain file.
  - `plugin`: which installed plugin is meant, and the values of its control ports.
  - `chain`: which plugins there are, and whether their channels fit.
  - `audio`: which track is rendered, and how its samples get into the buffers.
  - `processing`: in which blocks the input and the tail go through the chain.
  - `laws`: what holds of several of these together.
- `app/` is the program: the command line, files, decoding, running the plugins. Samples and
  parameter values are bit patterns of IEEE 754 singles in the library; the program turns them
  into numbers and back.
- `tests/` runs the library on concrete values.
