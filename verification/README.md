# fluxcut

The verified core of FluxCut, a non-linear video editor, written in Verus.

- `src/` is the library. Every function in it carries a contract that Verus
  proves: exact rational time arithmetic (`time`), the project model and its
  editing operations (`schema`, `operations`), undo/redo history (`history`),
  the timeline editing session (`timeline`), keyboard shortcuts
  (`shortcuts`), media import (`import`, `media`),
  the compilation of a project into an editing graph and its execution plan
  (`graph`, `compiler`), export decisions (`export`), the thumbnail and
  waveform cache layout and its pruning to a byte budget (`cache`), the
  bounded audio preview buffer and seek coalescing (`playback`), hardware and
  environment summaries (`hardware`, `diagnostics`), and settings (`config`).
  Calls into `directories` and `sha2` go through one small trusted wrapper
  each, in `dirs` and `cache`.
- `app/` is the program around it: command line, logging, file and
  environment access, JSON persistence, the GTK interface and audio output.
- `tests/` runs the library on concrete values.
