# bloocava

A colour configurator for the Cava audio visualizer, as a verified library and
a terminal program around it.

- `src/` (verified with Verus): reading the `[color]` section of a Cava
  configuration (`config`), rewriting it for a solid colour or a gradient
  (`rewrite`), what reading gives back after a rewrite (`roundtrip`), what
  reading ignores (`reading`), what a rewrite keeps (`preserve`), rewriting
  again and over the other mode (`stability`), hex colour
  notation (`color`), the character-level text operations they rest on
  (`text`), and the key handling of the main menu and of the solid and gradient
  editors (`menu`, `solid`, `gradient`, `editor`).
- `app/`: the program: command line, terminal drawing and key reading
  (crossterm), the configuration file's location (dirs), reading and writing
  it, signalling Cava, and the preview's colour blending.
- `tests/`: tests of the library.
