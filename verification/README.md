# orbital

An orbital-mechanics sandbox built on Bevy, split into a verified core and the
application around it.

- `src/` is the library, written in Verus and verified: the time-warp ladder,
  the game-mode state machine, the orbit propagation order, the frame-space
  sibling cache, transfer routing and sphere-of-influence transitions, the
  bounded log buffer, scene-description resolution, and the text and name
  helpers (clock readout, default names, dictionary order, name matching).
- `tests/` exercises the library on concrete values.
- `app/` is the Bevy program: rendering, input, egui windows, file I/O, and
  the orbital mathematics, which is all floating point.
