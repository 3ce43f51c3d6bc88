# yespanda

A keyboard-driven PDF reader.

- `src/` is the reader's logic, verified with Verus: key bindings and chords,
  the table of contents, the picker, search, rendering order, history, notes,
  settings and the state machine that ties them together. Messages go in,
  effects come out.
- `app/` is the window around it: GTK widgets, poppler, files and threads. It
  performs the effects and reports back.
- `tests/` runs the library on concrete values.

Doubles are held by their bit patterns and compared as IEEE 754 orders them;
arithmetic on them is done in `app/`. Paths are bytes, compared component by
component.
