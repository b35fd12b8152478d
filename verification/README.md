# writest

The verified core of writeST, a pixel-art editor for the terminal.

- `src/colour.rs`: colours, reading a colour line (`rrrgggbbb` or a one-letter
  shorthand), decimal and hexadecimal output, the inverse cursor colour.
- `src/canvas.rs`: the pixel grid (row-major), reading and painting cells, and
  the terminal bytes that draw it.
- `src/picture.rs`: the picture file format, defined by this library: a line `<width> <height>`, then one line
  per row of nine-digit pixel codes `rrrgggbbb`; writing and strict reading.
- `src/history.rs`: the recent-files history file: reading it, its records,
  and how it changes when a file is opened.
- `src/input.rs`, `src/gallery.rs`, `src/editor.rs`: the key events and the two
  screens (file gallery, drawing editor) as state machines from state and event
  to next state and action.
- `app/main.rs`: the terminal program (crossterm, users, files) around them.
  It reads and writes picture files with `src/picture.rs`.
