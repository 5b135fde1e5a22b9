# pineflip

A companion tool for the Flipper Zero, with its core written in Verus and
verified.

- `src/` is the verified library: the text protocol of the Flipper's serial
  CLI (command lines, when a reply is complete, and how replies are read into
  device facts, directory listings and storage figures), screen frames
  (pixel access, ASCII rendering, grey-scale rasters for PNG encoding, RGBA
  pictures), file entries and human-readable sizes (computed exactly as
  `f64` division and `{:.2}` print them), firmware versions, and the tool's
  settings and their defaults.
- `tests/` runs the library on concrete values.
- `app/` is the program around it: the serial port, the terminal and the
  GTK interface, configuration files, and the few computations in floating
  point.
