# terminal_cam

Live webcam to ASCII art in the terminal, with its logic verified by Verus.

- `src/` is the verified library: color-depth detection and RGB
  quantization (`color`), styles and render modes with their cycling
  (`style`, `render`), composition of a terminal frame and of a screenshot
  image (`render`), the integer steps of sampling: mirroring, block
  averages, glyph choice (`sample`), the menu state machine and overlay text
  (`menu`), the session that turns key events into commands (`session`),
  config-file and path handling under Unix or Windows rules (`config`) and
  the PNG encoder with its checksums (`screenshot`).
- `app/` is the program around it: camera capture, the terminal loop, file
  I/O, and the floating-point sampling, style transforms and glyph
  rasterization.
- `tests/` runs the library on concrete values.
