# dymo_print

Printing labels on a Dymo label printer, with the library's logic verified by Verus.

- `src/command_accumulator.rs`: the printer's command stream (preamble, line
  width, data lines, whitespace, status request), specified byte for byte.
- `src/color_map.rs`: the threshold that turns grey into black or white.
- `src/picture.rs`: pictures as plain buffers; bringing a picture upright
  (one side must be 64 pixels), grey conversion and thresholding, packing rows
  into eight-byte printer lines, the text preview, PNG encoding and decoding
  (through the `image` and `bitvec` crates).
- `src/fonts.rs`: reading the font names out of ImageMagick's font list.
- `src/imagemagick.rs`: the arguments that make ImageMagick render a text
  label, and the handling of its output.
- `app/`: the command-line program and the web server: files, processes, the
  printer device and HTTP.
