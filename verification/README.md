# pico_w_display

The logic of a small firmware that shows the time elapsed since boot as
`mm:ss` on a 17x17 WS2812 LED grid, or whatever a client connected over USB
serial asks for with a line-based text protocol (`TEXT DD:DD`, `CLOCK`,
`COLOR RRGGBB`, `BRIGHTNESS N`).

- `src/` is the library, verified with Verus:
  - `fonts`: the 3x6 digit font and the colon;
  - `grid`: the frame buffer, how coordinates map onto the LED chain in each
    orientation, and drawing glyphs;
  - `protocol`: parsing a command line;
  - `buffers`: the fixed-capacity `heapless` strings the protocol uses;
  - `session`: a client session taken one received byte at a time;
  - `display`: the clock face and the display loop's decisions;
  - `usb`, `wifi`: the USB buffers and what joining Wi-Fi comes to.
- `app/` is the firmware around it: hardware set-up, the async tasks, the
  serial transport and sending frames to the LEDs.
- `tests/` runs the library on concrete inputs.
