# kytris

A terminal editor that reads the mouse and the keyboard straight from Linux
input devices and draws with a bitmap font.

- `src/` is the verified library:
  - `event.rs`: decoding the 24-byte records of an input device;
  - `keyboard.rs`: the keyboard's state machine (Ctrl+C quits, a held Enter
    sends the cursor home) and the `EVIOCGRAB` request number;
  - `mouse.rs`: the mouse's state machine, which keeps the cursor on the screen;
  - `screen.rs`: screen positions, what is written to the terminal, and the
    terminal's cursor position report;
  - `terminal.rs`: the line-buffering flags of the terminal;
  - `font.rs`: the BDF font reader and the half-block glyph renderer;
  - `digits.rs`: unsigned numbers as std's `from_str_radix` reads them.
- `app/` is the program: it opens the devices, talks to the terminal and runs
  the listeners' loops.

The program reads its font from `JiZhi-bitmap-8.bdf` in the working directory.
