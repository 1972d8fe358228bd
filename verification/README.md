# chip8

A CHIP-8 emulator core written in Verus.

- `src/chip8/semantics.rs` gives every instruction a meaning as a function
  on the abstract machine (`Machine`), together with the condition under
  which the instruction can run (`executable`).
- `src/chip8/instructions.rs` executes instructions and is proved to match
  that meaning; `src/chip8/mod.rs` holds the machine, whose well-formedness
  is a type invariant, its construction, program loading, timers, keypad,
  display and `to_hex`.
- `src/chip8/laws.rs` proves properties of the instruction set, such as a
  call followed by a return coming back, or drawing twice erasing.
- `src/frontend.rs` holds a frame of the main loop (twelve steps, then a
  timer tick), the keyboard layout, and the game menu's moves, labels
  and selection.
- `app/` is the window, input and file handling around the library
  (raylib), with the game menu and the main loop.
