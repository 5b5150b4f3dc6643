# playground_ui

The UI system of the playground engine: terminal emulation and the terminal
wire protocol, the element hierarchy and its storage, the code editor, the
chat interface with its conversation handler, input focus and hover
tracking, render batching and glyph-atlas packing.

Layout:

- `src/` is the library, written in Verus. Its functions carry
  `requires`/`ensures` contracts that Verus proves; the laws that relate
  several operations (an encoding decodes back, a save is shown again, a
  removed child is unlinked, ...) are public proof functions beside them.
  The few small wrappers around outside calls (the clock, random UUIDs,
  character classes, byte buffers) are marked `external_body`: their
  contracts are believed, not proved.
- `tests/` runs the library on concrete values.
- `app/` is ordinary Rust around the library: serde copies of the message
  types, the WebSocket client, floating-point geometry (text layout, render
  quads, gestures, scrolling) and event routing.
