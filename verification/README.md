# UNRUN

A 2D rewind platformer. Time runs backwards from a bounded history of frame
deltas kept in a BLAKE3 content-addressed store; a crystal called the fixed
point opens a gate that only moves while time runs backwards.

## Layout

- `src/` is the verified library (Verus): the rewind history and its delta
  format, the content store, the snapshot byte layout, the bonus-terminal code
  editor, the per-frame decisions of the game loop and the audio layer, WAVE
  framing and the noise hash, and the framebuffer orientation check.
- `app/` is the program around it: the macroquad window and input loop,
  floating-point physics and sound synthesis, drawing, and audio playback.
- `tests/` runs the library on concrete inputs.
