# hello_kernel

The drawing logic of a small boot-time kernel, verified with Verus.

- `src/framebuffer.rs` — pixel formats (`PixelFormat`), pixel encoding, and
  `FramebufferWriter`, which draws pixels, clears the screen and renders text
  with the bitmap font into a linear framebuffer held as bytes. Contracts are
  stated over `paint`: the bytes after a set of visible pixels has been set to
  one value.
- `src/framebuffer/font.rs` — the 16×16 glyphs of the greeting.
- `src/framebuffer/laws.rs` — properties of encoding and painting.
- `src/vga.rs`, `src/vga/writer.rs` — the VGA text console: cell layout and a
  cursor that turns text into a plan of cell writes (`text_effect`).
- `src/vga/laws.rs` — properties of the console writer.
- `src/kernel.rs` — the kernel's main-loop state.
- `app/` — the unverified edge: bootloader requests, the framebuffer memory and
  the memory-mapped VGA buffer.
