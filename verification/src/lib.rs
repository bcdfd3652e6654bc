//! Drawing primitives for a boot-time kernel: a linear framebuffer writer
//! that renders a built-in bitmap font, and the cursor logic of a VGA text
//! console.

pub mod framebuffer;

pub mod kernel;
pub mod vga;
