//! The core of a small x86_64 kernel: a VGA text console that interprets ANSI SGR
//! escape sequences, the layout of the interrupt descriptor table, the keyboard echo
//! path, and a frame allocator over the loader's memory map.

pub mod vga_buffer;
pub mod vga_lemmas;
pub mod memory;
pub mod interrupts;
pub mod keyboard;
