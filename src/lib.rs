//! Interrupt-driven input/output core of a small x86 kernel: a text-mode
//! display driver, the keyboard echo line buffer, and the vector numbering
//! shared by the interrupt handlers.

pub mod echo;
pub mod interrupts;
pub mod testing;
pub mod vga;
