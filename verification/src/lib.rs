//! A CHIP-8 virtual machine: memory, registers, timers, keypad and a
//! monochrome display, with the instruction set given a mathematical
//! meaning and every operation proved against it.

pub mod chip8;
pub mod frontend;

pub use chip8::{to_hex, Chip8, HEIGHT, WIDTH};
