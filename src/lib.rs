//! A CHIP-8 virtual machine: registers, memory, call stack, timers, keypad
//! and framebuffer, with a verified fetch-decode-execute step.
pub mod laws;
pub mod machine;
pub mod model;

pub use machine::Chip8;
pub use model::{
    Chip8Error, Chip8State, DISPLAY_CELLS, DISPLAY_HEIGHT, DISPLAY_WIDTH, FONT_START,
    MAX_PROGRAM_SIZE, MEMORY_SIZE, PROGRAM_START,
};
