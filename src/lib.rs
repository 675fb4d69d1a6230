pub mod chip8;
pub mod display;
pub mod instruction;
