//! A CHIP-8 virtual machine: decoder, executor and machine state, with the
//! meaning of every instruction stated over a mathematical model.
pub mod cpu;
pub mod display;
pub mod laws;
pub mod machine;
pub mod operand;

pub use cpu::{carries, command_text, realizes, Protocol, CPU};
pub use display::{frame_view, xor_sprite};
pub use machine::{
    Command, Fault, Machine, FONT_GLYPH_BYTES, MEMORY_SIZE, PC_START, SCREEN_HEIGHT, SCREEN_WIDTH,
    STACK_DEPTH,
};
pub use operand::Operand;
