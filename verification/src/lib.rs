//! A two-pass MIPS assembler: translates assembly source text into
//! instruction-memory and data-memory word images, with every pass verified.
pub mod assemble;
pub mod encode;
pub mod err;
pub mod laws;
pub mod lines;
pub mod pass1;
pub mod pass2;
pub mod pass3;
pub mod table;
pub mod token;
