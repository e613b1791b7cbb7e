//! A small language of letters and digits joined by operators, read into a tree
//! and shown three ways: in infix notation, in prefix notation, and as a picture
//! in which every operator combines the images of its operands.
pub mod canvas;
pub mod color;
pub mod parser;
pub mod render;
pub mod tree;

pub use parser::{parse_program, polish, pretty};
