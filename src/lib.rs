//! A small bytecode machine over a flat memory of signed cells, where a call
//! advances the called routine instance by exactly one instruction.

pub mod inst;
pub mod machine;
pub mod laws;
pub mod loader;
pub mod payload;
