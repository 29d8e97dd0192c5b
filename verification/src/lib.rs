pub mod ast;
pub mod token;
pub mod value;
pub mod stack;
pub mod parser;
pub mod interp;
pub mod eval;
pub mod display;
pub mod laws;
