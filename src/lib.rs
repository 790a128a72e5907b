pub mod error;
pub mod lexspec;
pub mod tokenizer;
pub mod nodes;
pub mod parser;
pub mod value;
pub mod ops;
pub mod primitives;
pub mod eval;
pub mod laws;
pub mod print;
