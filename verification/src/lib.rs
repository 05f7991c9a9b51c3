pub mod context;
pub mod error;
pub mod interpreter;
pub mod laws;
pub mod number;
pub mod replay;
pub mod tokenizer;
pub mod value;
