pub mod cli;
pub mod codegen;
pub mod compile;
pub mod io;
pub mod irgen;
pub mod llvm;
pub mod parser;
pub mod table;
pub mod text;
pub mod tokenizer;
