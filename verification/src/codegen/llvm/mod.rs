pub mod utils;

pub use utils::{bytes_size_of, convert_to_llvm};
pub mod functions;
pub mod generation;
pub mod laws;

pub use functions::{FunctionGenerationContext, LLVMValue};
pub use generation::LLVMGenerator;
