pub mod utils;

pub use utils::{generate_command, generate_comment, generate_label, get_label, get_size_datatype};
pub mod functions;
pub mod branches;
pub mod generation;
pub mod registers;

pub use functions::FunctionGenerationContext;
pub use generation::AvrAsmGenerator;
