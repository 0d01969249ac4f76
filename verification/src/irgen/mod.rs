pub mod errors;
pub mod expression;
pub mod flow;
pub mod function;
pub mod instruction;
pub mod meaning;
pub mod optimize;
pub mod statement;
pub mod types;
pub mod utils;

pub use errors::{compiler_error, compiler_error_loc, expected_got_error};
pub use function::Function;
pub use instruction::{Instruction, Literal, OpCode, Symbol, Value};
pub use types::{DataType, NonPtrType};
pub use utils::{
    arguments_from_parse_tree, attempt_mutate_type, correct_type_references, get_value_type,
    has_unknown_type, identifier_from_parse_tree, type_from_parse_tree,
};
