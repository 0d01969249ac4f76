pub mod elements;
pub mod error;
pub mod target;
pub mod types;

pub use error::{compiler_error, expected_got_error};
pub use target::{Architecture, OperatingSystem, TargetTriple, Vendor};
pub use types::{DataType, NonPtrType};
pub use elements::{Expression, ExpressionType, Function, Module, Statement, StatementContext, StatementTypes};
