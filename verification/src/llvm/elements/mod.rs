pub mod expression;
pub mod function;
pub mod module;
pub mod statements;

pub use expression::{Expression, ExpressionType};
pub use function::Function;
pub use module::Module;
pub use statements::{Statement, StatementContext, StatementTypes};
