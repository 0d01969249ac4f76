pub mod display;
pub mod error;
pub mod node;

pub use error::{expected_got_error, parse_error, unexpected_eof_error};
pub use node::{ExpressionType, ParseTreeNode};
