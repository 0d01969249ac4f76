pub mod separators;
pub mod stream;
pub mod token;
pub mod tokenize;

pub use stream::{FileLocation, Stream};
pub use token::Token;
pub use tokenize::tokenize;
