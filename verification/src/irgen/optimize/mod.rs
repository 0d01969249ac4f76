pub mod compact;
pub mod domains;
pub mod jumps;
pub mod laws;
pub mod optimizations;
pub mod pipeline;
pub mod typecorrect;
pub mod registers;

pub use jumps::{optimization_jump_chaining, optimization_redundant_labels, optimization_remove_unused_labels};
pub use optimizations::{optimization_arithmatic_constants, optimization_dead_code, optimization_redundant_moves};
pub use registers::{optimization_clean_branches, optimization_remove_casts, optimization_remove_unused_registers};
pub use compact::optimization_remove_nop;
pub use registers::optimization_clean_registers;
pub use domains::optimization_combine_domains;
pub use pipeline::optimize_function;
pub use typecorrect::correct_types;
