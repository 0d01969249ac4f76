pub mod errors;
pub mod execute;
pub mod options;
pub mod pages;

pub use errors::{Error, ErrorRecorder, Severity};
pub use execute::{execute, run, Action};
pub use options::Options;
pub use pages::{display_help, display_version};
