//! SyncTeX: positions and parsing of the `synctex` command-line tool's output.

pub mod model;
pub mod provider;

pub use model::{SourcePosition, SyncTexError};
pub use provider::{forward_error_message, parse_inverse_output, scan_forward_output, ForwardFields};
