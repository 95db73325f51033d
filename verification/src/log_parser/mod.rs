//! Parsing a TeX `.log` into structured messages.

pub mod model;
pub mod scan;

pub use model::{LogMessage, MessageKind};
pub use scan::{parse_log, LogScan};
