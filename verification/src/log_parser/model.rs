//! Parsed log messages.

use vstd::prelude::*;

verus! {

/// Kind of a message.
#[derive(Debug, Clone, Copy, PartialEq, Eq, Structural)]
pub enum MessageKind {
    Error,
    Warning,
}

/// One structured message of a log.
#[derive(Debug, Clone, PartialEq, Eq)]
pub struct LogMessage {
    pub kind: MessageKind,
    /// The message, continuation lines joined with `'\n'`.
    pub message: String,
    /// The file on top of the open-file stack when the message began.
    pub file: Option<String>,
    /// The line of an `l.<n>` marker (errors only).
    pub line: Option<u32>,
    /// The line the message began on, as it stood in the log.
    pub raw: String,
}

/// A message as contracts see it.
pub struct LogMessageView {
    pub kind: MessageKind,
    pub message: Seq<char>,
    pub file: Option<Seq<char>>,
    pub line: Option<u32>,
    pub raw: Seq<char>,
}

impl View for LogMessage {
    type V = LogMessageView;

    open spec fn view(&self) -> LogMessageView {
        LogMessageView {
            kind: self.kind,
            message: self.message@,
            file: match self.file {
                Some(f) => Some(f@),
                None => None,
            },
            line: self.line,
            raw: self.raw@,
        }
    }
}

/// The views of a sequence of messages.
pub open spec fn message_views(v: Seq<LogMessage>) -> Seq<LogMessageView> {
    v.map_values(|m: LogMessage| m@)
}

} // verus!
