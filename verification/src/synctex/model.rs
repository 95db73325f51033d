//! SyncTeX data.

use vstd::prelude::*;

verus! {

/// A position in a source file (result of an inverse search).
#[derive(Debug, PartialEq, Eq)]
pub struct SourcePosition {
    pub file: String,
    pub line: u32,
    /// Column; -1 means unknown (what synctex 1.21 prints).
    pub column: i32,
}

impl Clone for SourcePosition {
    fn clone(&self) -> (r: Self)
        ensures
            r == *self,
    {
        SourcePosition { file: self.file.clone(), line: self.line, column: self.column }
    }
}

/// A SyncTeX failure.
#[derive(Debug, PartialEq, Eq)]
pub enum SyncTexError {
    /// The tool could not be run or failed.
    Io(String),
    /// Its output lacked a field.
    Parse(String),
}

impl SyncTexError {
    /// The message shown to the user.
    pub fn message(&self) -> (r: String)
        ensures
            r@ == match *self {
                SyncTexError::Io(m) => "同步失败："@ + m@,
                SyncTexError::Parse(m) => "输出解析失败："@ + m@,
            },
    {
        let (head, m) = match self {
            SyncTexError::Io(m) => ("同步失败：", m),
            SyncTexError::Parse(m) => ("输出解析失败：", m),
        };
        let h = crate::text::chars_of(head);
        let mc = crate::text::chars_of(m.as_str());
        let all = crate::text::concat_chars(&h, &mc);
        crate::text::string_of(&all)
    }
}

} // verus!
