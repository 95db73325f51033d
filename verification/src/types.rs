//! Values passed between the scheduler, the runner and the user interface.

use vstd::prelude::*;

verus! {

/// TeX engine driven by latexmk.
#[derive(Debug, Clone, Copy, PartialEq, Eq, Structural)]
pub enum Engine {
    XeLaTeX,
    PdfLaTeX,
    LuaLaTeX,
}

/// The latexmk switch that selects an engine.
pub open spec fn latexmk_flag_spec(e: Engine) -> Seq<char> {
    match e {
        Engine::XeLaTeX => "-xelatex"@,
        Engine::PdfLaTeX => "-pdf"@,
        Engine::LuaLaTeX => "-lualatex"@,
    }
}

impl Engine {
    /// The latexmk switch for this engine.
    pub fn latexmk_flag(&self) -> (r: &'static str)
        ensures
            r@ == latexmk_flag_spec(*self),
    {
        match self {
            Engine::XeLaTeX => "-xelatex",
            Engine::PdfLaTeX => "-pdf",
            Engine::LuaLaTeX => "-lualatex",
        }
    }
}

/// When compilation is triggered.
#[derive(Debug, Clone, Copy, PartialEq, Eq, Structural)]
pub enum CompileMode {
    /// Every change of a `.tex` file on disk (auto-save in the editor).
    Continuous,
    /// Only explicit saves.
    OnSave,
}

/// One compilation job: a snapshot of everything the runner needs.
#[derive(Debug, PartialEq, Eq)]
pub struct CompileRequest {
    /// The root file (absolute path).
    pub root_file: String,
    /// The working directory.
    pub project_root: String,
    pub engine: Engine,
    /// Time limit in seconds.
    pub timeout_secs: u64,
}

impl Clone for CompileRequest {
    fn clone(&self) -> (r: Self)
        ensures
            r == *self,
    {
        CompileRequest {
            root_file: self.root_file.clone(),
            project_root: self.project_root.clone(),
            engine: self.engine,
            timeout_secs: self.timeout_secs,
        }
    }
}

/// Source of an error entry.
#[derive(Debug, Clone, Copy, PartialEq, Eq, Structural)]
pub enum ErrorKind {
    /// A TeX error read from the log.
    ContentError,
    /// The runner could not do its work (start, read the log, copy the PDF).
    Io,
}

/// One entry of the error list shown to the user.
#[derive(Debug, PartialEq, Eq)]
pub struct ErrorEntry {
    pub message: String,
    pub file: Option<String>,
    pub line: Option<u32>,
    pub kind: ErrorKind,
}

impl Clone for ErrorEntry {
    fn clone(&self) -> (r: Self)
        ensures
            r == *self,
    {
        ErrorEntry {
            message: self.message.clone(),
            file: match &self.file {
                Some(f) => Some(f.clone()),
                None => None,
            },
            line: self.line,
            kind: self.kind,
        }
    }
}

/// What a compilation ended with.
#[derive(Debug, PartialEq, Eq)]
pub enum CompileOutcome {
    /// The PDF was produced and copied to `pdf_path`.
    Success { pdf_path: String },
    /// The time limit passed; the process tree was killed.
    Timeout,
    /// latexmk exited with failure; the entries come from the log.
    ContentError { errors: Vec<ErrorEntry> },
    /// Cancelled on request; the process tree was killed.
    Aborted,
    /// The runner itself failed.
    IoError { message: String },
}

/// Why a compilation is shown as failed.
#[derive(Debug, Clone, Copy, PartialEq, Eq, Structural)]
pub enum FailureKind {
    Timeout,
    ContentError,
    Aborted,
}

/// The phase shown in the status bar.
#[derive(Debug, Clone, Copy, PartialEq, Eq, Structural)]
pub enum CompilePhase {
    Queued,
    Running,
    Success,
    Failed,
}

/// Status event: a phase, with the failure kind when failed.
#[derive(Debug, Clone, Copy, PartialEq, Eq, Structural)]
pub struct CompileStatusDto {
    pub phase: CompilePhase,
    pub kind: Option<FailureKind>,
}

/// An entry of the file tree.
#[derive(Debug, Clone, PartialEq, Eq)]
pub struct DirEntryInfo {
    pub name: String,
    pub path: String,
    pub is_dir: bool,
}

/// A file to save.
#[derive(Debug, Clone, PartialEq, Eq)]
pub struct FileContent {
    pub path: String,
    pub content: String,
}

/// What opening a project reports.
#[derive(Debug, Clone, PartialEq, Eq)]
pub struct ProjectInfo {
    pub root: String,
    pub root_file: Option<String>,
}

/// A source position sent to the user interface.
#[derive(Debug, Clone, PartialEq, Eq)]
pub struct SourcePositionDto {
    pub file: String,
    pub line: u32,
    pub column: i32,
}

/// Paths that changed on disk.
#[derive(Debug, Clone, PartialEq, Eq)]
pub struct FilesChanged {
    pub paths: Vec<String>,
}

/// A PDF that is ready to be shown.
#[derive(Debug, Clone, PartialEq, Eq)]
pub struct PdfUpdated {
    pub path: String,
}

/// The requests a runner was called with, in order.
#[derive(Debug, Default)]
pub struct CallRecord {
    pub requests: Vec<CompileRequest>,
}

} // verus!
