//! Settings model. The global file holds a full [`Settings`]; a project's
//! `.texpresso/settings.json` holds [`ProjectOverrides`], only the keys it
//! overrides.

use vstd::prelude::*;
use crate::types::{CompileMode, Engine};

verus! {

/// Schema version of the settings files.
pub const SCHEMA_VERSION: u32 = 1;

/// Compilation settings.
#[derive(Debug, Clone, Copy, PartialEq, Eq, Structural)]
pub struct CompileSettings {
    pub mode: CompileMode,
    pub debounce_ms: u64,
    pub timeout_secs: u64,
    pub engine: Engine,
}

/// Effective settings (global merged with the project's overrides).
#[derive(Debug, PartialEq, Eq)]
pub struct Settings {
    pub schema_version: u32,
    pub compile: CompileSettings,
    /// Manual choice of the root file (overrides detection).
    pub root_file: Option<String>,
}

/// The defaults: continuous mode, 500 ms debounce, 120 s timeout, XeLaTeX.
pub open spec fn default_settings_spec() -> Settings {
    Settings {
        schema_version: SCHEMA_VERSION,
        compile: CompileSettings {
            mode: CompileMode::Continuous,
            debounce_ms: 500,
            timeout_secs: 120,
            engine: Engine::XeLaTeX,
        },
        root_file: None,
    }
}

impl Default for Settings {
    fn default() -> (r: Self)
        ensures
            r == default_settings_spec(),
    {
        Settings {
            schema_version: SCHEMA_VERSION,
            compile: CompileSettings {
                mode: CompileMode::Continuous,
                debounce_ms: 500,
                timeout_secs: 120,
                engine: Engine::XeLaTeX,
            },
            root_file: None,
        }
    }
}

impl Clone for Settings {
    fn clone(&self) -> (r: Self)
        ensures
            r == *self,
    {
        Settings {
            schema_version: self.schema_version,
            compile: self.compile,
            root_file: match &self.root_file {
                Some(f) => Some(f.clone()),
                None => None,
            },
        }
    }
}

/// A project's overrides: every key optional, a missing key inherits.
#[derive(Debug, Default, PartialEq, Eq)]
pub struct ProjectOverrides {
    pub schema_version: Option<u32>,
    pub compile: Option<CompileOverrides>,
    pub root_file: Option<String>,
}

impl Clone for ProjectOverrides {
    fn clone(&self) -> (r: Self)
        ensures
            r == *self,
    {
        ProjectOverrides {
            schema_version: self.schema_version,
            compile: self.compile,
            root_file: match &self.root_file {
                Some(f) => Some(f.clone()),
                None => None,
            },
        }
    }
}

/// A project's compilation overrides.
#[derive(Debug, Clone, Copy, Default, PartialEq, Eq, Structural)]
pub struct CompileOverrides {
    pub mode: Option<CompileMode>,
    pub debounce_ms: Option<u64>,
    pub timeout_secs: Option<u64>,
    pub engine: Option<Engine>,
}

/// A partial update. Only the keys that are `Some` change; for `root_file`,
/// `Some(None)` clears the manual choice and `Some(Some(p))` sets it.
#[derive(Debug, Default, PartialEq, Eq)]
pub struct SettingsPatch {
    pub mode: Option<CompileMode>,
    pub debounce_ms: Option<u64>,
    pub timeout_secs: Option<u64>,
    pub engine: Option<Engine>,
    pub root_file: Option<Option<String>>,
}

impl Clone for SettingsPatch {
    fn clone(&self) -> (r: Self)
        ensures
            r == *self,
    {
        SettingsPatch {
            mode: self.mode,
            debounce_ms: self.debounce_ms,
            timeout_secs: self.timeout_secs,
            engine: self.engine,
            root_file: match &self.root_file {
                Some(Some(f)) => Some(Some(f.clone())),
                Some(None) => Some(None),
                None => None,
            },
        }
    }
}

} // verus!
