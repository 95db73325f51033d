//! Settings: the model, merging project overrides into global settings,
//! partial updates, and range checks.

pub mod merge;
pub mod model;
pub mod validate;

pub use merge::{apply_patch, merge};
pub use model::{
    CompileOverrides, CompileSettings, ProjectOverrides, Settings, SettingsPatch, SCHEMA_VERSION,
};
pub use validate::{sanitize_overrides, validate, validate_overrides};
