//! Projects: state, `.tex` file collection and ignore rules, root-file
//! detection, and an in-memory file system.

pub mod collect;
pub mod fake_fs;
pub mod model;
pub mod root_detect;
pub mod scan;

pub use collect::{TexCollector, TreeCollector};
pub use fake_fs::{FakeFS, FsError};
pub use model::{DirEntry, ProjectState, RootCandidate, RootResolution};
pub use root_detect::{extract_documentclass, extract_includes, find_candidates, resolve};
pub use scan::{is_hidden_or_tmp, is_ignored, is_tree_excluded};
