//! Project state types.

use vstd::prelude::*;

verus! {

/// A directory entry (with its kind, so no second lookup is needed).
#[derive(Debug, PartialEq, Eq)]
pub struct DirEntry {
    pub path: String,
    pub is_dir: bool,
}

impl Clone for DirEntry {
    fn clone(&self) -> (r: Self)
        ensures
            r == *self,
    {
        DirEntry { path: self.path.clone(), is_dir: self.is_dir }
    }
}

/// The open project.
#[derive(Debug, Default, PartialEq, Eq)]
pub struct ProjectState {
    /// The project's root directory (opening a folder opens a project).
    pub root: String,
    /// The root file (detected, or chosen by hand).
    pub root_file: Option<String>,
}

impl Clone for ProjectState {
    fn clone(&self) -> (r: Self)
        ensures
            r == *self,
    {
        ProjectState {
            root: self.root.clone(),
            root_file: match &self.root_file {
                Some(f) => Some(f.clone()),
                None => None,
            },
        }
    }
}

/// A root-file candidate: a `.tex` with `\documentclass` that no file includes.
#[derive(Debug, PartialEq, Eq)]
pub struct RootCandidate {
    pub path: String,
}

/// Result of root detection: one candidate is taken, several are offered to
/// the user, none (`NoneFound`) asks the user to choose by hand.
#[derive(Debug, PartialEq, Eq)]
pub enum RootResolution {
    Unique(String),
    Multiple(Vec<String>),
    NoneFound,
}

} // verus!
