//! Core logic of a LaTeX editor: compile scheduling, log parsing,
//! root-file detection, settings and SyncTeX output parsing.

pub mod text;
pub mod path;
pub mod types;
pub mod settings;

pub mod scheduler;
pub mod patterns;
pub mod log_parser;
pub mod project;
pub mod compose;
pub mod synctex;
pub mod desktop;
pub mod storage;
pub mod runner;
pub mod commands;
