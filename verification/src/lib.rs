//! Incremental validation of a modding project: a store of tracked files, the
//! ship-log cross-reference engine, and the orchestration of validators.

pub mod diagnostics;
pub mod file_paths;
pub mod json;
pub mod main_validator;
pub mod planets;
pub mod project;
pub mod ship_log;
pub mod sorting;
pub mod systems;
pub mod text;
pub mod text_map;
pub mod utils;
pub mod validation;
pub mod xml;
