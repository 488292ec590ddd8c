//! The shared data model.

pub mod file_info;
