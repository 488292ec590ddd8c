//! File organisation: rule-based classification, collision-safe relocation,
//! an undo journal and content-based duplicate detection, with the
//! decisions stated as contracts over plain values.

pub mod config;
pub mod constants;
pub mod models;
pub mod organizer;
pub mod text;
