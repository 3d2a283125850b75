//! The data that Acta keeps: daily notes, their entries and tasks, and projects.
//!
//! A note keeps the lines it was read from. What is parsed out of them points back
//! at those lines, and an edit replaces lines and parses again, so text that is not
//! understood stays as it was written.

pub mod block;
pub mod chosen;
pub mod edit;
pub mod entry;
pub mod line;
pub mod mark;
pub mod note;
pub mod outside;
pub mod parsed;
pub mod project;
pub mod status;
pub mod sync;
pub mod todo;
pub mod upkeep;
