//! Reading and editing the Markdown and JSON files of an Acta data directory, and
//! the state behind a keyboard-driven terminal screen that shows them.

pub mod app;
pub mod calendar;
pub mod clipboard;
pub mod config;
pub mod editor;
pub mod json;
pub mod keys;
pub mod letters;
pub mod model;
pub mod number;
pub mod pick;
pub mod screen;
pub mod shown;
pub mod sort;
pub mod store;
pub mod text;
