//! The state of the screen and how it changes.

pub mod choices;
pub mod effects;
pub mod following;
pub mod found;
pub mod gathered;
pub mod jobs;
pub mod laws;
pub mod listing;
pub mod moving;
pub mod outcomes;
pub mod plan;
pub mod reading;
pub mod resume;
pub mod state;
pub mod steps;
pub mod todos;
pub mod types;
pub mod update;
pub mod work;
