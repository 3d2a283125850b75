//! Where data is kept: names of files and directories, and the contents of project files.

pub mod merging;
pub mod naming;
pub mod paths;
pub mod project_file;
