//! Discovery of the single unambiguous project-descriptor file under a
//! directory: the file-name filter, the walker's per-entry decisions, a
//! traversal model over directory trees that never follows symbolic links,
//! and the zero/one/many selection policy with its error taxonomy.

pub mod fs_model;
pub mod matcher;
pub mod search;
