//! Commit-graph layout for a history browser, with the small pieces of
//! repository bookkeeping that sit around it.

pub mod graph;
pub mod laws;
pub mod layout;
pub mod model;
pub mod patch;
pub mod refs;
pub mod status;
pub mod text;
pub mod window;
