//! Storage rules for tmux project definition files: validating project
//! names, mapping them to files under a root directory, planning the
//! filesystem work of editing and removing a project, walking the stored
//! projects, and the small shell and tmux text helpers around them.
pub mod error;
pub mod paths;
pub mod store;
pub mod lister;
pub mod utils;
