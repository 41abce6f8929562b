//! Interactive, hunk-by-hunk selection of the changes between two directory
//! trees: the decisions, the bookkeeping and the text handling, with the
//! terminal and the file system left to the caller.

pub mod apply;
pub mod changes;
pub mod config;
pub mod count_lines;
pub mod diff_patch;
pub mod editor;
pub mod hunk;
pub mod patch;
pub mod paths;
pub mod render;
pub mod session;
pub mod split;
pub mod terminal;
pub mod text;
pub mod vec_map;
