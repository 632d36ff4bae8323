//! A foldable tree of version-control history entries, the flattening of its
//! visible part into a list, navigation over tree addresses, a scrolling
//! viewport over items of varying height, and a key-chord command trie.

pub mod log_tree;
pub mod text;
pub mod loader;
pub mod command_tree;
pub mod help;
pub mod model;
pub mod jj_commands;
pub mod cli;
