//! A stack of dependent branches: lineage, synchronisation, display and splitting.

pub mod ansi;
pub mod branches;
pub mod candy;
pub mod color_cycle;
pub mod commands;
pub mod config;
pub mod errors;
pub mod events;
pub mod git;
pub mod help;
pub mod indent;
pub mod line_editor;
pub mod log_picture;
pub mod log_tree;
pub mod moves;
pub mod outline;
pub mod picture;
pub mod prompt;
pub mod restack;
pub mod reviews;
pub mod select;
pub mod selector;
pub mod side_stacks;
pub mod split;
pub mod stack;
pub mod str_tools;
pub mod submit;
pub mod symbols;
pub mod text;
pub mod tree;
pub mod tui;
