//! The logic of the `rage` command-line tool: the game index and its cache
//! files, name lists, archive load order, resource inspection and the
//! decisions behind each command, with the contract of every function stated,
//! and proved except for the wrappers around calls of outside crates. File
//! access, the network, the command line and what computes with floating
//! point sit around this library.
pub mod bits;
pub mod calendar;
pub mod cells;
pub mod commands;
pub mod file_names;
pub mod formats;
pub mod hash;
pub mod images;
pub mod index;
pub mod json_text;
pub mod laws;
pub mod layout;
pub mod metadata;
pub mod name_table;
pub mod names;
pub mod nesting;
pub mod order;
pub mod plot_files;
pub mod plot_inputs;
pub mod props;
pub mod rpf;
pub mod sections;
pub mod text;
pub mod utils;
pub mod writer;
