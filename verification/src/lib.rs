//! Daily backup and maintenance: which repositories, caches and leftovers are
//! to be cleaned, by which command, and what is reported of it.
//!
//! The library decides and computes. It asks for programs to be run
//! ([`process::Invocation`]) and takes in what came of them
//! ([`process::Reply`]), it picks what is to be deleted from listings that its
//! caller made, and it lays out the lines that are shown. Running programs,
//! walking directories and deleting files are left to the caller.
pub mod ansi;
pub mod binary64;
pub mod bytes;
pub mod commands;
pub mod config;
pub mod counting;
pub mod document;
pub mod natural;
pub mod number;
pub mod order;
pub mod path;
pub mod process;
pub mod search;
pub mod sizes;
pub mod sorting;
pub mod split;
pub mod terminated;
pub mod text;
pub mod ui;
pub mod walk;
