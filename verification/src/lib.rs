//! A declarative matcher for command-line arguments.
//!
//! A schema of commands and argument definitions is declared with the
//! builders in [`app`], [`command`] and [`arg`]; [`parser`] scans a token
//! sequence against it and yields a table of resolved values or a precise
//! error.

pub mod app;
pub mod arg;
pub mod command;
pub mod help;
pub mod parser;
pub mod text;
pub mod theorems;
