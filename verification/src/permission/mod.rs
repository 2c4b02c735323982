//! Classification of shell commands before they run.
pub mod grammar;
pub mod transparent;
pub mod names;
pub mod entity;
pub mod safety;
pub mod unix;
pub mod windows;
pub mod parser;
