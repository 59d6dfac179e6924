//! The pure parts of hana's standard library.

pub mod cmd;
pub mod string;
