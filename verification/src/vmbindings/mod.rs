//! Bindings for the virtual machine.

pub mod vm;
pub mod carray;
pub mod internedstringmap;
pub mod string;
pub mod vmerror;
pub mod cnativeval;
