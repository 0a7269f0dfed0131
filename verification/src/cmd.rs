//! The decisions of the commands that work on a stack.
//!
//! A command reads its arguments and the repository, decides, and writes.
//! Here is what it decides, as functions of plain values.

pub mod diff;
pub mod email;
pub mod files;
pub mod patches;
pub mod pick;
pub mod reset;
