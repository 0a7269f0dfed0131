//! Patches as mail.

pub mod format;
