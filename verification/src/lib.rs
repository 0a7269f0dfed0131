//! Patch-stack management on top of a content-addressed commit graph.
//!
//! A stack is an ordered queue of named patches kept on top of a branch. This
//! crate holds the data model of a stack, the rules that keep it consistent,
//! and the decisions of the engine that changes it. Every effect on a
//! repository is described as a plain value for the caller to carry out.

pub mod cmd;
pub mod error;
pub mod hook;
pub mod oid;
pub mod patchname;
pub mod reconcile;
pub mod refname;
pub mod refs;
pub mod revspec;
pub mod stack;
pub mod state;
pub mod text;
pub mod trailers;
pub mod transaction;
