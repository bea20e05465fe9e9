//! Interactive explorer for hierarchical attribute trees.
//!
//! The library holds the navigation core: a cursor-bearing list, the
//! dot-delimited path algebra, the classification of evaluator output into
//! child listings or leaves, and the navigator state machine that ties them
//! together. Paths and names are byte strings (`Vec<u8>`). All process
//! spawning and terminal handling lives outside the library; callers feed
//! the evaluator's raw output in and read the updated state back.

pub mod bytes;
pub mod gateway;
pub mod list;
pub mod navigator;
pub mod path;
