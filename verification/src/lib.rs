//! Cover-art acquisition and embedding pipeline.
//!
//! The crate discovers media files by extension, groups them by parent
//! directory with a numeric-aware ordering, drives an external resolver
//! process through a small state machine, normalizes the cover image it
//! yields, and updates an in-memory model of a file's tag container.

pub mod deps;
pub mod helpers;
pub mod image;
pub mod orchestrate;
pub mod resolver;
pub mod structs;
pub mod strutil;
pub mod tags;
