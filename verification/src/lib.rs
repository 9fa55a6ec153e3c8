//! Ranked hierarchical pagination over a flat table of key/value records
//! that form trees through self-referencing parent pointers.
//!
//! A search is answered page by page. The store ranks the matches and hands
//! back, for one window of ranks, each match with its ascent to a root as
//! flat rows. [`tree`] decides what the store is asked and rebuilds the
//! chains of the page from its answer; [`children`] does the same for the
//! direct children of one node.

pub mod chain;
pub mod children;
pub mod error;
pub mod form;
pub mod node;
pub mod tree;
pub mod window;
