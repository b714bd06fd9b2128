//! A layout tree for flexbox-style boxes.
//!
//! The crate owns everything about a layout that is not arithmetic on
//! fractional lengths: the style vocabulary and its textual forms, the arena
//! of nodes with their parent/child relation, the rule that says which nodes
//! a layout pass visits, and the cache of results that a pass leaves behind.
//! The arithmetic is left to a solver outside: it measures the boxes, and
//! `tree::LayoutTree::compute_layout` runs the pass over what it measured.
//!
//! Lengths are carried as IEEE-754 single-precision bit patterns
//! (`scalar::Scalar`), so every value here is an integer, an enum or a
//! sequence of those.
//!
//! - `scalar`, `geometry`: numbers, sizes, points, layouts.
//! - `style`: display modes, directions, justifications, dimensions, and the
//!   style record.
//! - `args`: styles and sizes from lists of named, loosely typed arguments.
//! - `forest`, `model`: the mathematical model of a tree and of each
//!   operation on it.
//! - `tree`: the arena itself.
//! - `source`: where trees come from, each with a tag of its own.
//! - `laws`: what holds of every tree.
pub mod args;
pub mod error;
pub mod forest;
pub mod geometry;
pub mod laws;
pub mod model;
pub mod scalar;
pub mod source;
pub mod style;
pub mod tree;
