//! A bounding volume hierarchy (BVH) for nearest-hit ray queries over a
//! static collection of bounded objects.
//!
//! All geometry lives on an integer grid: points and directions have `i64`
//! coordinates bounded by [`geometry::COORD_LIMIT`], and every distance in
//! the crate is a *squared* Euclidean distance, so that box arithmetic and
//! pruning bounds are exact. The value `u64::MAX` plays the role of an
//! infinite distance: a hit reported at `u64::MAX` is never closer than
//! anything and is ignored by every query.
//!
//! The crate builds a binary tree over a caller-provided object collection
//! (reordering it in place), answers nearest-hit queries by a pruning
//! traversal that is proved to agree with an exhaustive linear scan, and
//! offers a diagnostic soundness check over a built tree.

pub mod aabb;
pub mod builder;
pub mod geometry;
pub mod light;
pub mod shape;
pub mod tree;
pub mod triangle;
pub mod walk;
