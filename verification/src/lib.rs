//! A small verified scene manager for a 2D tabletop-card prototype.
//!
//! The crate keeps a tree of scene nodes (a table backdrop plus a hand of
//! cards) in an arena rooted at a single permanent world-root node. A
//! level-triggered rebuild signal tears the whole generation down and
//! repopulates it deterministically, and a pointer picker resolves a
//! world-space click to the first card whose rectangle contains it.
//!
//! Windowing, rendering, input polling and frame scheduling are external
//! collaborators: a driver feeds each update pass a [`world::PassInput`]
//! (already converted to world coordinates) and renders the returned
//! [`world::PassOutput`] as log lines.

pub mod geometry;
pub mod picker;
pub mod scene;
pub mod store;
pub mod world;
