//! Extraction, merge and ranking pipeline for a game-deal waitlist feed.
//!
//! Feed items carry HTML fragments with a fixed, inline-style-addressed
//! markup shape.  This crate turns such fragments into `GameDeals` records:
//! it matches elements by tag and style-attribute substring, pulls out per
//! store deal rows, merges same-named games across fragments, and orders the
//! result by cheapest parseable price.  Fetching the feed, resolving
//! thumbnail pages and rendering the final HTML are left to the caller.

pub mod text;
pub mod price;
pub mod dom;
pub mod model;
pub mod extract;
pub mod aggregate;
pub mod rank;
pub mod pipeline;
