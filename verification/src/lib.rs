//! A streaming order-book aggregation and heatmap-rendering engine.
//!
//! The library absorbs full order-book snapshots from a text-message feed,
//! keeps a sliding time window of those snapshots, and renders the window as
//! a vector-graphics heatmap of price-level liquidity over time.  Prices and
//! sizes are carried as fixed-point integers in millionths, so that the map
//! keys have a total order and every computation here is exact.

use vstd::prelude::*;

pub mod book;
pub mod decode;
pub mod engine;
pub mod feed;
pub mod fixed;
pub mod fmt;
pub mod render;
pub mod state;
pub mod svg_text;

verus! {

/// Length of the retained history window, in milliseconds.
pub const WINDOW_MS: i64 = 300_000;

} // verus!
