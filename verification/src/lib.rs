//! Frontend passes of a redstone circuit compiler, and the rail placement and
//! rail-chain rules they rely on.
use vstd::prelude::*;

pub mod geometry;
pub mod blocks;
pub mod world;
pub mod rail;
pub mod fx;
pub mod compile_graph;
pub mod redstone;
pub mod json;
pub mod identify_nodes;
pub mod input_search;
pub mod tick_queue;

verus! {
} // verus!
