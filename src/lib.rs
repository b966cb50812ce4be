//! A two-tier max priority queue: a small bounded double-ended heap keeps the
//! largest values, an unbounded ordered store keeps the rest.

mod cold;
pub mod comb_heap;
mod hot;
pub mod laws;
pub mod model;

pub use comb_heap::CombHeap;
