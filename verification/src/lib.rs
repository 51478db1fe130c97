//! Allocation-free search and insertion primitives for sorted,
//! fixed-capacity buffers, driven by a caller-supplied comparison
//! and element-move strategy.

pub mod sort;
