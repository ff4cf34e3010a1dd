//! Block-structured bump/hole allocation for an Immix-style heap.
//!
//! A heap is a set of fixed-size blocks, each divided into lines. After a
//! trace, a line that holds live data is marked; a maximal run of unmarked
//! lines is a hole. The allocator bump-allocates inside the hole that its
//! cursor describes and, when the hole is too small, walks the block's line
//! marks for the next hole that fits, falling back on the strategy's hooks
//! when the block has none.
pub mod internal;
pub mod cursor;
pub mod model;
pub mod allocator;
pub mod theorems;
