//! A binary heap: a priority queue kept in one flat sequence.
//!
//! `BinHeap::new()` serves the smallest element first; `BinHeap::with_strategy`
//! takes the order from a `Strategy`, of which `Asc` and `Desc` are given.
//! `push` and `pop` take a number of steps that grows with the logarithm of
//! the size, `min` takes one.
//!
//! The modules: `binheap` holds the heap, `strategy` the orders, `model` what
//! the calls mean on plain sequences, `sifting` the reasons why sifting keeps
//! the heap property, `cost` how many exchanges it takes, and `laws` what
//! follows for whole runs of calls.

pub mod binheap;
pub mod cost;
pub mod laws;
pub mod model;
pub mod sifting;
pub mod strategy;

pub use crate::binheap::BinHeap;
pub use crate::strategy::{Asc, Desc, Strategy};
