use vstd::prelude::*;

pub mod text;
pub mod layers;
pub mod generator;
pub mod data;
pub mod loss;
pub mod scheduler;
pub mod pruning;
pub mod quantize;
pub mod config;
pub mod schedule;

verus! {

} // verus!
