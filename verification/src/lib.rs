use vstd::prelude::*;

pub mod text;
pub mod num;
pub mod duration;
pub mod adapters;
pub mod filter;
pub mod hash;
pub mod cache;
pub mod events;
pub mod error;
pub mod config;
pub mod coverage;
pub mod history;

verus! {
} // verus!
