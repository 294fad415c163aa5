use vstd::prelude::*;

pub mod error;
pub mod text;
pub mod types;
pub mod filter;
pub mod runner;
pub mod diagnose;
pub mod config;
pub mod tui;
pub mod report;
pub mod analysis;
pub mod suite;
pub mod ci;
pub mod storage;
pub mod discovery;
pub mod env;
pub mod export;

verus! {

} // verus!
