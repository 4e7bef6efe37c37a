//! The arcade's verified core: a binary-outcome prediction market priced by
//! a constant-product market maker and, beside it, the cellular-automaton
//! grid, player profiles, seasons of experience and the arcade token.
use vstd::prelude::*;

pub mod encoding;
pub mod engine;
pub mod life;
pub mod life_ops;
pub mod market;
pub mod nexus;
pub mod positions;
pub mod pricing;
pub mod profile;
pub mod text;
pub mod token;
pub mod trades;

verus! {

} // verus!
