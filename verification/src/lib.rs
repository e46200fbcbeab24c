//! Verified core of a background computer-use driver: input action chains,
//! benchmark statistics, screenshot comparison, the agent loop state
//! machine, stub OS backends and sandbox limits.

pub mod input_chain;
pub mod text;
pub mod driver;
pub mod bench;
pub mod screenshot_diff;
pub mod agent;
pub mod sandbox;

use vstd::prelude::*;

verus! {

} // verus!
