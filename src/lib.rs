use vstd::prelude::*;

pub mod geometry;
pub mod sqrt;
pub mod collision;
pub mod detour;
pub mod length;
pub mod planner;
pub mod selector;
pub mod setup;

verus! {

} // verus!
