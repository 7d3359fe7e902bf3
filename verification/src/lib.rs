//! Individuality: the logic of the people, lite people and resources pallets, as state machines
//! over explicit state.
use vstd::prelude::*;

pub mod encoding;
pub mod mock;
pub mod people_lite;
pub mod people_multi;
pub mod reality;
pub mod resources;
pub mod runtime;
pub mod table;
pub mod weights;

verus! {
} // verus!
