use vstd::prelude::*;

pub mod game;
pub mod order;
pub mod terminal;
pub mod text;
pub mod world_data;

verus! {

} // verus!
