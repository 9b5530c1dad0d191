use vstd::prelude::*;

pub mod assets;
pub mod audio;
pub mod ecs;
pub mod loc;
pub mod runtime;
pub mod text;

verus! {

} // verus!
