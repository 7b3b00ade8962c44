use vstd::prelude::*;

pub mod error;
pub mod model;
pub mod store;
pub mod lifecycle;
pub mod registry;
pub mod queries;
pub mod pipeline;
pub mod laws;
pub mod participants;

verus! {

} // verus!
