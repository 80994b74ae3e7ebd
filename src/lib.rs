use vstd::prelude::*;

pub mod comment;
pub mod error;
pub mod laws;
pub mod portfolio;
pub mod position;
pub mod prices;
pub mod selector;

verus! {

} // verus!
