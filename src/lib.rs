use vstd::prelude::*;

pub mod counter;
pub mod exposition;
pub mod histogram;
pub mod labels;
pub mod middleware;
pub mod status;
pub mod users;

verus! {

} // verus!
