//! Showing every ceiling and how much of it is in use: what is asked for names nothing, as
//! the rows are the whole answer.
use vstd::prelude::*;

verus! {

/// What is asked.
#[derive(Clone, Copy, Debug)]
pub struct ListLimits {}

} // verus!
