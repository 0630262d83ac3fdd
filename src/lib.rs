//! Rebuilds, under a destination root, the files that a traced program touched,
//! from the lines of a system-call trace log.
use vstd::prelude::*;

pub mod path;
pub mod replicate;
pub mod text;
pub mod trace;

verus! {

} // verus!
