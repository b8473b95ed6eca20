use vstd::prelude::*;

pub mod test_runner;
pub mod watch_cache;

verus! {
} // verus!
