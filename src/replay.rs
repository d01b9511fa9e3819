use vstd::prelude::*;

verus! {

/// The result of replaying recorded blocks into a second runtime environment.
/// Replays report their findings through callbacks, so it carries nothing.
#[derive(Debug)]
pub struct ReplayResult {}

impl ReplayResult {
    pub fn do_nothing(&self) {
    }
}

} // verus!
