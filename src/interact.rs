//! Side effects that a client asks of its surroundings, in a form that does
//! nothing, for use where no browser is at hand.
use vstd::prelude::*;

verus! {

/// Carries out interactions by doing nothing.
pub struct TestInteractor;

impl TestInteractor {
    pub fn new() -> (r: TestInteractor) {
        TestInteractor
    }

    /// Would open `url` in a browser; here it does nothing.
    pub fn open_browser(&self, url: String) {
    }
}

} // verus!
