//! Events.

use vstd::pervasive::arbitrary;
use vstd::prelude::*;

verus! {

/// A kind of event. Handlers are found by its key; the name is for display.
pub trait Event: Sized {
    /// The key of the kind of event; nothing is known of it where a kind does
    /// not state it.
    closed spec fn key_spec() -> u64 {
        arbitrary()
    }

    fn key() -> (r: u64)
        ensures
            r == Self::key_spec(),
    ;

    fn name(&self) -> &'static str;
}

}  // verus!
