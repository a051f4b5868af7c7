//! Services.

use vstd::pervasive::arbitrary;
use vstd::prelude::*;

verus! {

/// A kind of service: a single instance that plugins share. It is found by its
/// key; the name is what plugins declare and what is displayed.
pub trait Service: Sized {
    /// The key of the kind of service; nothing is known of it where a kind does
    /// not state it.
    closed spec fn key_spec() -> u64 {
        arbitrary()
    }

    /// The name of the kind of service; nothing is known of it where a kind does
    /// not state it.
    closed spec fn title() -> Seq<char> {
        arbitrary()
    }

    fn key() -> (r: u64)
        ensures
            r == Self::key_spec(),
    ;

    fn service_name_static() -> (r: &'static str)
        ensures
            r@ == Self::title(),
    ;

    fn service_name(&self) -> (r: &'static str)
        ensures
            r@ == Self::title(),
    {
        Self::service_name_static()
    }
}

}  // verus!
