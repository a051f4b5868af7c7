//! The time of day.

use crate::text::number::{two_digits, two_digits_spec};
use vstd::prelude::*;
use vstd::string::*;

verus! {

/// The time of day of a moment, given in seconds since the epoch.
pub open spec fn clock_spec(secs: u64) -> Seq<char> {
    two_digits_spec(((secs / 3600) % 24) as nat) + ":"@ + two_digits_spec(
        ((secs / 60) % 60) as nat,
    ) + ":"@ + two_digits_spec((secs % 60) as nat)
}

/// The time of day as `HH:MM:SS`.
pub fn clock(secs: u64) -> (r: String)
    ensures
        r@ == clock_spec(secs),
{
    let mut s = two_digits((secs / 3600) % 24);
    s.append(":");
    s.append(two_digits((secs / 60) % 60).as_str());
    s.append(":");
    s.append(two_digits(secs % 60).as_str());
    s
}

}  // verus!
