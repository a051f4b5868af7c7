//! The events of the shell.

use crate::cordis::event::Event;
use vstd::prelude::*;

verus! {

/// The user has said something.
pub struct SessionInput {
    pub text: String,
}

impl Event for SessionInput {
    open spec fn key_spec() -> u64 {
        1
    }

    fn key() -> (r: u64) {
        1
    }

    fn name(&self) -> (r: &'static str)
        ensures
            r@ == "session/input"@,
    {
        "session/input"
    }
}

/// The assistant has answered.
pub struct SessionReply {
    pub text: String,
    /// What was answered.
    pub user_text: String,
}

impl Event for SessionReply {
    open spec fn key_spec() -> u64 {
        2
    }

    fn key() -> (r: u64) {
        2
    }

    fn name(&self) -> (r: &'static str)
        ensures
            r@ == "session/reply"@,
    {
        "session/reply"
    }
}

/// A line for the status area.
pub struct SessionStatus {
    pub text: String,
}

impl Event for SessionStatus {
    open spec fn key_spec() -> u64 {
        3
    }

    fn key() -> (r: u64) {
        3
    }

    fn name(&self) -> (r: &'static str)
        ensures
            r@ == "session/status"@,
    {
        "session/status"
    }
}

}  // verus!
