//! The model layer: the chat client, the bounded micro-call protocol and the
//! compression of a conversation.

pub mod client;
pub mod compress;
pub mod laws;
pub mod micro;

use crate::cordis::service::Service;
use vstd::prelude::*;

pub use client::{ChatMessage, ChatRequest, ChatResponse, ChatUsage, LlmClient, LlmConfig};
pub use compress::{now_ts, AuditOutcome, Compressor, EntryScore, HistoryEntry};
pub use micro::{extract_json, MicroEngine, MicroOutcome, MicroTask};

verus! {

/// The core service: the shared model client, for every plugin.
pub struct LlmService;

impl Service for LlmService {
    open spec fn key_spec() -> u64 {
        1
    }

    open spec fn title() -> Seq<char> {
        "llm"@
    }

    fn key() -> (r: u64) {
        1
    }

    fn service_name_static() -> (r: &'static str) {
        "llm"
    }
}

}  // verus!
