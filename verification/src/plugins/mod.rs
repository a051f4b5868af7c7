//! The plugins that come with the shell.

pub mod chat;
pub mod chat_laws;
pub mod laws;
pub mod memory;
pub mod memory_laws;
pub mod micro_laws;
pub mod microtask;
pub mod subagent;
pub mod task_laws;
pub mod tools;
pub mod tool_laws;
pub mod tui;

use crate::cordis::context::{Context, ContextView};
use crate::cordis::loader::LoaderView;
use crate::cordis::plugin::Plugin;
use crate::llm::client::{said, LlmClient};
use crate::llm::micro::MicroEngine;
use chat::{chat_outcome, ChatOptions, ChatPlugin, ChatService, ChatView, CHAT_SYSTEM};
use memory::{
    fresh_memory, memory_outcome, resumed, settings_of, ChatSnapshot, MemoryOptions, MemoryPlugin,
    MemoryService,
};
use microtask::{microtask_outcome, MicroOptions, MicroService, MicroTaskPlugin};
use tools::{tools_outcome, ToolsOptions, ToolsPlugin};
use tui::{tui_outcome, TuiPlugin};
use vstd::prelude::*;

verus! {

/// A plugin that comes with the shell.
pub enum Builtin {
    Memory(MemoryPlugin),
    Chat(ChatPlugin),
    Microtask(MicroTaskPlugin),
    Tools(ToolsPlugin),
    Tui(TuiPlugin),
}

/// What the written options of a plugin mean to each plugin, or why they mean
/// nothing to it.
pub struct BuiltinOptions {
    pub memory: Result<MemoryOptions, String>,
    pub chat: Result<ChatOptions, String>,
    pub microtask: Result<MicroOptions, String>,
    pub tools: Result<ToolsOptions, String>,
}

impl BuiltinOptions {
    /// The memory that the options ask for, with the context of the last session
    /// where there is one. None where they mean nothing, or switch it off.
    pub fn memory_service(&self, last: Option<ChatSnapshot>) -> (r: Option<MemoryService>)
        ensures
            match self.memory {
                Ok(o) => if o.enabled {
                    r is Some && r->0@ == resumed(fresh_memory(settings_of(o)), last)
                } else {
                    r is None
                },
                Err(_) => r is None,
            },
    {
        match &self.memory {
            Ok(o) => if o.enabled {
                Some(MemoryService::new(o, last))
            } else {
                None
            },
            Err(_) => None,
        }
    }

    /// The chat that the options ask for; the model that they name is put into
    /// force. None where they mean nothing.
    pub fn chat_service(&self, client: &mut LlmClient) -> (r: Option<ChatService>)
        ensures
            match self.chat {
                Ok(o) => r is Some && r->0@ == (ChatView {
                    history: seq![said("system"@, CHAT_SYSTEM@)],
                    enable_thinking: o.enable_thinking,
                    history_turns: o.history_turns,
                    current: None,
                    cancelled: Seq::empty(),
                }) && final(client).model_spec() == (match o.model {
                    Some(m) => m@,
                    None => old(client).model_spec(),
                }),
                Err(_) => r is None && final(client).model_spec() == old(client).model_spec(),
            },
            final(client).config == old(client).config,
            final(client).permits == old(client).permits,
    {
        match &self.chat {
            Ok(o) => {
                client.choose_model(&o.model);
                Some(ChatService::new(o))
            },
            Err(_) => None,
        }
    }

    /// The micro-calls that the options ask for; the model that they name is put
    /// into force. None where they mean nothing.
    pub fn micro_service(&self, client: &mut LlmClient) -> (r: Option<MicroService>)
        ensures
            match self.microtask {
                Ok(o) => r is Some && r->0.engine.max_retries == o.max_retries
                    && final(client).model_spec() == (match o.model {
                    Some(m) => m@,
                    None => old(client).model_spec(),
                }),
                Err(_) => r is None && final(client).model_spec() == old(client).model_spec(),
            },
            final(client).config == old(client).config,
            final(client).permits == old(client).permits,
    {
        match &self.microtask {
            Ok(o) => {
                client.choose_model(&o.model);
                Some(MicroService { engine: MicroEngine::new(o.max_retries) })
            },
            Err(_) => None,
        }
    }

    /// How long a program may run by the options, in nanoseconds. None where they
    /// mean nothing.
    pub fn run_timeout(&self) -> (r: Option<u128>)
        ensures
            match self.tools {
                Ok(o) => r is Some && r->0 == (match o.run_timeout_secs {
                    Some(s) => s,
                    None => 30,
                }) * 1_000_000_000,
                Err(_) => r is None,
            },
    {
        match &self.tools {
            Ok(o) => Some(o.run_timeout()),
            Err(_) => None,
        }
    }
}

/// What comes of applying a plugin that comes with the shell.
pub open spec fn builtin_outcome(
    p: Builtin,
    c: ContextView,
    scope: u64,
    options: BuiltinOptions,
) -> (ContextView, Result<(), Seq<char>>) {
    match p {
        Builtin::Memory(_) => memory_outcome(c, scope, options.memory),
        Builtin::Chat(_) => chat_outcome(c, scope, options.chat),
        Builtin::Microtask(_) => microtask_outcome(c, scope, options.microtask),
        Builtin::Tools(_) => tools_outcome(c, scope, options.tools),
        Builtin::Tui(_) => tui_outcome(c, scope),
    }
}

impl Plugin for Builtin {
    type Options = BuiltinOptions;

    open spec fn title(&self) -> Seq<char> {
        match self {
            Builtin::Memory(p) => p.title(),
            Builtin::Chat(p) => p.title(),
            Builtin::Microtask(p) => p.title(),
            Builtin::Tools(p) => p.title(),
            Builtin::Tui(p) => p.title(),
        }
    }

    open spec fn needs(&self) -> Seq<Seq<char>> {
        match self {
            Builtin::Memory(p) => p.needs(),
            Builtin::Chat(p) => p.needs(),
            Builtin::Microtask(p) => p.needs(),
            Builtin::Tools(p) => p.needs(),
            Builtin::Tui(p) => p.needs(),
        }
    }

    open spec fn demand(&self) -> nat {
        match self {
            Builtin::Memory(p) => p.demand(),
            Builtin::Chat(p) => p.demand(),
            Builtin::Microtask(p) => p.demand(),
            Builtin::Tools(p) => p.demand(),
            Builtin::Tui(p) => p.demand(),
        }
    }

    open spec fn may_come_to(
        &self,
        before: ContextView,
        scope: u64,
        options: BuiltinOptions,
        after: ContextView,
        r: Result<(), Seq<char>>,
    ) -> bool {
        (after, r) == builtin_outcome(*self, before, scope, options)
    }

    fn name(&self) -> (r: &'static str) {
        match self {
            Builtin::Memory(p) => p.name(),
            Builtin::Chat(p) => p.name(),
            Builtin::Microtask(p) => p.name(),
            Builtin::Tools(p) => p.name(),
            Builtin::Tui(p) => p.name(),
        }
    }

    fn inject(&self) -> (r: Vec<&'static str>) {
        match self {
            Builtin::Memory(p) => p.inject(),
            Builtin::Chat(p) => p.inject(),
            Builtin::Microtask(p) => p.inject(),
            Builtin::Tools(p) => p.inject(),
            Builtin::Tui(p) => p.inject(),
        }
    }

    fn apply(&self, ctx: &mut Context, scope: u64, options: BuiltinOptions) -> (r: Result<
        (),
        String,
    >)
    {
        match self {
            Builtin::Memory(p) => p.apply(ctx, scope, options.memory),
            Builtin::Chat(p) => p.apply(ctx, scope, options.chat),
            Builtin::Microtask(p) => p.apply(ctx, scope, options.microtask),
            Builtin::Tools(p) => p.apply(ctx, scope, options.tools),
            Builtin::Tui(p) => p.apply(ctx, scope, ()),
        }
    }
}

/// The plugins that come with the shell.
pub fn builtin() -> (r: Vec<Builtin>)
    ensures
        r@ == seq![
            Builtin::Memory(MemoryPlugin),
            Builtin::Chat(ChatPlugin),
            Builtin::Microtask(MicroTaskPlugin),
            Builtin::Tools(ToolsPlugin),
            Builtin::Tui(TuiPlugin),
        ],
{
    let mut v: Vec<Builtin> = Vec::new();
    v.push(Builtin::Memory(memory::factory()));
    v.push(Builtin::Chat(chat::factory()));
    v.push(Builtin::Microtask(microtask::factory()));
    v.push(Builtin::Tools(tools::factory()));
    v.push(Builtin::Tui(tui::factory()));
    v
}

/// Eleven numbers are enough to load any plugin that comes with the shell.
pub proof fn builtin_plugins_fit(l: LoaderView<Builtin>)
    requires
        l.ctx.next + 11 <= u64::MAX,
    ensures
        l.room(),
{
}

}  // verus!
