//! The chat plugin: it answers what the user says, in the light of what the memory
//! of the session keeps at hand, or of the last turns where there is no memory. A
//! call that is running can be cancelled; its reply is then dropped.

use crate::cordis::context::{
    provided_spec, service_at, Context, ContextView, KindView, ProvidedView,
};
use crate::cordis::event::Event;
use crate::cordis::plugin::{
    grows_counted, grows_provided, grows_reflexive, grows_registered, names, Plugin,
};
use crate::cordis::service::Service;
use crate::events::SessionInput;
use crate::llm::client::{
    copy_messages, message_views, said, ChatMessage, ChatRequest, ChatResponse, MessageView,
    RequestView,
};
use crate::llm::LlmService;
use crate::plugins::memory::{
    answer_remembered, audit_begun, context_messages, remembered, score_request_spec, AuditStart,
    MemoryService,
};
use vstd::prelude::*;
use vstd::string::*;

verus! {

/// What the model is told first.
pub const CHAT_SYSTEM: &'static str = "你是 localai,一个运行在本地的小型 AI 助手。回答保持简洁、直接、准确,使用与用户相同的语言。";

#[derive(Debug)]
pub struct ChatOptions {
    pub model: Option<String>,
    pub enable_thinking: bool,
    pub history_turns: usize,
}

impl Default for ChatOptions {
    fn default() -> (r: ChatOptions)
        ensures
            r.model is None,
            !r.enable_thinking,
            r.history_turns == 0,
    {
        ChatOptions { model: None, enable_thinking: false, history_turns: 0 }
    }
}

/// How many turns are kept where options are given without a number.
pub fn default_turns() -> (r: usize)
    ensures
        r == 6,
{
    6
}

pub struct ChatService {
    pub history: Vec<ChatMessage>,
    pub enable_thinking: bool,
    pub history_turns: usize,
    /// The call that is running, if any.
    pub current: Option<u64>,
    /// The calls that were cancelled.
    pub cancelled: Vec<u64>,
}

#[verifier::ext_equal]
pub struct ChatView {
    pub history: Seq<MessageView>,
    pub enable_thinking: bool,
    pub history_turns: usize,
    pub current: Option<u64>,
    pub cancelled: Seq<u64>,
}

impl View for ChatService {
    type V = ChatView;

    open spec fn view(&self) -> ChatView {
        ChatView {
            history: message_views(self.history@),
            enable_thinking: self.enable_thinking,
            history_turns: self.history_turns,
            current: self.current,
            cancelled: self.cancelled@,
        }
    }
}

impl Service for ChatService {
    open spec fn key_spec() -> u64 {
        5
    }

    open spec fn title() -> Seq<char> {
        "chat"@
    }

    fn key() -> (r: u64) {
        5
    }

    fn service_name_static() -> (r: &'static str) {
        "chat"
    }
}

/// How many messages are kept besides the system prompt: two for each turn, and at
/// least the question.
pub open spec fn kept_messages(turns: usize) -> int {
    if turns == 0 {
        1
    } else {
        turns * 2
    }
}

/// The first message, and the last of those that follow it.
pub open spec fn last_messages(h: Seq<MessageView>, turns: usize) -> Seq<MessageView> {
    if h.len() > kept_messages(turns) + 1 {
        seq![h[0]] + h.skip(h.len() - kept_messages(turns))
    } else {
        h
    }
}

/// The history after the user has said something.
pub open spec fn asked(c: ChatView, text: Seq<char>) -> ChatView {
    ChatView {
        history: last_messages(c.history.push(said("user"@, text)), c.history_turns),
        ..c
    }
}

/// The history after the model has answered.
pub open spec fn replied(c: ChatView, text: Seq<char>) -> ChatView {
    ChatView { history: c.history.push(said("assistant"@, text)), ..c }
}

impl ChatView {
    /// Whether the history begins with the system prompt.
    pub open spec fn prompted(self) -> bool {
        self.history.len() > 0 && self.history[0] == said("system"@, CHAT_SYSTEM@)
    }
}

/// A question that is asked from memory: what is sent, the number of what the user
/// said, and the request that scores it, where entries are scored.
pub struct MemoryQuestion {
    pub request: ChatRequest,
    pub seq: u64,
    pub score: Option<ChatRequest>,
}

/// What a call sends out when it has ended.
pub enum Outgoing {
    Status(String),
    Reply(String, String),
}

#[verifier::ext_equal]
pub enum OutgoingView {
    Status(Seq<char>),
    /// The answer, and what it answers.
    Reply(Seq<char>, Seq<char>),
}

impl View for Outgoing {
    type V = OutgoingView;

    open spec fn view(&self) -> OutgoingView {
        match self {
            Outgoing::Status(s) => OutgoingView::Status(s@),
            Outgoing::Reply(t, u) => OutgoingView::Reply(t@, u@),
        }
    }
}

pub open spec fn outgoing_views(v: Seq<Outgoing>) -> Seq<OutgoingView> {
    v.map_values(|o: Outgoing| o@)
}

/// What a call sends out: nothing but a note where it was cancelled.
pub open spec fn outcome_spec(
    cancelled: bool,
    text: Seq<char>,
    reply: Option<Result<String, String>>,
    elapsed: Seq<char>,
) -> Seq<OutgoingView> {
    if cancelled {
        seq![OutgoingView::Status("[chat] 已取消"@)]
    } else {
        match reply {
            Some(Ok(t)) => seq![
                OutgoingView::Status("[chat] 回复完成 ("@ + elapsed + ")"@),
                OutgoingView::Reply(t@, text),
            ],
            Some(Err(e)) => seq![OutgoingView::Status("[chat] 错误: "@ + e@)],
            None => Seq::empty(),
        }
    }
}

fn kept(turns: usize) -> (r: usize)
    ensures
        r == (if kept_messages(turns) > usize::MAX {
            usize::MAX as int
        } else {
            kept_messages(turns)
        }),
{
    if turns == 0 {
        1
    } else if turns > usize::MAX / 2 {
        usize::MAX
    } else {
        turns * 2
    }
}

impl ChatService {
    /// The service for some options: it has only been told who it is.
    pub fn new(opts: &ChatOptions) -> (r: ChatService)
        ensures
            r@ == (ChatView {
                history: seq![said("system"@, CHAT_SYSTEM@)],
                enable_thinking: opts.enable_thinking,
                history_turns: opts.history_turns,
                current: None,
                cancelled: Seq::empty(),
            }),
            r@.prompted(),
    {
        let mut history: Vec<ChatMessage> = Vec::new();
        history.push(ChatMessage::new("system", CHAT_SYSTEM));
        let r = ChatService {
            history,
            enable_thinking: opts.enable_thinking,
            history_turns: opts.history_turns,
            current: None,
            cancelled: Vec::new(),
        };
        assert(r@.history =~= seq![said("system"@, CHAT_SYSTEM@)]);
        assert(r@.cancelled =~= Seq::empty());
        r
    }

    /// Notes what the user said; what comes back is sent to the model: the system
    /// prompt, and the last turns. [`ChatService::answered`] takes the reply.
    pub fn ask(&mut self, user_text: &str, model: &str) -> (r: ChatRequest)
        ensures
            final(self)@ == asked(old(self)@, user_text@),
            r@ == (RequestView {
                model: model@,
                messages: asked(old(self)@, user_text@).history,
                max_tokens: 900,
                json: false,
                enable_thinking: old(self)@.enable_thinking,
            }),
    {
        let ghost before = self@;
        self.history.push(ChatMessage::new("user", user_text));
        let ghost all = self.history@;
        assert(message_views(all) =~= before.history.push(said("user"@, user_text@)));
        let keep: usize = kept(self.history_turns);
        if self.history.len() - 1 > keep {
            let from: usize = self.history.len() - keep;
            let n: usize = self.history.len();
            let mut out: Vec<ChatMessage> = Vec::new();
            out.push(self.history[0].clone());
            let mut i: usize = from;
            assert(out@ =~= seq![all[0]] + all.subrange(from as int, i as int));
            while i < n
                invariant
                    from <= i <= n,
                    n == self.history@.len(),
                    self.history@ == all,
                    out@ == seq![all[0]] + all.subrange(from as int, i as int),
                decreases n - i,
            {
                out.push(self.history[i].clone());
                assert(out@ =~= seq![all[0]] + all.subrange(from as int, i as int + 1));
                i += 1;
            }
            self.history = out;
            assert(message_views(self.history@) =~= seq![message_views(all)[0]] + message_views(
                all,
            ).skip(from as int));
        }
        ChatRequest {
            model: model.to_string(),
            messages: copy_messages(&self.history),
            max_tokens: 900,
            json: false,
            enable_thinking: self.enable_thinking,
        }
    }

    /// Takes the reply to what was asked: an answer goes into the history.
    pub fn answered(&mut self, reply: Result<ChatResponse, String>) -> (r: Result<String, String>)
        ensures
            match reply {
                Ok(resp) => r is Ok && r->Ok_0@ == resp.content@ && final(self)@ == replied(
                    old(self)@,
                    resp.content@,
                ),
                Err(e) => r is Err && r->Err_0@ == e@ && final(self)@ == old(self)@,
            },
    {
        let ghost before = self@;
        match reply {
            Ok(resp) => {
                self.history.push(ChatMessage::new("assistant", resp.content.as_str()));
                assert(message_views(self.history@) =~= before.history.push(
                    said("assistant"@, resp.content@),
                ));
                Ok(resp.content)
            },
            Err(e) => Err(e),
        }
    }

    /// Notes what the user said in the memory of the session, where there is one;
    /// what comes back is sent to the model, with the context that the memory
    /// keeps at hand. The own history stays as it is.
    /// [`ChatService::answered_from_memory`] takes the reply.
    pub fn ask_from_memory(
        &self,
        memory: &mut MemoryService,
        user_text: &str,
        ts: &str,
        model: &str,
    ) -> (r: MemoryQuestion)
        ensures
            final(memory)@ == remembered(old(memory)@, user_text@, ts@),
            r.seq == old(memory)@.seq,
            match old(memory)@.settings.compressor {
                Some(_) => r.score is Some && r.score->0@ == score_request_spec(user_text@, model@),
                None => r.score is None,
            },
            r.request@ == (RequestView {
                model: model@,
                messages: context_messages(
                    remembered(old(memory)@, user_text@, ts@),
                    CHAT_SYSTEM@,
                ),
                max_tokens: 900,
                json: false,
                enable_thinking: self@.enable_thinking,
            }),
    {
        let (seq, score) = memory.record_user(user_text, ts, model);
        let request = ChatRequest {
            model: model.to_string(),
            messages: memory.build_context(CHAT_SYSTEM),
            max_tokens: 900,
            json: false,
            enable_thinking: self.enable_thinking,
        };
        MemoryQuestion { request, seq, score }
    }

    /// Takes the reply to what was asked from memory: an answer goes into the
    /// memory, the turn is counted, and an audit begins where one is due.
    pub fn answered_from_memory(
        &self,
        memory: &mut MemoryService,
        reply: Result<ChatResponse, String>,
        ts: &str,
        model: &str,
    ) -> (r: (Result<String, String>, Option<AuditStart>))
        requires
            old(memory)@.since_audit < usize::MAX,
        ensures
            match reply {
                Ok(resp) => r.0 is Ok && r.0->Ok_0@ == resp.content@ && audit_begun(
                    answer_remembered(old(memory)@, resp.content@, ts@),
                    model@,
                    final(memory)@,
                    r.1,
                ),
                Err(e) => r.0 is Err && r.0->Err_0@ == e@ && r.1 is None && final(memory)@
                    == old(memory)@,
            },
    {
        match reply {
            Ok(resp) => {
                memory.record_assistant(resp.content.as_str(), ts);
                let start = memory.audit_if_needed(model);
                (Ok(resp.content), start)
            },
            Err(e) => (Err(e), None),
        }
    }

    pub fn is_busy(&self) -> (r: bool)
        ensures
            r == (self@.current is Some),
    {
        self.current.is_some()
    }

    /// Cancels the call that is running; false where none is. A cancelled call
    /// stays cancelled.
    pub fn cancel_current(&mut self) -> (r: bool)
        ensures
            r == (old(self)@.current is Some),
            final(self)@ == (match old(self)@.current {
                Some(t) => ChatView {
                    current: None,
                    cancelled: old(self)@.cancelled.push(t),
                    ..old(self)@
                },
                None => old(self)@,
            }),
    {
        match self.current {
            Some(t) => {
                self.current = None;
                self.cancelled.push(t);
                true
            },
            None => false,
        }
    }

    /// Whether a call was cancelled.
    pub fn is_cancelled(&self, token: u64) -> (r: bool)
        ensures
            r == self@.cancelled.contains(token),
    {
        let mut i: usize = 0;
        while i < self.cancelled.len()
            invariant
                i <= self.cancelled@.len(),
                forall|k: int| 0 <= k < i ==> self.cancelled@[k] != token,
            decreases self.cancelled@.len() - i,
        {
            if self.cancelled[i] == token {
                assert(self.cancelled@[i as int] == token);
                return true;
            }
            i += 1;
        }
        false
    }

    /// Begins a call under a token of its own; what comes back is a status line.
    pub fn submit(&mut self, token: u64, model: &str) -> (r: String)
        ensures
            r@ == "[chat] 已提交,调用 "@ + model@ + " ..."@,
            final(self)@ == (ChatView { current: Some(token), ..old(self)@ }),
    {
        self.current = Some(token);
        let mut m = "[chat] 已提交,调用 ".to_string();
        m.append(model);
        m.append(" ...");
        m
    }

    /// Ends a call: it is no longer the current one, and what comes back is sent
    /// out. `reply` is missing only where the call was cancelled before it began.
    pub fn finish(
        &mut self,
        token: u64,
        text: &str,
        reply: Option<Result<String, String>>,
        elapsed: &str,
    ) -> (r: Vec<Outgoing>)
        requires
            reply is None ==> old(self)@.cancelled.contains(token),
        ensures
            outgoing_views(r@) == outcome_spec(
                old(self)@.cancelled.contains(token),
                text@,
                reply,
                elapsed@,
            ),
            final(self)@ == (if old(self)@.current == Some(token) {
                ChatView { current: None, ..old(self)@ }
            } else {
                old(self)@
            }),
    {
        let cancelled = self.is_cancelled(token);
        if let Some(t) = self.current {
            if t == token {
                self.current = None;
            }
        }
        let mut out: Vec<Outgoing> = Vec::new();
        if cancelled {
            out.push(Outgoing::Status("[chat] 已取消".to_string()));
        } else {
            match reply {
                Some(Ok(answer)) => {
                    let mut m = "[chat] 回复完成 (".to_string();
                    m.append(elapsed);
                    m.append(")");
                    out.push(Outgoing::Status(m));
                    out.push(Outgoing::Reply(answer, text.to_string()));
                },
                Some(Err(e)) => {
                    let mut m = "[chat] 错误: ".to_string();
                    m.append(e.as_str());
                    out.push(Outgoing::Status(m));
                },
                None => {},
            }
        }
        assert(outgoing_views(out@) =~= outcome_spec(cancelled, text@, reply, elapsed@));
        out
    }
}

/// What the chat command says.
pub fn command_reply(answer: Result<String, String>) -> (r: String)
    ensures
        r@ == (match answer {
            Ok(t) => t@,
            Err(e) => "错误: "@ + e@,
        }),
{
    match answer {
        Ok(t) => t,
        Err(e) => {
            let mut m = "错误: ".to_string();
            m.append(e.as_str());
            m
        },
    }
}

// ---- the plugin ----

pub struct ChatPlugin;

pub fn factory() -> (r: ChatPlugin)
    ensures
        r == ChatPlugin,
{
    ChatPlugin
}

/// The context with what the chat plugin registers.
pub open spec fn chat_applied(c: ContextView, scope: u64) -> ContextView {
    provided_spec(
        ContextView { next: (c.next + 1) as u64, ..c },
        scope,
        ProvidedView {
            key: ChatService::key_spec(),
            name: ChatService::title(),
            instance: c.next,
        },
    ).registered(scope, KindView::Listener(SessionInput::key_spec())).registered(
        scope,
        KindView::Command("chat"@),
    )
}

/// What comes of applying the plugin: the context after it, and whether it was
/// done.
pub open spec fn chat_outcome(c: ContextView, scope: u64, options: Result<ChatOptions, String>) -> (
    ContextView,
    Result<(), Seq<char>>,
) {
    if service_at(c.services, LlmService::key_spec()) is None {
        (c, Err("缺少 llm 服务"@))
    } else {
        match options {
            Err(e) => (c, Err(e@)),
            Ok(_) => (chat_applied(c, scope), Ok(())),
        }
    }
}

impl Plugin for ChatPlugin {
    type Options = Result<ChatOptions, String>;

    open spec fn title(&self) -> Seq<char> {
        "chat"@
    }

    open spec fn needs(&self) -> Seq<Seq<char>> {
        seq!["llm"@]
    }

    open spec fn demand(&self) -> nat {
        3
    }

    open spec fn may_come_to(
        &self,
        before: ContextView,
        scope: u64,
        options: Result<ChatOptions, String>,
        after: ContextView,
        r: Result<(), Seq<char>>,
    ) -> bool {
        (after, r) == chat_outcome(before, scope, options)
    }

    fn name(&self) -> (r: &'static str) {
        "chat"
    }

    fn inject(&self) -> (r: Vec<&'static str>) {
        let mut v: Vec<&'static str> = Vec::new();
        v.push("llm");
        assert(names(v@) =~= seq!["llm"@]);
        v
    }

    /// Provides the service, listens to the user, and registers a command that
    /// asks at once.
    fn apply(&self, ctx: &mut Context, scope: u64, options: Result<ChatOptions, String>) -> (r:
        Result<(), String>)
    {
        let ghost before = ctx@;
        proof {
            grows_reflexive(before, scope);
        }
        if !ctx.has_service::<LlmService>() {
            return Err("缺少 llm 服务".to_string());
        }
        if let Err(e) = options {
            return Err(e);
        }
        let instance: u64 = ctx.next_id();
        proof {
            grows_counted(before, before, scope);
        }
        let ghost counted = ctx@;
        ctx.provide::<ChatService>(scope, instance);
        let ghost provided = ctx@;
        proof {
            grows_provided(
                before,
                counted,
                scope,
                ProvidedView {
                    key: ChatService::key_spec(),
                    name: ChatService::title(),
                    instance,
                },
            );
            grows_registered(
                before,
                provided,
                scope,
                KindView::Listener(SessionInput::key_spec()),
            );
        }
        ctx.on::<SessionInput>(scope);
        let ghost listening = ctx@;
        proof {
            grows_registered(before, listening, scope, KindView::Command("chat"@));
        }
        ctx.on_command(scope, "chat");
        Ok(())
    }
}

}  // verus!
