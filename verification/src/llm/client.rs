//! The chat client: what is sent to an OpenAI-compatible server, what is read
//! from its reply, and how many calls may run at once.

use crate::json::{
    field_of, item_of, items_view, list, notation_of, object, parsed, push_field, text,
    text_of, unsigned, unsigned_of, Json, JsonView,
};
use crate::text::number::{decimal, decimal_spec};
use crate::text::search::opt_text;
use crate::text::trim::{strip_trailing, strip_trailing_spec};
use vstd::prelude::*;
use vstd::string::*;

verus! {

pub struct LlmConfig {
    pub base_url: String,
    pub api_key: String,
    /// The model that is used until another is chosen.
    pub model: String,
    pub timeout_secs: u64,
    /// How many calls may run at once.
    pub max_concurrent: usize,
}

#[derive(Debug)]
pub struct ChatMessage {
    pub role: String,
    pub content: String,
}

#[verifier::ext_equal]
pub struct MessageView {
    pub role: Seq<char>,
    pub content: Seq<char>,
}

impl View for ChatMessage {
    type V = MessageView;

    open spec fn view(&self) -> MessageView {
        MessageView { role: self.role@, content: self.content@ }
    }
}

impl Clone for ChatMessage {
    fn clone(&self) -> (r: ChatMessage)
        ensures
            r == *self,
    {
        ChatMessage { role: self.role.clone(), content: self.content.clone() }
    }
}

/// The message that `role` says `content`.
pub open spec fn said(role: Seq<char>, content: Seq<char>) -> MessageView {
    MessageView { role, content }
}

pub open spec fn message_views(v: Seq<ChatMessage>) -> Seq<MessageView> {
    v.map_values(|m: ChatMessage| m@)
}

impl ChatMessage {
    pub fn new(role: &str, content: &str) -> (r: ChatMessage)
        ensures
            r@ == said(role@, content@),
    {
        ChatMessage { role: role.to_string(), content: content.to_string() }
    }
}

/// A copy of a list of messages.
pub fn copy_messages(v: &Vec<ChatMessage>) -> (r: Vec<ChatMessage>)
    ensures
        r@ == v@,
{
    let mut out: Vec<ChatMessage> = Vec::new();
    let mut i: usize = 0;
    while i < v.len()
        invariant
            i <= v@.len(),
            out@ == v@.take(i as int),
        decreases v@.len() - i,
    {
        out.push(v[i].clone());
        assert(v@.take(i as int + 1) =~= v@.take(i as int).push(v@[i as int]));
        i += 1;
    }
    assert(v@.take(v@.len() as int) =~= v@);
    out
}

pub struct ChatRequest {
    pub model: String,
    pub messages: Vec<ChatMessage>,
    pub max_tokens: u32,
    /// Whether the reply has to be a JSON object.
    pub json: bool,
    /// Whether the model may think before it answers.
    pub enable_thinking: bool,
}

#[verifier::ext_equal]
pub struct RequestView {
    pub model: Seq<char>,
    pub messages: Seq<MessageView>,
    pub max_tokens: u32,
    pub json: bool,
    pub enable_thinking: bool,
}

impl View for ChatRequest {
    type V = RequestView;

    open spec fn view(&self) -> RequestView {
        RequestView {
            model: self.model@,
            messages: message_views(self.messages@),
            max_tokens: self.max_tokens,
            json: self.json,
            enable_thinking: self.enable_thinking,
        }
    }
}

/// What a call used. Durations keep the notation of the reply.
#[derive(Debug)]
pub struct ChatUsage {
    pub total_time: Option<String>,
    pub cached_tokens: Option<u32>,
    pub prompt_tokens: Option<u32>,
    pub completion_tokens: Option<u32>,
    pub model_load_duration: Option<String>,
}

#[derive(Debug)]
pub struct ChatResponse {
    pub content: String,
    pub finish_reason: String,
    pub usage: ChatUsage,
    pub latency_ms: u128,
}

// ---- how many calls run at once ----

/// A counting semaphore: the permits that are free.
pub struct Semaphore {
    pub free: usize,
}

/// A semaphore after a permit was asked for, and whether one was free.
pub open spec fn acquired(s: Semaphore) -> (Semaphore, bool) {
    if s.free > 0 {
        (Semaphore { free: (s.free - 1) as usize }, true)
    } else {
        (s, false)
    }
}

/// A semaphore after a permit was given back.
pub open spec fn released(s: Semaphore) -> Semaphore {
    Semaphore { free: (s.free + 1) as usize }
}

impl Semaphore {
    pub fn new(permits: usize) -> (r: Semaphore)
        ensures
            r.free == permits,
    {
        Semaphore { free: permits }
    }

    /// Takes a permit where one is free; otherwise the caller has to wait.
    pub fn acquire(&mut self) -> (granted: bool)
        ensures
            (*final(self), granted) == acquired(*old(self)),
    {
        if self.free == 0 {
            false
        } else {
            self.free = self.free - 1;
            true
        }
    }

    /// Gives a permit back.
    pub fn release(&mut self)
        requires
            old(self).free < usize::MAX,
        ensures
            *final(self) == released(*old(self)),
    {
        self.free = self.free + 1;
    }
}

/// What happens to a semaphore: a caller asks for a permit, or one that runs ends.
pub enum PermitEvent {
    Ask,
    End,
}

/// The semaphore and how many calls run, after some events. A call that is not
/// granted a permit does not run, and only one that runs can end.
pub open spec fn running_after(s: Semaphore, events: Seq<PermitEvent>) -> (Semaphore, nat)
    decreases events.len(),
{
    if events.len() == 0 {
        (s, 0)
    } else {
        let (now, running) = running_after(s, events.drop_last());
        match events.last() {
            PermitEvent::Ask => {
                let (next, granted) = acquired(now);
                (next, if granted {
                    running + 1
                } else {
                    running
                })
            },
            PermitEvent::End => if running > 0 {
                (released(now), (running - 1) as nat)
            } else {
                (now, running)
            },
        }
    }
}

/// No more calls run at once than there are permits, and the permits that are not
/// free are those of the calls that run.
pub proof fn calls_are_limited(s: Semaphore, events: Seq<PermitEvent>)
    ensures
        running_after(s, events).1 <= s.free,
        running_after(s, events).0.free == s.free - running_after(s, events).1,
    decreases events.len(),
{
    if events.len() > 0 {
        calls_are_limited(s, events.drop_last());
    }
}

// ---- the request ----

/// A message as JSON.
pub open spec fn message_json(m: MessageView) -> JsonView {
    JsonView::Object(
        seq![("role"@, JsonView::Text(m.role)), ("content"@, JsonView::Text(m.content))],
    )
}

/// The body of a chat request.
pub open spec fn body_spec(req: RequestView) -> JsonView {
    let base = seq![
        ("model"@, JsonView::Text(req.model)),
        ("messages"@, JsonView::List(req.messages.map_values(|m: MessageView| message_json(m)))),
        (
            "max_tokens"@,
            JsonView::Number(Some(req.max_tokens as u64), decimal_spec(req.max_tokens as nat)),
        ),
        ("stream"@, JsonView::Bool(false)),
    ];
    let format = if req.json {
        seq![
            (
                "response_format"@,
                JsonView::Object(seq![("type"@, JsonView::Text("json_object"@))]),
            ),
        ]
    } else {
        Seq::empty()
    };
    let thinking = if !req.enable_thinking {
        seq![
            (
                "chat_template_kwargs"@,
                JsonView::Object(seq![("enable_thinking"@, JsonView::Bool(false))]),
            ),
        ]
    } else {
        Seq::empty()
    };
    JsonView::Object(base + format + thinking)
}

fn message_value(m: &ChatMessage) -> (r: Json)
    ensures
        r@ == message_json(m@),
{
    let mut fields: Vec<(String, Json)> = Vec::new();
    push_field(&mut fields, "role", text(m.role.as_str()));
    push_field(&mut fields, "content", text(m.content.as_str()));
    let r = object(fields);
    assert(r@->Object_0 =~= message_json(m@)->Object_0);
    r
}

/// The body of a chat request.
pub fn request_body(req: &ChatRequest) -> (r: Json)
    ensures
        r@ == body_spec(req@),
{
    let mut messages: Vec<Json> = Vec::new();
    let mut i: usize = 0;
    while i < req.messages.len()
        invariant
            i <= req.messages@.len(),
            messages@.len() == i,
            forall|k: int|
                0 <= k < i ==> (#[trigger] messages@[k])@ == message_json(req@.messages[k]),
        decreases req.messages@.len() - i,
    {
        messages.push(message_value(&req.messages[i]));
        i += 1;
    }
    assert(items_view(messages@) =~= req@.messages.map_values(|m: MessageView| message_json(m)));
    let mut fields: Vec<(String, Json)> = Vec::new();
    push_field(&mut fields, "model", text(req.model.as_str()));
    push_field(&mut fields, "messages", list(messages));
    push_field(&mut fields, "max_tokens", unsigned(req.max_tokens as u64));
    push_field(&mut fields, "stream", Json::Bool(false));
    if req.json {
        let mut kind: Vec<(String, Json)> = Vec::new();
        push_field(&mut kind, "type", text("json_object"));
        let value = object(kind);
        assert(value@->Object_0 =~= seq![("type"@, JsonView::Text("json_object"@))]);
        push_field(&mut fields, "response_format", value);
    }
    if !req.enable_thinking {
        let mut kwargs: Vec<(String, Json)> = Vec::new();
        push_field(&mut kwargs, "enable_thinking", Json::Bool(false));
        let value = object(kwargs);
        assert(value@->Object_0 =~= seq![("enable_thinking"@, JsonView::Bool(false))]);
        push_field(&mut fields, "chat_template_kwargs", value);
    }
    let r = object(fields);
    assert(r@->Object_0 =~= body_spec(req@)->Object_0);
    r
}

/// One HTTP call: where it goes, with which authorization, and what it carries.
pub struct HttpCall {
    pub url: String,
    pub authorization: String,
    pub body: Json,
}

// ---- the reply ----

/// A count in a reply, cut to 32 bits.
pub open spec fn count_of(j: JsonView) -> Option<u32> {
    match unsigned_of(j) {
        Some(n) => Some(n as u32),
        None => None,
    }
}

/// The text of a value, or nothing.
pub open spec fn text_or_empty(j: JsonView) -> Seq<char> {
    match text_of(j) {
        Some(s) => s,
        None => Seq::empty(),
    }
}

/// Whether `r` is what a reply body says, after `latency_ms`.
pub open spec fn response_of(body: JsonView, latency_ms: u128, r: ChatResponse) -> bool {
    let choice = item_of(field_of(body, "choices"@), 0);
    let usage = field_of(body, "usage"@);
    &&& r.content@ == text_or_empty(field_of(field_of(choice, "message"@), "content"@))
    &&& r.finish_reason@ == text_or_empty(field_of(choice, "finish_reason"@))
    &&& opt_text(r.usage.total_time) == notation_of(field_of(usage, "total_time"@))
    &&& r.usage.cached_tokens == count_of(
        field_of(field_of(usage, "prompt_tokens_details"@), "cached_tokens"@),
    )
    &&& r.usage.prompt_tokens == count_of(field_of(usage, "prompt_tokens"@))
    &&& r.usage.completion_tokens == count_of(field_of(usage, "completion_tokens"@))
    &&& opt_text(r.usage.model_load_duration) == notation_of(
        field_of(usage, "model_load_duration"@),
    )
    &&& r.latency_ms == latency_ms
}

fn below<'a>(j: Option<&'a Json>, key: &str) -> (r: Option<&'a Json>)
    ensures
        opt_tree(r) == field_of(opt_tree(j), key@),
{
    match j {
        Some(v) => v.field(key),
        None => None,
    }
}

spec fn opt_tree(j: Option<&Json>) -> JsonView {
    match j {
        Some(v) => v@,
        None => JsonView::Null,
    }
}

fn string_or_empty(j: Option<&Json>) -> (r: String)
    ensures
        r@ == text_or_empty(opt_tree(j)),
{
    match j {
        Some(v) => match v.as_str() {
            Some(s) => s,
            None => String::new(),
        },
        None => String::new(),
    }
}

fn count(j: Option<&Json>) -> (r: Option<u32>)
    ensures
        r == count_of(opt_tree(j)),
{
    match j {
        Some(v) => match v.as_u64() {
            Some(n) => Some(
                #[verifier::truncate]
                (n as u32),
            ),
            None => None,
        },
        None => None,
    }
}

fn notation(j: Option<&Json>) -> (r: Option<String>)
    ensures
        opt_text(r) == notation_of(opt_tree(j)),
{
    match j {
        Some(v) => v.as_notation(),
        None => None,
    }
}

/// What a reply body says.
pub fn chat_response(body: &Json, latency_ms: u128) -> (r: ChatResponse)
    ensures
        response_of(body@, latency_ms, r),
{
    let choice = match body.field("choices") {
        Some(c) => c.item(0),
        None => None,
    };
    let usage = body.field("usage");
    let details = below(usage, "prompt_tokens_details");
    ChatResponse {
        content: string_or_empty(below(below(choice, "message"), "content")),
        finish_reason: string_or_empty(below(choice, "finish_reason")),
        usage: ChatUsage {
            total_time: notation(below(usage, "total_time")),
            cached_tokens: count(below(details, "cached_tokens")),
            prompt_tokens: count(below(usage, "prompt_tokens")),
            completion_tokens: count(below(usage, "completion_tokens")),
            model_load_duration: notation(below(usage, "model_load_duration")),
        },
        latency_ms,
    }
}

/// Reads the text of a reply.
pub fn read_response(reply: &str, latency_ms: u128) -> (r: Result<ChatResponse, String>)
    ensures
        match parsed(reply@) {
            Ok(body) => r is Ok && response_of(body, latency_ms, r->Ok_0),
            Err(e) => r is Err && r->Err_0@ == "解析响应失败: Failed to read JSON: "@ + e,
        },
{
    match Json::parse(reply) {
        Ok(body) => Ok(chat_response(&body, latency_ms)),
        Err(e) => {
            let mut m = "解析响应失败: Failed to read JSON: ".to_string();
            m.append(e.as_str());
            Err(m)
        },
    }
}

/// Why a call brought no reply.
pub enum HttpFailure {
    Status(u16),
    Transport(String),
}

pub open spec fn failure_spec(f: HttpFailure, base_url: Seq<char>) -> Seq<char> {
    match f {
        HttpFailure::Status(401) => "401: API key 无效(检查 LLM_API_KEY / localai.yml server.api_key)"@,
        HttpFailure::Status(403) => "403: 无权限"@,
        HttpFailure::Status(404) => "404: 端点不存在(确认 "@ + base_url + " 是 OpenAI 兼容服务)"@,
        HttpFailure::Status(code) => "HTTP "@ + decimal_spec(code as nat),
        HttpFailure::Transport(t) => "网络错误(无法连接 "@ + base_url + "): "@ + t@,
    }
}

/// The message for a call that failed.
pub fn failure_message(f: &HttpFailure, base_url: &str) -> (r: String)
    ensures
        r@ == failure_spec(*f, base_url@),
{
    match f {
        HttpFailure::Status(code) => {
            if *code == 401 {
                "401: API key 无效(检查 LLM_API_KEY / localai.yml server.api_key)".to_string()
            } else if *code == 403 {
                "403: 无权限".to_string()
            } else if *code == 404 {
                let mut m = "404: 端点不存在(确认 ".to_string();
                m.append(base_url);
                m.append(" 是 OpenAI 兼容服务)");
                m
            } else {
                let mut m = "HTTP ".to_string();
                m.append(decimal(*code as u128).as_str());
                m
            }
        },
        HttpFailure::Transport(t) => {
            let mut m = "网络错误(无法连接 ".to_string();
            m.append(base_url);
            m.append("): ");
            m.append(t.as_str());
            m
        },
    }
}

// ---- the client ----

/// The settings of the client, the model that was chosen at run time, and the
/// permits for its calls.
pub struct LlmClient {
    pub config: LlmConfig,
    pub model_override: Option<String>,
    pub permits: Semaphore,
}

impl LlmClient {
    /// The model in force: the one chosen at run time, or the configured one.
    pub open spec fn model_spec(&self) -> Seq<char> {
        match self.model_override {
            Some(m) => m@,
            None => self.config.model@,
        }
    }

    pub fn new(config: LlmConfig) -> (r: LlmClient)
        ensures
            r.config == config,
            r.model_override is None,
            r.permits.free == (if config.max_concurrent == 0 {
                1
            } else {
                config.max_concurrent
            }),
    {
        let permits: usize = if config.max_concurrent == 0 {
            1
        } else {
            config.max_concurrent
        };
        LlmClient { config, model_override: None, permits: Semaphore::new(permits) }
    }

    /// How long a call may take, in seconds: never less than five.
    pub fn timeout_secs(&self) -> (r: u64)
        ensures
            r == (if self.config.timeout_secs < 5 {
                5
            } else {
                self.config.timeout_secs
            }),
    {
        if self.config.timeout_secs < 5 {
            5
        } else {
            self.config.timeout_secs
        }
    }

    pub fn base_url(&self) -> (r: &str)
        ensures
            r@ == self.config.base_url@,
    {
        self.config.base_url.as_str()
    }

    /// The model in force.
    pub fn model(&self) -> (r: String)
        ensures
            r@ == self.model_spec(),
    {
        match &self.model_override {
            Some(m) => m.clone(),
            None => self.config.model.clone(),
        }
    }

    pub fn set_model(&mut self, m: String)
        ensures
            final(self).model_spec() == m@,
            final(self).config == old(self).config,
            final(self).permits == old(self).permits,
    {
        self.model_override = Some(m);
    }

    /// Puts the model that options name into force, where they name one.
    pub fn choose_model(&mut self, named: &Option<String>)
        ensures
            final(self).model_spec() == (match *named {
                Some(m) => m@,
                None => old(self).model_spec(),
            }),
            final(self).config == old(self).config,
            final(self).permits == old(self).permits,
    {
        if let Some(m) = named {
            self.set_model(m.clone());
        }
    }

    pub fn default_model(&self) -> (r: &str)
        ensures
            r@ == self.config.model@,
    {
        self.config.model.as_str()
    }

    /// The HTTP call that carries a request.
    pub fn chat(&self, req: &ChatRequest) -> (r: HttpCall)
        ensures
            r.url@ == strip_trailing_spec(self.config.base_url@, '/') + "/v1/chat/completions"@,
            r.authorization@ == "Bearer "@ + self.config.api_key@,
            r.body@ == body_spec(req@),
    {
        let mut url = strip_trailing(self.config.base_url.as_str(), '/');
        url.append("/v1/chat/completions");
        let mut authorization = "Bearer ".to_string();
        authorization.append(self.config.api_key.as_str());
        HttpCall { url, authorization, body: request_body(req) }
    }
}

}  // verus!
