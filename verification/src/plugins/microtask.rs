//! The microtask plugin: small questions on the side. After every answer two are
//! asked at once; a command shows a chain of them.

use crate::cordis::context::{
    provided_spec, service_at, Context, ContextView, KindView, ProvidedView,
};
use crate::cordis::event::Event;
use crate::cordis::plugin::{
    grows_counted, grows_provided, grows_reflexive, grows_registered, names, Plugin,
};
use crate::cordis::service::Service;
use crate::events::SessionReply;
use crate::json::{field_of, items_of, text_of, Json, JsonView};
use crate::llm::micro::{task_views, MicroEngine, MicroOutcome, MicroTask, TaskView};
use crate::llm::LlmService;
use crate::text::number::{decimal, decimal_spec};
use crate::text::{join, join_spec, pad_right, pad_right_spec, texts};
use vstd::prelude::*;
use vstd::string::*;

verus! {

#[derive(Debug)]
pub struct MicroOptions {
    pub model: Option<String>,
    pub max_retries: u32,
}

/// How often a call is tried again unless the options say otherwise.
pub fn default_retries() -> (r: u32)
    ensures
        r == 2,
{
    2
}

impl Default for MicroOptions {
    fn default() -> (r: MicroOptions)
        ensures
            r.model is None,
            r.max_retries == 2,
    {
        MicroOptions { model: None, max_retries: default_retries() }
    }
}

pub struct MicroService {
    pub engine: MicroEngine,
}

impl Service for MicroService {
    open spec fn key_spec() -> u64 {
        6
    }

    open spec fn title() -> Seq<char> {
        "micro"@
    }

    fn key() -> (r: u64) {
        6
    }

    fn service_name_static() -> (r: &'static str) {
        "micro"
    }
}

pub const CLASSIFY_SYSTEM: &'static str = "你是意图分类器。把用户消息分类为:greeting(问候)、question(提问)、command(指令)、chitchat(闲聊)。只输出 JSON:{\"intent\": \"...\", \"confidence\": 0.0-1.0 的小数}";

pub const TAGS_SYSTEM: &'static str = "你是关键词提取器。从文本提取 1-3 个最核心的关键词/短语。只输出 JSON:{\"tags\": [\"...\"]}";

pub const TITLE_SYSTEM: &'static str = "你是标题生成器。为给定内容生成不超过 12 个字的简短标题。只输出 JSON:{\"title\": \"...\"}";

pub const SUMMARY_SYSTEM: &'static str = "你是摘要器。把用户输入压缩成不超过 40 字的一句话摘要。只输出 JSON:{\"summary\": \"...\"}";

/// What the chain is shown with where nothing is given.
pub const SAMPLE_INPUT: &'static str = "帮我写一个 rust 的 http server";

/// What the command says at once.
pub const PIPELINE_STARTED: &'static str = "micro 流水线已启动(4 次微调用,约 2-4 秒)";

// ---- questions ----

pub open spec fn task_spec(
    name: Seq<char>,
    system: Seq<char>,
    input: Seq<char>,
    max_tokens: u32,
) -> TaskView {
    TaskView { name, system, input, max_tokens }
}

/// What is asked after every answer: what the user wanted, and what the answer
/// is about.
pub fn ambient_tasks(user_text: &str, reply: &str) -> (r: Vec<MicroTask>)
    ensures
        task_views(r@) == seq![
            task_spec("classify"@, CLASSIFY_SYSTEM@, user_text@, 60),
            task_spec("tags"@, TAGS_SYSTEM@, reply@, 80),
        ],
{
    let mut v: Vec<MicroTask> = Vec::new();
    v.push(
        MicroTask {
            name: "classify",
            system: CLASSIFY_SYSTEM.to_string(),
            input: user_text.to_string(),
            max_tokens: 60,
        },
    );
    v.push(
        MicroTask {
            name: "tags",
            system: TAGS_SYSTEM.to_string(),
            input: reply.to_string(),
            max_tokens: 80,
        },
    );
    assert(task_views(v@) =~= seq![
        task_spec("classify"@, CLASSIFY_SYSTEM@, user_text@, 60),
        task_spec("tags"@, TAGS_SYSTEM@, reply@, 80),
    ]);
    v
}

/// What the chain works on.
pub fn pipeline_input(rest: &str) -> (r: String)
    ensures
        r@ == (if rest@.len() == 0 {
            SAMPLE_INPUT@
        } else {
            rest@
        }),
{
    if rest.unicode_len() == 0 {
        SAMPLE_INPUT.to_string()
    } else {
        rest.to_string()
    }
}

/// The status line at the beginning of the chain.
pub fn pipeline_status(input: &str) -> (r: String)
    ensures
        r@ == "[micro] 流水线开始: "@ + input@,
{
    let mut m = "[micro] 流水线开始: ".to_string();
    m.append(input);
    m
}

/// The first question of the chain.
pub fn pipeline_first(input: &str) -> (r: MicroTask)
    ensures
        r@ == task_spec("classify"@, CLASSIFY_SYSTEM@, input@, 60),
{
    MicroTask {
        name: "classify",
        system: CLASSIFY_SYSTEM.to_string(),
        input: input.to_string(),
        max_tokens: 60,
    }
}

/// The questions that the chain asks at once.
pub fn pipeline_tasks(input: &str) -> (r: Vec<MicroTask>)
    ensures
        task_views(r@) == seq![
            task_spec("title"@, TITLE_SYSTEM@, input@, 60),
            task_spec("tags"@, TAGS_SYSTEM@, input@, 80),
            task_spec("summary"@, SUMMARY_SYSTEM@, input@, 120),
        ],
{
    let mut v: Vec<MicroTask> = Vec::new();
    v.push(
        MicroTask {
            name: "title",
            system: TITLE_SYSTEM.to_string(),
            input: input.to_string(),
            max_tokens: 60,
        },
    );
    v.push(
        MicroTask {
            name: "tags",
            system: TAGS_SYSTEM.to_string(),
            input: input.to_string(),
            max_tokens: 80,
        },
    );
    v.push(
        MicroTask {
            name: "summary",
            system: SUMMARY_SYSTEM.to_string(),
            input: input.to_string(),
            max_tokens: 120,
        },
    );
    assert(task_views(v@) =~= seq![
        task_spec("title"@, TITLE_SYSTEM@, input@, 60),
        task_spec("tags"@, TAGS_SYSTEM@, input@, 80),
        task_spec("summary"@, SUMMARY_SYSTEM@, input@, 120),
    ]);
    v
}

// ---- answers ----

/// The texts among some values, in order.
pub open spec fn plain_texts(items: Seq<JsonView>) -> Seq<Seq<char>>
    decreases items.len(),
{
    if items.len() == 0 {
        Seq::empty()
    } else {
        let rest = plain_texts(items.drop_last());
        match text_of(items.last()) {
            Some(s) => rest.push(s),
            None => rest,
        }
    }
}

/// What is shown of a value: a text itself, a list as its texts with commas, of
/// an object its first value, and anything else as it is written.
pub open spec fn first_value(j: JsonView) -> Seq<char>
    decreases j,
{
    match j {
        JsonView::Text(s) => s,
        JsonView::List(items) => join_spec(plain_texts(items), ","@),
        JsonView::Object(fields) => if fields.len() > 0 {
            first_value(fields[0].1)
        } else {
            "?"@
        },
        JsonView::Null => "null"@,
        JsonView::Bool(b) => if b {
            "true"@
        } else {
            "false"@
        },
        JsonView::Number(_, n) => n,
    }
}

fn texts_in(items: &Vec<&Json>, Ghost(all): Ghost<Seq<JsonView>>) -> (r: Vec<String>)
    requires
        items@.len() == all.len(),
        forall|k: int| 0 <= k < all.len() ==> (#[trigger] items@[k])@ == all[k],
    ensures
        texts(r@) == plain_texts(all),
{
    let mut out: Vec<String> = Vec::new();
    let mut i: usize = 0;
    assert(all.take(0).len() == 0);
    while i < items.len()
        invariant
            i <= items@.len(),
            items@.len() == all.len(),
            forall|k: int| 0 <= k < all.len() ==> (#[trigger] items@[k])@ == all[k],
            texts(out@) =~= plain_texts(all.take(i as int)),
        decreases items@.len() - i,
    {
        assert(all[i as int] == items@[i as int]@);
        assert(all.take(i as int + 1).drop_last() =~= all.take(i as int));
        if let Some(s) = items[i].as_str() {
            out.push(s);
        }
        i += 1;
    }
    assert(all.take(i as int) =~= all);
    out
}

/// What is shown of a value.
pub fn first_value_string(v: &Json) -> (r: String)
    ensures
        r@ == first_value(v@),
    decreases *v,
{
    match v {
        Json::Text(s) => s.clone(),
        Json::List(_) => {
            let items = v.items();
            join(&texts_in(&items, Ghost(items_of(v@))), ",")
        },
        Json::Object(fields) => {
            if fields.len() > 0 {
                assert(v@->Object_0[0].1 == fields@[0].1@);
                first_value_string(&fields[0].1)
            } else {
                "?".to_string()
            }
        },
        Json::Null => "null".to_string(),
        Json::Bool(b) => {
            if *b {
                "true".to_string()
            } else {
                "false".to_string()
            }
        },
        Json::Number(_, n) => n.clone(),
    }
}

/// The tree of an answer; null where there is none.
pub open spec fn answer_tree(r: Result<MicroOutcome, String>) -> JsonView {
    match r {
        Ok(o) => match o.json {
            Some(j) => j@,
            None => JsonView::Null,
        },
        Err(_) => JsonView::Null,
    }
}

fn answer_json(r: &Result<MicroOutcome, String>) -> (j: Option<&Json>)
    ensures
        (match j {
            Some(v) => v@,
            None => JsonView::Null,
        }) == answer_tree(*r),
{
    match r {
        Ok(o) => match &o.json {
            Some(j) => Some(j),
            None => None,
        },
        Err(_) => None,
    }
}

/// What the answers after a reply say.
pub open spec fn ambient_parts(classify: JsonView, tags: JsonView) -> Seq<Seq<char>> {
    let intent = match text_of(field_of(classify, "intent"@)) {
        Some(s) => seq!["意图="@ + s],
        None => Seq::empty(),
    };
    let words = plain_texts(items_of(field_of(tags, "tags"@)));
    let keywords = if words.len() > 0 {
        seq!["关键词="@ + join_spec(words, ","@)]
    } else {
        Seq::empty()
    };
    intent + keywords
}

/// The status line after a reply.
pub fn ambient_status(
    classify: &Result<MicroOutcome, String>,
    tags: &Result<MicroOutcome, String>,
    elapsed: &str,
) -> (r: String)
    ensures
        ({
            let parts = ambient_parts(answer_tree(*classify), answer_tree(*tags));
            r@ == (if parts.len() == 0 {
                "[micro] 环境微调用失败 ("@ + elapsed@ + ")"@
            } else {
                "[micro] "@ + join_spec(parts, " | "@) + " ("@ + elapsed@ + ")"@
            })
        }),
{
    let mut parts: Vec<String> = Vec::new();
    if let Some(v) = answer_json(classify) {
        if let Some(intent) = v.field_str("intent") {
            let mut m = "意图=".to_string();
            m.append(intent.as_str());
            parts.push(m);
        }
    }
    let ghost head = texts(parts@);
    if let Some(v) = answer_json(tags) {
        if let Some(list) = v.field("tags") {
            let items = list.items();
            let words = texts_in(&items, Ghost(items_of(list@)));
            if words.len() > 0 {
                let mut m = "关键词=".to_string();
                m.append(join(&words, ",").as_str());
                parts.push(m);
            }
        }
    }
    assert(texts(parts@) =~= ambient_parts(answer_tree(*classify), answer_tree(*tags)));
    if parts.len() == 0 {
        let mut m = "[micro] 环境微调用失败 (".to_string();
        m.append(elapsed);
        m.append(")");
        m
    } else {
        let mut m = "[micro] ".to_string();
        m.append(join(&parts, " | ").as_str());
        m.append(" (");
        m.append(elapsed);
        m.append(")");
        m
    }
}

/// One line of the report of the chain.
pub open spec fn report_line(o: Result<MicroOutcome, String>) -> Seq<char> {
    match o {
        Ok(out) => "[micro] "@ + pad_right_spec(out.task@, 8) + " "@ + (match out.json {
            Some(j) => first_value(j@),
            None => "?"@,
        }) + " ("@ + decimal_spec(out.latency_ms as nat) + ")"@,
        Err(e) => "[micro] "@ + e@,
    }
}

/// The report of the chain: what the user wanted, each answer, and the times of
/// the stages.
pub open spec fn report_spec(
    classify: JsonView,
    outs: Seq<Result<MicroOutcome, String>>,
    first: Seq<char>,
    second: Seq<char>,
    total: Seq<char>,
) -> Seq<Seq<char>> {
    let intent = match text_of(field_of(classify, "intent"@)) {
        Some(s) => s,
        None => "解析失败"@,
    };
    seq!["[micro] 意图: "@ + intent + " (阶段1 "@ + first + ")"@] + outs.map_values(
        |o: Result<MicroOutcome, String>| report_line(o),
    ) + seq!["[micro] 阶段1="@ + first + " 阶段2(3 并行)="@ + second + " 总计="@ + total]
}

fn report_one(o: &Result<MicroOutcome, String>) -> (r: String)
    ensures
        r@ == report_line(*o),
{
    match o {
        Ok(out) => {
            let value = match &out.json {
                Some(j) => first_value_string(j),
                None => "?".to_string(),
            };
            let mut m = "[micro] ".to_string();
            m.append(pad_right(out.task, 8).as_str());
            m.append(" ");
            m.append(value.as_str());
            m.append(" (");
            m.append(decimal(out.latency_ms).as_str());
            m.append(")");
            m
        },
        Err(e) => {
            let mut m = "[micro] ".to_string();
            m.append(e.as_str());
            m
        },
    }
}

/// The report of the chain.
pub fn pipeline_report(
    classify: &Result<MicroOutcome, String>,
    outs: &Vec<Result<MicroOutcome, String>>,
    first: &str,
    second: &str,
    total: &str,
) -> (r: Vec<String>)
    ensures
        texts(r@) == report_spec(answer_tree(*classify), outs@, first@, second@, total@),
{
    let intent = match answer_json(classify) {
        Some(v) => match v.field_str("intent") {
            Some(s) => s,
            None => "解析失败".to_string(),
        },
        None => "解析失败".to_string(),
    };
    let mut lines: Vec<String> = Vec::new();
    let mut head = "[micro] 意图: ".to_string();
    head.append(intent.as_str());
    head.append(" (阶段1 ");
    head.append(first);
    head.append(")");
    let ghost h = head@;
    lines.push(head);
    let mut i: usize = 0;
    while i < outs.len()
        invariant
            i <= outs@.len(),
            lines@.len() == i + 1,
            lines@[0]@ == h,
            forall|k: int| 1 <= k <= i ==> (#[trigger] lines@[k])@ == report_line(outs@[k - 1]),
        decreases outs@.len() - i,
    {
        lines.push(report_one(&outs[i]));
        i += 1;
    }
    let mut tail = "[micro] 阶段1=".to_string();
    tail.append(first);
    tail.append(" 阶段2(3 并行)=");
    tail.append(second);
    tail.append(" 总计=");
    tail.append(total);
    lines.push(tail);
    assert(texts(lines@) =~= report_spec(
        answer_tree(*classify),
        outs@,
        first@,
        second@,
        total@,
    ));
    lines
}

// ---- the plugin ----

pub struct MicroTaskPlugin;

pub fn factory() -> (r: MicroTaskPlugin)
    ensures
        r == MicroTaskPlugin,
{
    MicroTaskPlugin
}

/// The context with what the microtask plugin registers.
pub open spec fn microtask_applied(c: ContextView, scope: u64) -> ContextView {
    provided_spec(
        ContextView { next: (c.next + 1) as u64, ..c },
        scope,
        ProvidedView {
            key: MicroService::key_spec(),
            name: MicroService::title(),
            instance: c.next,
        },
    ).registered(scope, KindView::Listener(SessionReply::key_spec())).registered(
        scope,
        KindView::Command("micro"@),
    )
}

/// What comes of applying the plugin: the context after it, and whether it was
/// done.
pub open spec fn microtask_outcome(c: ContextView, scope: u64, options: Result<MicroOptions, String>) -> (
    ContextView,
    Result<(), Seq<char>>,
) {
    if service_at(c.services, LlmService::key_spec()) is None {
        (c, Err("缺少 llm 服务"@))
    } else {
        match options {
            Err(e) => (c, Err(e@)),
            Ok(_) => (microtask_applied(c, scope), Ok(())),
        }
    }
}

impl Plugin for MicroTaskPlugin {
    type Options = Result<MicroOptions, String>;

    open spec fn title(&self) -> Seq<char> {
        "microtask"@
    }

    open spec fn needs(&self) -> Seq<Seq<char>> {
        seq!["llm"@]
    }

    open spec fn demand(&self) -> nat {
        3
    }

    open spec fn may_come_to(
        &self,
        before: ContextView,
        scope: u64,
        options: Result<MicroOptions, String>,
        after: ContextView,
        r: Result<(), Seq<char>>,
    ) -> bool {
        (after, r) == microtask_outcome(before, scope, options)
    }

    fn name(&self) -> (r: &'static str) {
        "microtask"
    }

    fn inject(&self) -> (r: Vec<&'static str>) {
        let mut v: Vec<&'static str> = Vec::new();
        v.push("llm");
        assert(names(v@) =~= seq!["llm"@]);
        v
    }

    /// Provides the service, listens to answers, and registers the command.
    fn apply(&self, ctx: &mut Context, scope: u64, options: Result<MicroOptions, String>) -> (r:
        Result<(), String>)
    {
        let ghost before = ctx@;
        proof {
            grows_reflexive(before, scope);
        }
        if !ctx.has_service::<LlmService>() {
            return Err("缺少 llm 服务".to_string());
        }
        if let Err(e) = options {
            return Err(e);
        }
        let instance: u64 = ctx.next_id();
        proof {
            grows_counted(before, before, scope);
        }
        let ghost counted = ctx@;
        ctx.provide::<MicroService>(scope, instance);
        let ghost provided = ctx@;
        proof {
            grows_provided(
                before,
                counted,
                scope,
                ProvidedView {
                    key: MicroService::key_spec(),
                    name: MicroService::title(),
                    instance,
                },
            );
            grows_registered(
                before,
                provided,
                scope,
                KindView::Listener(SessionReply::key_spec()),
            );
        }
        ctx.on::<SessionReply>(scope);
        let ghost listening = ctx@;
        proof {
            grows_registered(before, listening, scope, KindView::Command("micro"@));
        }
        ctx.on_command(scope, "micro");
        Ok(())
    }
}

}  // verus!
