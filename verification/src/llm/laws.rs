//! What holds of the model layer as a whole: what is sent is what was to be said,
//! and what is read is what was answered.

use crate::json::{
    absent_fields_are_null, field_of, fields_are_found, parsed, unsigned_of, Json, JsonView,
};
use crate::llm::client::{
    body_spec, chat_response, failure_message, failure_spec, message_json, message_views,
    read_response, request_body, said, ChatRequest, ChatResponse, HttpCall, HttpFailure, LlmClient,
    LlmConfig, MessageView, Semaphore,
};
use crate::llm::compress::{
    audit_line, audit_matches, audit_messages, audit_of, audit_system, entry_views, numbers_of,
    parse_audit, parse_score, reaudit_list, score_matches, score_of, score_system_spec,
    trimmed_of, trimmed_texts, AuditOutcome, Compressor, EntryScore, HistoryEntry, AUDIT_BODY,
    AUDIT_CRITICAL, AUDIT_HEAD, AUDIT_MEMORY, AUDIT_TAIL, REAUDIT_BLOCK, SCORE_HEAD, SCORE_RUBRIC,
};
use crate::llm::micro::{
    braced, candidates, candidates_spec, extract_json, fenced, first_parsed, last_at,
    no_json_message, whole_answers_come_first, MicroEngine, MicroStep, MicroTask,
};
use crate::text::laws::{joined_texts_stand, stripped_texts_go_with_the_rest};
use crate::text::number::{
    decimal_is_read_off, decimal_spec, digits_value, is_digit, numbers_are_written_in_digits,
};
use crate::text::search::occurs_at;
use crate::text::split::{upto, upto_is_first};
use crate::text::trim::{strip_trailing_spec, stripping_is_exact, trim_spec};
use crate::text::{clip_spec, join_spec, texts};
use vstd::prelude::*;
use vstd::string::*;

verus! {

// ---- what is sent ----

proof fn body_names()
    ensures
        "model"@ != "messages"@,
        "model"@ != "max_tokens"@,
        "model"@ != "stream"@,
        "model"@ != "response_format"@,
        "model"@ != "chat_template_kwargs"@,
        "messages"@ != "max_tokens"@,
        "messages"@ != "stream"@,
        "messages"@ != "response_format"@,
        "messages"@ != "chat_template_kwargs"@,
        "max_tokens"@ != "stream"@,
        "max_tokens"@ != "response_format"@,
        "max_tokens"@ != "chat_template_kwargs"@,
        "stream"@ != "response_format"@,
        "stream"@ != "chat_template_kwargs"@,
        "response_format"@ != "chat_template_kwargs"@,
        "role"@ != "content"@,
{
    reveal_strlit("model");
    reveal_strlit("messages");
    reveal_strlit("max_tokens");
    reveal_strlit("stream");
    reveal_strlit("response_format");
    reveal_strlit("chat_template_kwargs");
    reveal_strlit("role");
    reveal_strlit("content");
    assert("model"@.len() == 5);
    assert("messages"@.len() == 8);
    assert("max_tokens"@.len() == 10);
    assert("stream"@.len() == 6);
    assert("response_format"@.len() == 15);
    assert("chat_template_kwargs"@.len() == 20);
    assert("role"@.len() == 4);
    assert("content"@.len() == 7);
}

/// A message is sent with who says it and what is said.
proof fn message_fields(m: MessageView)
    ensures
        field_of(message_json(m), "role"@) == JsonView::Text(m.role),
        field_of(message_json(m), "content"@) == JsonView::Text(m.content),
{
    body_names();
    let fields = message_json(m)->Object_0;
    fields_are_found(fields, "role"@, 0);
    fields_are_found(fields, "content"@, 1);
}

/// A request is sent whole: the body names the model, and holds every message in
/// its place, with who says it and what is said, and the limit of the answer.
pub proof fn every_message_is_sent(req: ChatRequest, r: Json, i: int)
    requires
        call_ensures(request_body, (&req,), r),
    ensures
        field_of(r@, "model"@) == JsonView::Text(req.model@),
        field_of(r@, "messages"@) is List,
        field_of(r@, "messages"@)->List_0.len() == req.messages@.len(),
        0 <= i < req.messages@.len() ==> {
            let sent = field_of(r@, "messages"@)->List_0[i];
            &&& field_of(sent, "role"@) == JsonView::Text(req.messages@[i].role@)
            &&& field_of(sent, "content"@) == JsonView::Text(req.messages@[i].content@)
        },
        field_of(r@, "max_tokens"@) matches JsonView::Number(n, s) && n == Some(
            req.max_tokens as u64,
        ) && digits_value(s) == req.max_tokens,
        field_of(r@, "stream"@) == JsonView::Bool(false),
{
    assert(r@ == body_spec(req@));
    body_names();
    let fields = r@->Object_0;
    fields_are_found(fields, "model"@, 0);
    fields_are_found(fields, "messages"@, 1);
    fields_are_found(fields, "max_tokens"@, 2);
    fields_are_found(fields, "stream"@, 3);
    numbers_are_written_in_digits(req.max_tokens as nat, 0);
    if 0 <= i < req.messages@.len() {
        message_fields(req@.messages[i]);
        assert(req@.messages[i] == req.messages@[i]@);
    }
}

/// A request asks for JSON exactly if it is to be answered so, and forbids the
/// model to think exactly if it must not.
pub proof fn demands_are_sent(req: ChatRequest, r: Json)
    requires
        call_ensures(request_body, (&req,), r),
    ensures
        req.json ==> field_of(field_of(r@, "response_format"@), "type"@) == JsonView::Text(
            "json_object"@,
        ),
        !req.json ==> field_of(r@, "response_format"@) == JsonView::Null,
        !req.enable_thinking ==> field_of(
            field_of(r@, "chat_template_kwargs"@),
            "enable_thinking"@,
        ) == JsonView::Bool(false),
        req.enable_thinking ==> field_of(r@, "chat_template_kwargs"@) == JsonView::Null,
{
    assert(r@ == body_spec(req@));
    body_names();
    let fields = r@->Object_0;
    if req.json {
        fields_are_found(fields, "response_format"@, 4);
        fields_are_found(fields[4].1->Object_0, "type"@, 0);
    } else {
        absent_fields_are_null(r@, "response_format"@);
    }
    if !req.enable_thinking {
        let k = if req.json {
            5int
        } else {
            4
        };
        fields_are_found(fields, "chat_template_kwargs"@, k);
        fields_are_found(fields[k].1->Object_0, "enable_thinking"@, 0);
    } else {
        absent_fields_are_null(r@, "chat_template_kwargs"@);
    }
}

/// A request goes to the server that is configured, whether or not its address ends
/// in slashes, with the key that is configured, and carries the request.
pub proof fn calls_go_to_the_server(c: LlmClient, req: ChatRequest, h: HttpCall, i: int)
    requires
        call_ensures(LlmClient::chat, (&c, &req), h),
    ensures
        exists|n: int|
            #![trigger c.config.base_url@.take(n)]
            0 <= n <= c.config.base_url@.len() && h.url@ == c.config.base_url@.take(n)
                + "/v1/chat/completions"@ && (n > 0 ==> c.config.base_url@[n - 1] != '/') && (
            forall|k: int| n <= k < c.config.base_url@.len() ==> c.config.base_url@[k] == '/'),
        "Bearer "@.is_prefix_of(h.authorization@),
        c.config.api_key@.is_suffix_of(h.authorization@),
        h.authorization@.len() == "Bearer "@.len() + c.config.api_key@.len(),
        field_of(h.body@, "messages"@)->List_0.len() == req.messages@.len(),
        0 <= i < req.messages@.len() ==> field_of(
            field_of(h.body@, "messages"@)->List_0[i],
            "content"@,
        ) == JsonView::Text(req.messages@[i].content@),
{
    let url = c.config.base_url@;
    let stem = strip_trailing_spec(url, '/');
    stripping_is_exact(url, '/');
    assert(stem =~= url.take(stem.len() as int));
    if stem.len() > 0 {
        assert(stem.last() == url[stem.len() - 1]);
    }
    assert(url.take(stem.len() as int) == stem);
    let a = h.authorization@;
    assert("Bearer "@ =~= a.subrange(0, "Bearer "@.len() as int));
    assert(c.config.api_key@ =~= a.subrange("Bearer "@.len() as int, a.len() as int));
    assert(h.body@ == body_spec(req@));
    body_names();
    fields_are_found(h.body@->Object_0, "messages"@, 1);
    if 0 <= i < req.messages@.len() {
        message_fields(req@.messages[i]);
        assert(req@.messages[i] == req.messages@[i]@);
    }
}

/// The model that is chosen last is in force; until one is, the configured one is.
pub proof fn the_chosen_model_is_in_force(config: LlmConfig, c: LlmClient, m: String, r: String)
    ensures
        call_ensures(LlmClient::new, (config,), c) && call_ensures(LlmClient::model, (&c,), r)
            ==> r@ == config.model@,
        forall|s: &mut LlmClient|
            #[trigger] call_ensures(LlmClient::set_model, (s, m), ()) && call_ensures(
                LlmClient::model,
                (&*final(s),),
                r,
            ) ==> r@ == m@,
{
}

/// A permit is granted exactly if one is free, and is free again when it was given back.
pub proof fn permits_are_counted(n: usize, s: Semaphore, granted: bool)
    requires
        call_ensures(Semaphore::new, (n,), s),
    ensures
        s.free == n,
        forall|p: &mut Semaphore|
            #[trigger] call_ensures(Semaphore::acquire, (p,), granted) ==> {
                &&& granted <==> p.free > 0
                &&& granted ==> final(p).free == p.free - 1
                &&& !granted ==> final(p).free == p.free
            },
        forall|p: &mut Semaphore|
            #[trigger] call_ensures(Semaphore::release, (p,), ()) && p.free < usize::MAX ==> final(p).free == p.free + 1,
{
}

/// A client works by its settings: as many calls at once as are set, and at least one;
/// each with the time that is set, and at least five seconds; to the server and by the
/// model that are set. A model that options name is put into force, and without one the
/// model in force stays.
pub proof fn clients_work_by_their_settings(
    config: LlmConfig,
    c: LlmClient,
    secs: u64,
    url: &str,
    model: &str,
    named: Option<String>,
    before: String,
    after: String,
)
    requires
        call_ensures(LlmClient::new, (config,), c),
        call_ensures(LlmClient::timeout_secs, (&c,), secs),
        call_ensures(LlmClient::base_url, (&c,), url),
        call_ensures(LlmClient::default_model, (&c,), model),
    ensures
        config.max_concurrent > 0 ==> c.permits.free == config.max_concurrent,
        config.max_concurrent == 0 ==> c.permits.free == 1,
        config.timeout_secs >= 5 ==> secs == config.timeout_secs,
        config.timeout_secs < 5 ==> secs == 5,
        url@ == config.base_url@,
        model@ == config.model@,
        forall|d: &mut LlmClient|
            #[trigger] call_ensures(LlmClient::choose_model, (d, &named), ()) && call_ensures(
                LlmClient::model,
                (&*d,),
                before,
            ) && call_ensures(LlmClient::model, (&*final(d),), after) ==> after@ == (
            if named is Some {
                named->0@
            } else {
                before@
            }),
{
}

// ---- what is read ----

/// What the model answered is read off the reply: the text under the message of the
/// first choice, and why it ended.
pub proof fn answers_are_read(body: Json, ms: u128, r: ChatResponse, text: Seq<char>)
    requires
        call_ensures(chat_response, (&body, ms), r),
    ensures
        ({
            let choices = field_of(body@, "choices"@);
            choices is List && choices->List_0.len() > 0 && field_of(
                field_of(choices->List_0[0], "message"@),
                "content"@,
            ) == JsonView::Text(text) ==> r.content@ == text
        }),
        ({
            let choices = field_of(body@, "choices"@);
            choices is List && choices->List_0.len() > 0 && field_of(
                choices->List_0[0],
                "finish_reason"@,
            ) == JsonView::Text(text) ==> r.finish_reason@ == text
        }),
        !(field_of(body@, "choices"@) is List) ==> r.content@.len() == 0,
        r.latency_ms == ms,
{
}

/// What a call used is read off the reply; a number that is not given is none.
pub proof fn usage_is_read(body: Json, ms: u128, r: ChatResponse, n: u64, s: Seq<char>)
    requires
        call_ensures(chat_response, (&body, ms), r),
        n <= u32::MAX,
    ensures
        ({
            let usage = field_of(body@, "usage"@);
            let number = JsonView::Number(Some(n), s);
            &&& field_of(usage, "prompt_tokens"@) == number ==> r.usage.prompt_tokens == Some(
                n as u32,
            )
            &&& field_of(usage, "completion_tokens"@) == number ==> r.usage.completion_tokens
                == Some(n as u32)
            &&& field_of(field_of(usage, "prompt_tokens_details"@), "cached_tokens"@) == number
                ==> r.usage.cached_tokens == Some(n as u32)
            &&& field_of(usage, "total_time"@) == number ==> r.usage.total_time is Some
                && r.usage.total_time->0@ == s
            &&& field_of(usage, "model_load_duration"@) == number
                ==> r.usage.model_load_duration is Some && r.usage.model_load_duration->0@ == s
            &&& field_of(usage, "prompt_tokens"@) is Null ==> r.usage.prompt_tokens is None
            &&& field_of(usage, "completion_tokens"@) is Null ==> r.usage.completion_tokens is None
            &&& field_of(usage, "total_time"@) is Null ==> r.usage.total_time is None
        }),
{
}

/// A reply that can be read gives its answer; one that cannot gives the reason.
pub proof fn replies_are_read(reply: &str, ms: u128, r: Result<ChatResponse, String>, text: Seq<char>)
    requires
        call_ensures(read_response, (reply, ms), r),
    ensures
        parsed(reply@) is Ok <==> r is Ok,
        parsed(reply@) is Err ==> parsed(reply@)->Err_0.is_suffix_of(r->Err_0@),
        parsed(reply@) is Ok ==> {
            let choices = field_of(parsed(reply@)->Ok_0, "choices"@);
            choices is List && choices->List_0.len() > 0 && field_of(
                field_of(choices->List_0[0], "message"@),
                "content"@,
            ) == JsonView::Text(text) ==> r->Ok_0.content@ == text
        },
{
    if let Err(e) = parsed(reply@) {
        let m = r->Err_0@;
        assert(e =~= m.subrange(m.len() - e.len(), m.len() as int));
    }
}

/// A failed call is told by its status, each with words of its own, or by what kept
/// it from the server.
pub proof fn failures_are_told_apart(
    a: u16,
    b: u16,
    url: &str,
    why: String,
    ra: String,
    rb: String,
    rc: String,
)
    requires
        call_ensures(failure_message, (&HttpFailure::Status(a), url), ra),
        call_ensures(failure_message, (&HttpFailure::Status(b), url), rb),
        call_ensures(failure_message, (&HttpFailure::Transport(why), url), rc),
    ensures
        a == 401 || a == 403 || a == 404 ==> decimal_spec(a as nat).is_prefix_of(ra@),
        !(a == 401 || a == 403 || a == 404) ==> decimal_spec(a as nat).is_suffix_of(ra@)
            && "HTTP "@.is_prefix_of(ra@) && ra@.len() == 5 + decimal_spec(a as nat).len(),
        a != b ==> ra@ != rb@,
        why@.is_suffix_of(rc@),
        a == 404 ==> exists|i: int| occurs_at(ra@, url@, i),
        exists|i: int| occurs_at(rc@, url@, i),
{
    status_words(a, url@, ra@);
    status_words(b, url@, rb@);
    if a != b && ra@ == rb@ {
        let x = decimal_spec(a as nat);
        let y = decimal_spec(b as nat);
        let known_a = a == 401 || a == 403 || a == 404;
        let known_b = b == 401 || b == 403 || b == 404;
        if known_a && known_b {
            assert(ra@ =~= x + ra@.skip(3));
            assert(rb@ =~= y + rb@.skip(3));
            decimal_is_read_off(a as nat, b as nat, ra@.skip(3), rb@.skip(3));
        } else if known_a {
            assert(ra@[0] == '4');
            assert(rb@[0] == 'H');
        } else if known_b {
            assert(ra@[0] == 'H');
            assert(rb@[0] == '4');
        } else {
            assert(ra@.skip(5) =~= x + Seq::empty());
            assert(rb@.skip(5) =~= y + Seq::empty());
            decimal_is_read_off(a as nat, b as nat, Seq::empty(), Seq::empty());
        }
    }
    let m = rc@;
    assert(m == failure_spec(HttpFailure::Transport(why), url@));
    assert(why@ =~= m.subrange(m.len() - why@.len(), m.len() as int));
    let n = "网络错误(无法连接 "@.len() as int;
    assert(m.subrange(n, n + url@.len()) =~= url@);
    assert(occurs_at(m, url@, n));
    if a == 404 {
        let k = "404: 端点不存在(确认 "@.len() as int;
        assert(ra@.subrange(k, k + url@.len()) =~= url@);
        assert(occurs_at(ra@, url@, k));
    }
}

proof fn status_words(code: u16, url: Seq<char>, m: Seq<char>)
    requires
        m == failure_spec(HttpFailure::Status(code), url),
    ensures
        ({
            let d = decimal_spec(code as nat);
            if code == 401 || code == 403 || code == 404 {
                d.len() == 3 && d.is_prefix_of(m) && m.len() > 3 && !is_digit(m[3]) && m[0] == '4'
            } else {
                m.len() == 5 + d.len() && m.skip(5) == d && d.is_suffix_of(m) && "HTTP "@.is_prefix_of(
                    m,
                ) && m[0] == 'H'
            }
        }),
{
    reveal_strlit("401: API key 无效(检查 LLM_API_KEY / localai.yml server.api_key)");
    reveal_strlit("403: 无权限");
    reveal_strlit("404: 端点不存在(确认 ");
    reveal_strlit("HTTP ");
    reveal_with_fuel(decimal_spec, 4);
    let d = decimal_spec(code as nat);
    if code == 401 || code == 403 || code == 404 {
        assert(d =~= m.subrange(0, 3));
    } else {
        assert(m.skip(5) =~= d);
        assert(d =~= m.subrange(m.len() - d.len(), m.len() as int));
        assert("HTTP "@ =~= m.subrange(0, 5));
    }
}

// ---- scores and audits ----

/// An audit shows the whole history: the instruction first, then every entry as a
/// message of the user, with its number, its role and its whole content, and last the
/// old critical memories, where there are any, each of them.
pub proof fn every_entry_is_audited(
    c: Compressor,
    entries: Vec<HistoryEntry>,
    old_critical: Vec<String>,
    model: &str,
    r: ChatRequest,
    i: int,
    k: int,
)
    requires
        call_ensures(Compressor::audit, (&c, &entries, &old_critical, model), r),
    ensures
        r.model@ == model@,
        r.json,
        !r.enable_thinking,
        r.messages@.len() == 1 + entries@.len() + (if old_critical@.len() > 0 {
            1int
        } else {
            0
        }),
        r.messages@[0].role@ == "system"@,
        0 <= i < entries@.len() ==> {
            let m = r.messages@[i + 1];
            let number = "<seq="@ + decimal_spec(entries@[i].seq as nat) + ">"@;
            let role = "["@ + entries@[i].role@ + "]"@;
            &&& m.role@ == "user"@
            &&& number.is_prefix_of(m.content@)
            &&& occurs_at(m.content@, role, number.len() as int + 1)
            &&& entries@[i].content@.is_suffix_of(m.content@)
            &&& m.content@.len() == number.len() + 1 + role.len() + 1 + entries@[i].content@.len()
        },
        0 <= k < old_critical@.len() ==> {
            let m = r.messages@.last();
            m.role@ == "user"@ && exists|at: int| occurs_at(m.content@, "- "@ + old_critical@[k]@, at)
        },
{
    let ev = entry_views(entries@);
    let old = texts(old_critical@);
    let all = audit_messages(ev, old, c.memory_max_chars as nat, c.critical_max_items as nat);
    assert(message_views(r.messages@) == all);
    assert(r.messages@.len() == all.len());
    assert(message_views(r.messages@)[0] == r.messages@[0]@);
    if 0 <= i < entries@.len() {
        let e = entries@[i];
        assert(all[i + 1] == said("user"@, audit_line(ev[i])));
        assert(message_views(r.messages@)[i + 1] == r.messages@[i + 1]@);
        assert(ev[i] == e@);
        reveal_strlit("> [");
        reveal_strlit(">");
        reveal_strlit("[");
        reveal_strlit("]");
        reveal_strlit("]\n");
        let line = audit_line(e@);
        let number = "<seq="@ + decimal_spec(e.seq as nat) + ">"@;
        let role = "["@ + e.role@ + "]"@;
        let n = number.len() as int;
        assert(number =~= line.subrange(0, n));
        assert(role =~= line.subrange(n + 1, n + 1 + role.len()));
        assert(e.content@ =~= line.subrange(line.len() - e.content@.len(), line.len() as int));
    }
    if 0 <= k < old_critical@.len() {
        let items = old.map_values(|x: Seq<char>| "- "@ + x);
        let at = joined_texts_stand(items, "\n"@, k);
        let head = "待重审的旧关键记忆清单:\n"@;
        let list = reaudit_list(old);
        assert(all.last() == said("user"@, list));
        assert(message_views(r.messages@)[all.len() - 1] == r.messages@.last()@);
        assert(items[k] == "- "@ + old_critical@[k]@);
        let j = head.len() + at;
        assert(list.subrange(j, j + items[k].len()) =~= join_spec(items, "\n"@).subrange(
            at,
            at + items[k].len(),
        ));
        assert(occurs_at(list, items[k], j));
    }
}

/// An audit is told its limits: two that differ in how long the memory or the list of
/// critical memories may grow are not told the same.
pub proof fn limits_are_told(a: usize, b: usize, x: usize, y: usize, old: bool, r: String, s: String)
    requires
        call_ensures(audit_system, (a, x, old), r),
        call_ensures(audit_system, (b, y, old), s),
    ensures
        a != b || x != y ==> r@ != s@,
{
    if r@ == s@ {
        reveal_strlit(" 字,中文,信息密度最大化;\n- critical 每条一句话、可独立引用,不超过 ");
        reveal_strlit(" 条;\n- 最近 3 条是当前任务上下文,一律保留,不评分不丢弃。");
        let head = AUDIT_HEAD@ + SCORE_RUBRIC@ + AUDIT_BODY@ + (if old {
            REAUDIT_BLOCK@
        } else {
            ""@
        }) + AUDIT_MEMORY@;
        let n = head.len() as int;
        let l = AUDIT_CRITICAL@.len() as int;
        let p = decimal_spec(x as nat) + AUDIT_TAIL@;
        let q = decimal_spec(y as nat) + AUDIT_TAIL@;
        assert(r@.skip(n) =~= decimal_spec(a as nat) + (AUDIT_CRITICAL@ + p));
        assert(s@.skip(n) =~= decimal_spec(b as nat) + (AUDIT_CRITICAL@ + q));
        decimal_is_read_off(a as nat, b as nat, AUDIT_CRITICAL@ + p, AUDIT_CRITICAL@ + q);
        assert((AUDIT_CRITICAL@ + p).skip(l) =~= p);
        assert((AUDIT_CRITICAL@ + q).skip(l) =~= q);
        decimal_is_read_off(x as nat, y as nat, AUDIT_TAIL@, AUDIT_TAIL@);
    }
}

/// Old critical memories are put up for judgement exactly if there are any: the
/// instruction of an audit that has them is another one.
pub proof fn old_memories_are_put_up(n: usize, k: usize, without: String, with: String)
    requires
        call_ensures(audit_system, (n, k, false), without),
        call_ensures(audit_system, (n, k, true), with),
    ensures
        with@.len() == without@.len() + REAUDIT_BLOCK@.len(),
        exists|i: int| occurs_at(with@, REAUDIT_BLOCK@, i),
        exists|i: int| occurs_at(without@, SCORE_RUBRIC@, i),
{
    reveal_strlit("");
    let i = (AUDIT_HEAD@ + SCORE_RUBRIC@ + AUDIT_BODY@).len() as int;
    assert(with@.subrange(i, i + REAUDIT_BLOCK@.len()) =~= REAUDIT_BLOCK@);
    assert(occurs_at(with@, REAUDIT_BLOCK@, i));
    let j = AUDIT_HEAD@.len() as int;
    assert(without@.subrange(j, j + SCORE_RUBRIC@.len()) =~= SCORE_RUBRIC@);
    assert(occurs_at(without@, SCORE_RUBRIC@, j));
}

/// A message is scored by the rubric and by itself alone: the request holds the
/// instruction, and last the message as it was said.
pub proof fn a_message_is_scored_as_said(
    c: Compressor,
    e: HistoryEntry,
    model: &str,
    r: ChatRequest,
)
    requires
        call_ensures(Compressor::score_entry, (&c, &e, model), r),
    ensures
        r.model@ == model@,
        r.json,
        !r.enable_thinking,
        r.messages@.len() == 2,
        r.messages@[0].role@ == "system"@,
        exists|i: int| occurs_at(r.messages@[0].content@, SCORE_RUBRIC@, i),
        r.messages@[1].role@ == e.role@,
        r.messages@[1].content@ == e.content@,
{
    let views = message_views(r.messages@);
    assert(views == r@.messages);
    assert(views.len() == 2);
    assert(views[0] == r.messages@[0]@);
    assert(views[1] == r.messages@[1]@);
    let s = r.messages@[0].content@;
    assert(s == score_system_spec());
    let n = SCORE_HEAD@.len() as int;
    assert(s.subrange(n, n + SCORE_RUBRIC@.len()) =~= SCORE_RUBRIC@);
    assert(occurs_at(s, SCORE_RUBRIC@, n));
}

/// A score is read as it is given where it lies between one and five; one that lies
/// outside is moved to the nearest of these, and where none is given it is three.
/// What is to be remembered is read without the white space around it.
pub proof fn scores_are_read(v: Json, r: EntryScore, n: u64, s: Seq<char>)
    requires
        call_ensures(score_of, (&v,), r),
    ensures
        field_of(v@, "score"@) == JsonView::Number(Some(n), s) ==> {
            &&& 1 <= n <= 5 ==> r.score == n
            &&& n == 0 ==> r.score == 1
            &&& n > 5 ==> r.score == 5
        },
        field_of(v@, "score"@) is Null ==> r.score == 3,
        field_of(v@, "critical"@) == JsonView::Text(s) ==> (if trim_spec(s).len() > 0 {
            r.critical is Some && r.critical->0@ == trim_spec(s)
        } else {
            r.critical is None
        }),
        !(field_of(v@, "critical"@) is Text) ==> r.critical is None,
{
}

proof fn texts_are_filtered(items: Seq<JsonView>, f: spec_fn(JsonView) -> Option<Seq<char>>)
    requires
        forall|j: JsonView| #[trigger] f(j) == trimmed_of(j),
    ensures
        trimmed_texts(items) == items.filter_map(f),
    decreases items.len(),
{
    reveal(Seq::filter_map);
    if items.len() > 0 {
        texts_are_filtered(items.drop_last(), f);
        assert(f(items.last()) == trimmed_of(items.last()));
        assert(trimmed_texts(items) =~= items.filter_map(f));
    }
}

proof fn numbers_are_filtered(items: Seq<JsonView>, f: spec_fn(JsonView) -> Option<u64>)
    requires
        forall|j: JsonView| #[trigger] f(j) == unsigned_of(j),
    ensures
        numbers_of(items) == items.filter_map(f),
    decreases items.len(),
{
    reveal(Seq::filter_map);
    if items.len() > 0 {
        numbers_are_filtered(items.drop_last(), f);
        assert(f(items.last()) == unsigned_of(items.last()));
        assert(numbers_of(items) =~= items.filter_map(f));
    }
}

/// What an audit found is read whole: every score in its place, with the number of
/// the entry; every critical memory that is a text, in order, without the white space
/// around it; the memory; and every number of an entry that was dropped, in order.
pub proof fn audits_are_read(v: Json, r: AuditOutcome, items: Seq<JsonView>, i: int, n: u64, m: u64, s: Seq<char>)
    requires
        call_ensures(audit_of, (&v,), r),
    ensures
        field_of(v@, "scores"@) == JsonView::List(items) ==> {
            &&& r.scores@.len() == items.len()
            &&& 0 <= i < items.len() && field_of(items[i], "seq"@) == JsonView::Number(Some(n), s)
                ==> r.scores@[i].0 == n
            &&& 0 <= i < items.len() && field_of(items[i], "score"@) == JsonView::Number(Some(m), s)
                && 1 <= m <= 5 ==> r.scores@[i].1 == m
        },
        field_of(v@, "critical"@) == JsonView::List(items) ==> texts(r.critical@)
            == items.filter_map(
            |j: JsonView|
                match j {
                    JsonView::Text(t) => if trim_spec(t).len() > 0 {
                        Some(trim_spec(t))
                    } else {
                        None
                    },
                    _ => None::<Seq<char>>,
                },
        ),
        field_of(v@, "memory"@) == JsonView::Text(s) ==> r.memory@ == trim_spec(s),
        field_of(v@, "dropped_seqs"@) == JsonView::List(items) ==> r.dropped_seqs@
            == items.filter_map(
            |j: JsonView|
                match j {
                    JsonView::Number(k, _) => k,
                    _ => None::<u64>,
                },
        ),
{
    let f = |j: JsonView|
        match j {
            JsonView::Text(t) => if trim_spec(t).len() > 0 {
                Some(trim_spec(t))
            } else {
                None
            },
            _ => None::<Seq<char>>,
        };
    let g = |j: JsonView|
        match j {
            JsonView::Number(k, _) => k,
            _ => None::<u64>,
        };
    texts_are_filtered(items, f);
    numbers_are_filtered(items, g);
}

/// The answers to scores and audits are read off the JSON that they hold, and one that
/// holds none is refused with what it said.
pub proof fn answers_without_json_are_refused(
    content: &str,
    r: Result<EntryScore, String>,
    a: Result<AuditOutcome, String>,
)
    requires
        call_ensures(parse_score, (content,), r),
        call_ensures(parse_audit, (content,), a),
    ensures
        parsed(trim_spec(content@)) is Ok ==> {
            let v = parsed(trim_spec(content@))->Ok_0;
            &&& r is Ok && score_matches(v, r->Ok_0)
            &&& a is Ok && audit_matches(v, a->Ok_0)
        },
        r is Err <==> a is Err,
        r is Err ==> content@.is_suffix_of(r->Err_0@),
        a is Err ==> content@.is_suffix_of(a->Err_0@),
{
    if parsed(trim_spec(content@)) is Ok {
        whole_answers_come_first(content@);
    }
    if r is Err {
        let m = r->Err_0@;
        let w = a->Err_0@;
        assert(content@ =~= m.subrange(m.len() - content@.len(), m.len() as int));
        assert(content@ =~= w.subrange(w.len() - content@.len(), w.len() as int));
    }
}

/// An entry holds what was said, with its number and its time: by the user, by the
/// assistant, or by a tool in the user's name, which alone is scored from the start.
pub proof fn entries_hold_what_was_said(
    content: String,
    seq: u64,
    ts: String,
    u: HistoryEntry,
    a: HistoryEntry,
    t: HistoryEntry,
    score: u8,
    g: HistoryEntry,
)
    requires
        call_ensures(HistoryEntry::user, (content, seq, ts), u),
        call_ensures(HistoryEntry::assistant, (content, seq, ts), a),
        call_ensures(HistoryEntry::tool_result, (content, seq, ts), t),
        call_ensures(HistoryEntry::with_score, (u, score), g),
    ensures
        u.role@ == "user"@ && a.role@ == "assistant"@ && t.role@ == "user"@ && g.role@ == "user"@,
        u.content@ == content@ && a.content@ == content@ && t.content@ == content@ && g.content@
            == content@,
        u.seq == seq && a.seq == seq && t.seq == seq && g.seq == seq,
        u.ts@ == ts@ && a.ts@ == ts@ && t.ts@ == ts@ && g.ts@ == ts@,
        u.score == 0 && a.score == 0 && t.score == 3,
        score <= 5 ==> g.score == score,
        score > 5 ==> g.score == 5,
{
}

// ---- micro-calls ----

/// A micro-call asks its question and nothing else: the instruction, and then the
/// input.
pub proof fn a_small_question_is_asked(e: MicroEngine, t: MicroTask, model: &str, r: ChatRequest)
    requires
        call_ensures(MicroEngine::request, (&e, &t, model), r),
    ensures
        r.model@ == model@,
        r.max_tokens == t.max_tokens,
        r.json,
        !r.enable_thinking,
        r.messages@.len() == 2,
        r.messages@[0].role@ == "system"@,
        r.messages@[0].content@ == t.system@,
        r.messages@[1].role@ == "user"@,
        r.messages@[1].content@ == t.input@,
{
    let views = message_views(r.messages@);
    assert(views == r@.messages);
    assert(views.len() == 2);
    assert(views[0] == r.messages@[0]@);
    assert(views[1] == r.messages@[1]@);
}

/// An answer that is JSON ends a micro-call with that JSON, the words, the time and
/// the number of tries. Without JSON, or without an answer, the call is tried again
/// while tries are left; then it fails, with its name, its time and its cause.
pub proof fn a_small_question_is_answered(
    e: MicroEngine,
    t: MicroTask,
    attempt: u32,
    reply: Result<ChatResponse, String>,
    elapsed: &str,
    r: MicroStep,
)
    requires
        attempt <= e.max_retries,
        call_ensures(MicroEngine::call, (&e, &t, attempt, reply, elapsed), r),
    ensures
        reply is Ok && parsed(trim_spec(reply->Ok_0.content@)) is Ok ==> {
            &&& r matches MicroStep::Done(o)
            &&& o.task@ == t.name@
            &&& o.json is Some && o.json->0@ == parsed(trim_spec(reply->Ok_0.content@))->Ok_0
            &&& o.text@ == reply->Ok_0.content@
            &&& o.latency_ms == reply->Ok_0.latency_ms
            &&& o.retries == attempt
        },
        reply is Err && attempt < e.max_retries ==> r == MicroStep::Retry((attempt + 1) as u32),
        reply is Err && attempt == e.max_retries ==> {
            &&& r matches MicroStep::Failed(m)
            &&& ("task="@ + t.name@).is_prefix_of(m@)
            &&& reply->Err_0@.is_suffix_of(m@)
            &&& exists|i: int| occurs_at(m@, elapsed@, i)
        },
        reply is Ok ==> !(r is Done) ==> (r is Retry <==> attempt < e.max_retries),
{
    if reply is Ok && parsed(trim_spec(reply->Ok_0.content@)) is Ok {
        whole_answers_come_first(reply->Ok_0.content@);
    }
    if reply is Err && attempt == e.max_retries {
        let m = r->Failed_0@;
        let head = "task="@ + t.name@;
        let cause = reply->Err_0@;
        assert(head =~= m.subrange(0, head.len() as int));
        assert(cause =~= m.subrange(m.len() - cause.len(), m.len() as int));
        let i = (head + " 耗时="@).len() as int;
        assert(elapsed@ =~= m.subrange(i, i + elapsed@.len()));
        assert(occurs_at(m, elapsed@, i));
    }
}

/// Why an answer without JSON does not do tells which try it was, of how many, and
/// how the answer began.
pub proof fn useless_answers_are_told(
    e: MicroEngine,
    t: MicroTask,
    reply: Result<ChatResponse, String>,
    elapsed: &str,
    r: MicroStep,
)
    requires
        reply is Ok,
        call_ensures(MicroEngine::call, (&e, &t, e.max_retries, reply, elapsed), r),
        !(r is Done),
    ensures
        r is Failed,
        ({
            let m = r->Failed_0@;
            let said = reply->Ok_0.content@;
            let shown = if said.len() < 120 {
                said
            } else {
                said.take(120)
            };
            &&& ("task="@ + t.name@).is_prefix_of(m)
            &&& shown.is_suffix_of(m)
        }),
{
    let m = r->Failed_0@;
    let said = reply->Ok_0.content@;
    let head = "task="@ + t.name@;
    let cause = no_json_message(e.max_retries, e.max_retries, said);
    assert(head =~= m.subrange(0, head.len() as int));
    let shown = clip_spec(said, 120);
    assert(shown =~= m.subrange(m.len() - shown.len(), m.len() as int));
}

proof fn last_at_is_last(s: Seq<char>, c: char)
    ensures
        -1 <= last_at(s, c) < s.len(),
        last_at(s, c) >= 0 ==> s[last_at(s, c)] == c,
        forall|k: int| last_at(s, c) < k < s.len() ==> s[k] != c,
    decreases s.len(),
{
    if s.len() > 0 && s.last() != c {
        let d = s.drop_last();
        last_at_is_last(d, c);
        assert forall|k: int| last_at(s, c) < k < s.len() implies s[k] != c by {
            if k < s.len() - 1 {
                assert(d[k] == s[k]);
            }
        }
    }
}

/// An answer is tried as a whole first. What a JSON fence encloses comes next, and then
/// what stands between the first opening and the last closing brace.
pub proof fn json_is_looked_for(text: &str, r: Vec<String>, inner: Seq<char>, a: Seq<char>, x: Seq<char>, z: Seq<char>)
    requires
        call_ensures(candidates, (text,), r),
    ensures
        1 <= r@.len() <= 3,
        r@[0]@ == trim_spec(text@),
        trim_spec(text@) == "```json"@ + inner + "```"@ ==> r@.len() >= 2 && r@[1]@ == trim_spec(inner),
        trim_spec(text@) == a + seq!['{'] + x + seq!['}'] + z && !a.contains('{') && !z.contains('}')
            ==> r@.last()@ == seq!['{'] + x + seq!['}'] && r@.len() >= 2,
{
    let t = trim_spec(text@);
    let all = candidates_spec(text@);
    assert(texts(r@) == all);
    assert(r@.len() == all.len());
    assert(texts(r@)[0] == r@[0]@);
    if t == "```json"@ + inner + "```"@ {
        fences_enclose(t, inner);
        assert(texts(r@)[1] == r@[1]@);
    }
    if t == a + seq!['{'] + x + seq!['}'] + z && !a.contains('{') && !z.contains('}') {
        braces_enclose(t, a, x, z);
        assert(texts(r@)[all.len() - 1] == r@.last()@);
    }
}

proof fn fences_enclose(t: Seq<char>, inner: Seq<char>)
    requires
        t == "```json"@ + inner + "```"@,
    ensures
        fenced(t) == Some(trim_spec(inner)),
{
    let rest = inner + "```"@;
    assert(t =~= "```json"@ + rest);
    stripped_texts_go_with_the_rest(rest, "```json"@);
    stripped_texts_go_with_the_rest(inner, "```"@);
}

proof fn braces_enclose(t: Seq<char>, a: Seq<char>, x: Seq<char>, z: Seq<char>)
    requires
        t == a + seq!['{'] + x + seq!['}'] + z,
        !a.contains('{'),
        !z.contains('}'),
    ensures
        braced(t) == Some(seq!['{'] + x + seq!['}']),
{
    let s = upto(t, '{') as int;
    let e = last_at(t, '}');
    upto_is_first(t, '{');
    last_at_is_last(t, '}');
    let p = a.len() as int;
    let q = p + 1 + x.len();
    assert(t[p] == '{');
    assert(t[q] == '}');
    if s < p {
        assert(t[s] == a[s]);
    }
    if e > q {
        assert(t[e] == z[e - q - 1]);
    }
    assert(t.subrange(p, q + 1) =~= seq!['{'] + x + seq!['}']);
}

/// The JSON of an answer is the first of the texts looked at that is JSON.
pub proof fn the_first_json_counts(text: &str, c: Vec<String>, r: Option<Json>, i: int)
    requires
        call_ensures(candidates, (text,), c),
        call_ensures(extract_json, (text,), r),
        0 <= i < c@.len(),
        parsed(c@[i]@) is Ok,
        forall|k: int| 0 <= k < i ==> parsed(#[trigger] c@[k]@) is Err,
    ensures
        r is Some,
        r->0@ == parsed(c@[i]@)->Ok_0,
{
    let all = texts(c@);
    assert(all == candidates_spec(text@));
    assert(all[i] == c@[i]@);
    assert forall|k: int| 0 <= k < i implies parsed(#[trigger] all[k]) is Err by {
        assert(all[k] == c@[k]@);
        assert(parsed(c@[k]@) is Err);
    }
    first_parsed_is(all, i);
}

proof fn first_parsed_is(all: Seq<Seq<char>>, i: int)
    requires
        0 <= i < all.len(),
        parsed(all[i]) is Ok,
        forall|k: int| 0 <= k < i ==> parsed(#[trigger] all[k]) is Err,
    ensures
        first_parsed(all) == Some(parsed(all[i])->Ok_0),
    decreases i,
{
    if i > 0 {
        let rest = all.drop_first();
        assert(parsed(all[0]) is Err);
        assert forall|k: int| 0 <= k < i - 1 implies parsed(#[trigger] rest[k]) is Err by {
            assert(rest[k] == all[k + 1]);
        }
        first_parsed_is(rest, i - 1);
    }
}

/// A small question that got no answer is asked again, as often as is set, and then the
/// failure names the question, how long it took and why.
pub proof fn unanswered_questions_are_asked_again(
    e: MicroEngine,
    t: MicroTask,
    attempt: u32,
    reply: Result<ChatResponse, String>,
    elapsed: &str,
    r: MicroStep,
)
    requires
        reply is Err,
        call_ensures(MicroEngine::call, (&e, &t, attempt, reply, elapsed), r),
    ensures
        attempt < e.max_retries ==> r is Retry && r->Retry_0 == attempt + 1,
        attempt >= e.max_retries ==> r is Failed && r->Failed_0@ == "task="@ + t.name@ + " 耗时="@
            + elapsed@ + ": "@ + reply->Err_0@,
{
}

/// What was found for a small question is handed out with what was said; what was not
/// found is asked for again, as often as is set.
pub proof fn small_questions_are_settled(
    e: MicroEngine,
    t: MicroTask,
    attempt: u32,
    resp: Option<ChatResponse>,
    found: Result<Json, String>,
    elapsed: &str,
    r: MicroStep,
)
    requires
        found is Ok ==> resp is Some,
        call_ensures(MicroEngine::settle, (&e, &t, attempt, resp, found, elapsed), r),
    ensures
        found is Ok ==> {
            &&& r is Done
            &&& r->Done_0.json is Some
            &&& r->Done_0.json->0@ == found->Ok_0@
            &&& r->Done_0.task@ == t.name@
            &&& r->Done_0.text@ == resp->0.content@
            &&& r->Done_0.latency_ms == resp->0.latency_ms
            &&& r->Done_0.retries == attempt
        },
        found is Err && attempt < e.max_retries ==> r is Retry && r->Retry_0 == attempt + 1,
        found is Err && attempt >= e.max_retries ==> r is Failed && r->Failed_0@ == "task="@ + t.name@
            + " 耗时="@ + elapsed@ + ": "@ + found->Err_0@,
{
}

}  // verus!
