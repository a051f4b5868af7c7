//! The micro-call protocol: one small, bounded question at a time, a JSON answer,
//! and another try where the answer is none.

use crate::json::{parsed, Json, JsonView};
use crate::llm::client::{said, ChatMessage, ChatRequest, ChatResponse, RequestView};
use crate::text::number::{decimal, decimal_spec};
use crate::text::search::{strip_prefix, strip_prefix_spec, strip_suffix, strip_suffix_spec};
use crate::text::split::{scan, upto};
use crate::text::trim::{trim, trim_spec};
use crate::text::{chars_of, clip, clip_spec, string_of, texts};
use vstd::prelude::*;
use vstd::string::*;

verus! {

// ---- JSON in what a model says ----

/// The last index at which `c` stands in `s`; -1 where it does not.
pub open spec fn last_at(s: Seq<char>, c: char) -> int
    decreases s.len(),
{
    if s.len() == 0 {
        -1
    } else if s.last() == c {
        s.len() - 1
    } else {
        last_at(s.drop_last(), c)
    }
}

/// What stands inside a JSON code fence.
pub open spec fn fenced(t: Seq<char>) -> Option<Seq<char>> {
    match strip_prefix_spec(t, "```json"@) {
        Some(rest) => match strip_suffix_spec(rest, "```"@) {
            Some(inner) => Some(trim_spec(inner)),
            None => None,
        },
        None => None,
    }
}

/// What stands between the first opening and the last closing brace, with both.
pub open spec fn braced(t: Seq<char>) -> Option<Seq<char>> {
    let s = upto(t, '{') as int;
    let e = last_at(t, '}');
    if s < e {
        Some(t.subrange(s, e + 1))
    } else {
        None
    }
}

/// The texts that may be the JSON of an answer, in the order in which they are
/// tried: the whole answer, what a fence encloses, what braces enclose.
pub open spec fn candidates_spec(text: Seq<char>) -> Seq<Seq<char>> {
    let t = trim_spec(text);
    let a = match fenced(t) {
        Some(x) => seq![x],
        None => Seq::empty(),
    };
    let b = match braced(t) {
        Some(x) => seq![x],
        None => Seq::empty(),
    };
    seq![t] + a + b
}

/// The tree of the first text that parses.
pub open spec fn first_parsed(texts: Seq<Seq<char>>) -> Option<JsonView>
    decreases texts.len(),
{
    if texts.len() == 0 {
        None
    } else {
        match parsed(texts[0]) {
            Ok(j) => Some(j),
            Err(_) => first_parsed(texts.drop_first()),
        }
    }
}

/// The JSON that an answer holds.
pub open spec fn extracted(text: Seq<char>) -> Option<JsonView> {
    first_parsed(candidates_spec(text))
}

/// The tree of an optional value.
pub open spec fn opt_json(j: Option<Json>) -> Option<JsonView> {
    match j {
        Some(v) => Some(v@),
        None => None,
    }
}

fn last_index(v: &Vec<char>, c: char) -> (r: Option<usize>)
    ensures
        match r {
            Some(i) => last_at(v@, c) == i && i < v@.len(),
            None => last_at(v@, c) == -1,
        },
{
    let mut i: usize = v.len();
    assert(v@.take(v@.len() as int) =~= v@);
    while i > 0
        invariant
            i <= v@.len(),
            last_at(v@, c) == last_at(v@.take(i as int), c),
        decreases i,
    {
        assert(v@.take(i as int).drop_last() =~= v@.take(i as int - 1));
        if v[i - 1] == c {
            return Some(i - 1);
        }
        i -= 1;
    }
    None
}

/// The texts that may be the JSON of an answer.
pub fn candidates(text: &str) -> (r: Vec<String>)
    ensures
        texts(r@) == candidates_spec(text@),
{
    let t = trim(text);
    let mut out: Vec<String> = Vec::new();
    out.push(t.clone());
    assert(texts(out@) =~= seq![t@]);
    let ghost mut so_far = seq![t@];
    if let Some(rest) = strip_prefix(t.as_str(), "```json") {
        if let Some(inner) = strip_suffix(rest.as_str(), "```") {
            let x = trim(inner.as_str());
            out.push(x);
            proof {
                so_far = seq![t@] + seq![x@];
            }
            assert(texts(out@) =~= so_far);
        }
    }
    let v = chars_of(t.as_str());
    let s: usize = scan(&v, 0, '{');
    assert(v@.skip(0) =~= t@);
    if let Some(e) = last_index(&v, '}') {
        if s < e {
            let x = string_of(&v, s, e + 1);
            out.push(x);
            assert(texts(out@) =~= so_far + seq![x@]);
        }
    }
    assert(texts(out@) =~= candidates_spec(text@));
    out
}

/// The JSON that a model's answer holds: the whole of it, or what a fence or a
/// pair of braces encloses.
pub fn extract_json(text: &str) -> (r: Option<Json>)
    ensures
        opt_json(r) == extracted(text@),
{
    let list = candidates(text);
    let ghost all = texts(list@);
    let mut i: usize = 0;
    assert(all.skip(0) =~= all);
    while i < list.len()
        invariant
            i <= list@.len(),
            all == texts(list@),
            all == candidates_spec(text@),
            first_parsed(all) == first_parsed(all.skip(i as int)),
        decreases list@.len() - i,
    {
        let ghost rest = all.skip(i as int);
        assert(rest[0] == list@[i as int]@);
        assert(rest.drop_first() =~= all.skip(i as int + 1));
        if let Ok(j) = Json::parse(list[i].as_str()) {
            assert(first_parsed(rest) == Some(j@));
            return Some(j);
        }
        i += 1;
    }
    assert(all.skip(i as int).len() == 0);
    None
}

// ---- one micro-call ----

/// A small question: its name, the fixed instruction, and the input.
pub struct MicroTask {
    pub name: &'static str,
    pub system: String,
    pub input: String,
    pub max_tokens: u32,
}

#[verifier::ext_equal]
pub struct TaskView {
    pub name: Seq<char>,
    pub system: Seq<char>,
    pub input: Seq<char>,
    pub max_tokens: u32,
}

impl View for MicroTask {
    type V = TaskView;

    open spec fn view(&self) -> TaskView {
        TaskView {
            name: self.name@,
            system: self.system@,
            input: self.input@,
            max_tokens: self.max_tokens,
        }
    }
}

pub open spec fn task_views(v: Seq<MicroTask>) -> Seq<TaskView> {
    v.map_values(|t: MicroTask| t@)
}

/// The answer to a micro-call.
#[derive(Debug)]
pub struct MicroOutcome {
    pub task: &'static str,
    pub json: Option<Json>,
    pub text: String,
    pub latency_ms: u128,
    pub retries: u32,
}

/// How often a micro-call is tried again.
pub struct MicroEngine {
    pub max_retries: u32,
}

/// What follows a reply to a micro-call.
pub enum MicroStep {
    /// The call is answered.
    Done(MicroOutcome),
    /// The call is made once more: the number of the next attempt.
    Retry(u32),
    /// No attempt is left.
    Failed(String),
}

/// The request of a micro-call: an instruction and an input, JSON only, without
/// thinking and without any history.
pub open spec fn micro_request(task: MicroTask, model: Seq<char>) -> RequestView {
    RequestView {
        model,
        messages: seq![said("system"@, task.system@), said("user"@, task.input@)],
        max_tokens: task.max_tokens,
        json: true,
        enable_thinking: false,
    }
}

/// Why an answer without JSON does not do.
pub open spec fn no_json_message(attempt: u32, max_retries: u32, content: Seq<char>) -> Seq<char> {
    "JSON 解析失败(尝试 "@ + decimal_spec((attempt + 1) as nat) + "/"@ + decimal_spec(
        (max_retries + 1) as nat,
    ) + "): "@ + clip_spec(content, 120)
}

/// The message of a micro-call that failed.
pub open spec fn micro_failure(name: Seq<char>, elapsed: Seq<char>, cause: Seq<char>) -> Seq<char> {
    "task="@ + name + " 耗时="@ + elapsed + ": "@ + cause
}

/// What the reply to an attempt is worth: the JSON of its content, or why there
/// is none.
pub open spec fn attempt_result(
    attempt: u32,
    max_retries: u32,
    reply: Result<ChatResponse, String>,
) -> Result<JsonView, Seq<char>> {
    match reply {
        Ok(resp) => match extracted(resp.content@) {
            Some(j) => Ok(j),
            None => Err(no_json_message(attempt, max_retries, resp.content@)),
        },
        Err(e) => Err(e@),
    }
}

/// Whether `step` is what follows the result of an attempt.
pub open spec fn step_follows(
    engine: MicroEngine,
    task: MicroTask,
    attempt: u32,
    reply: Result<ChatResponse, String>,
    elapsed: Seq<char>,
    result: Result<JsonView, Seq<char>>,
    step: MicroStep,
) -> bool {
    match result {
        Ok(tree) => step matches MicroStep::Done(o) && o.task@ == task.name@ && opt_json(o.json)
            == Some(tree) && o.text@ == reply->Ok_0.content@ && o.latency_ms
            == reply->Ok_0.latency_ms && o.retries == attempt,
        Err(cause) => if attempt < engine.max_retries {
            step matches MicroStep::Retry(next) && next == attempt + 1
        } else {
            step matches MicroStep::Failed(m) && m@ == micro_failure(task.name@, elapsed, cause)
        },
    }
}

impl MicroEngine {
    pub fn new(max_retries: u32) -> (r: MicroEngine)
        ensures
            r.max_retries == max_retries,
    {
        MicroEngine { max_retries }
    }

    /// The request of a micro-call.
    pub fn request(&self, task: &MicroTask, model: &str) -> (r: ChatRequest)
        ensures
            r@ == micro_request(*task, model@),
    {
        let mut messages: Vec<ChatMessage> = Vec::new();
        messages.push(ChatMessage::new("system", task.system.as_str()));
        messages.push(ChatMessage::new("user", task.input.as_str()));
        let r = ChatRequest {
            model: model.to_string(),
            messages,
            max_tokens: task.max_tokens,
            json: true,
            enable_thinking: false,
        };
        assert(r@.messages =~= micro_request(*task, model@).messages);
        r
    }

    /// What follows an attempt whose reply was read: `found` is the JSON of the
    /// reply's content, or why there is none.
    pub fn settle(
        &self,
        task: &MicroTask,
        attempt: u32,
        resp: Option<ChatResponse>,
        found: Result<Json, String>,
        elapsed: &str,
    ) -> (r: MicroStep)
        requires
            attempt <= self.max_retries,
            found is Ok ==> resp is Some,
        ensures
            match found {
                Ok(j) => r matches MicroStep::Done(o) && o.task@ == task.name@ && opt_json(o.json)
                    == Some(j@) && o.text@ == resp->0.content@ && o.latency_ms
                    == resp->0.latency_ms && o.retries == attempt,
                Err(cause) => if attempt < self.max_retries {
                    r matches MicroStep::Retry(next) && next == attempt + 1
                } else {
                    r matches MicroStep::Failed(m) && m@ == micro_failure(
                        task.name@,
                        elapsed@,
                        cause@,
                    )
                },
            },
    {
        match found {
            Ok(j) => {
                let resp = resp.unwrap();
                MicroStep::Done(
                    MicroOutcome {
                        task: task.name,
                        json: Some(j),
                        text: resp.content,
                        latency_ms: resp.latency_ms,
                        retries: attempt,
                    },
                )
            },
            Err(cause) => {
                if attempt < self.max_retries {
                    MicroStep::Retry(attempt + 1)
                } else {
                    let mut m = "task=".to_string();
                    m.append(task.name);
                    m.append(" 耗时=");
                    m.append(elapsed);
                    m.append(": ");
                    m.append(cause.as_str());
                    MicroStep::Failed(m)
                }
            },
        }
    }

    /// What follows the reply to attempt number `attempt`, counted from nought:
    /// the answer, another attempt, or the end.
    pub fn call(
        &self,
        task: &MicroTask,
        attempt: u32,
        reply: Result<ChatResponse, String>,
        elapsed: &str,
    ) -> (r: MicroStep)
        requires
            attempt <= self.max_retries,
            self.max_retries < u32::MAX,
        ensures
            step_follows(
                *self,
                *task,
                attempt,
                reply,
                elapsed@,
                attempt_result(attempt, self.max_retries, reply),
                r,
            ),
    {
        match reply {
            Ok(resp) => {
                let found = match extract_json(resp.content.as_str()) {
                    Some(j) => Ok(j),
                    None => {
                        let mut m = "JSON 解析失败(尝试 ".to_string();
                        m.append(decimal(attempt as u128 + 1).as_str());
                        m.append("/");
                        m.append(decimal(self.max_retries as u128 + 1).as_str());
                        m.append("): ");
                        m.append(clip(resp.content.as_str(), 120).as_str());
                        Err(m)
                    },
                };
                self.settle(task, attempt, Some(resp), found, elapsed)
            },
            Err(e) => self.settle(task, attempt, None, Err(e), elapsed),
        }
    }
}

/// A micro-call is made at most `max_retries + 1` times: an attempt is followed
/// by another only while retries are left, and its number then grows by one.
pub proof fn attempts_are_bounded(
    engine: MicroEngine,
    task: MicroTask,
    attempt: u32,
    reply: Result<ChatResponse, String>,
    elapsed: Seq<char>,
    step: MicroStep,
)
    requires
        attempt <= engine.max_retries,
        step_follows(
            engine,
            task,
            attempt,
            reply,
            elapsed,
            attempt_result(attempt, engine.max_retries, reply),
            step,
        ),
    ensures
        step matches MicroStep::Retry(next) ==> next == attempt + 1 && next <= engine.max_retries,
        attempt == engine.max_retries ==> !(step is Retry),
{
}

/// An answer that is JSON as a whole is taken as a whole.
pub proof fn whole_answers_come_first(text: Seq<char>)
    requires
        parsed(trim_spec(text)) is Ok,
    ensures
        extracted(text) == Some(parsed(trim_spec(text))->Ok_0),
{
    assert(candidates_spec(text)[0] == trim_spec(text));
}

/// An answer holds JSON exactly if one of the texts that may be it parses.
pub proof fn answers_without_json(texts: Seq<Seq<char>>)
    ensures
        first_parsed(texts) is None <==> forall|i: int|
            0 <= i < texts.len() ==> (#[trigger] parsed(texts[i])) is Err,
    decreases texts.len(),
{
    if texts.len() > 0 {
        let rest = texts.drop_first();
        answers_without_json(rest);
        if first_parsed(texts) is None {
            assert forall|i: int| 0 <= i < texts.len() implies (#[trigger] parsed(texts[i])) is Err by {
                if i > 0 {
                    assert(parsed(rest[i - 1]) is Err);
                }
            }
        }
        if forall|i: int| 0 <= i < texts.len() ==> (#[trigger] parsed(texts[i])) is Err {
            assert(parsed(texts[0]) is Err);
            assert forall|i: int| 0 <= i < rest.len() implies (#[trigger] parsed(rest[i])) is Err by {
                assert(parsed(texts[i + 1]) is Err);
            }
        }
    }
}

}  // verus!
