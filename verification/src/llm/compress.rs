//! The compressor of a conversation: how an entry is scored, how a whole
//! history is audited, and what is read from the model's answers.

use crate::json::{
    field_of, items_of, text_of, unsigned_of, Json, JsonView,
};
use crate::llm::client::{
    message_views, said, ChatMessage, ChatRequest, MessageView, RequestView,
};
use crate::llm::micro::{extract_json, extracted};
use crate::text::clock::{clock, clock_spec};
use crate::text::number::{decimal, decimal_spec};
use crate::text::search::opt_text;
use crate::text::trim::{trim, trim_spec};
use crate::text::{join, join_spec, texts};
use vstd::prelude::*;
use vstd::string::*;

verus! {

/// A message of the history with its score. A score of nought means that the
/// entry has not been scored yet.
#[derive(Debug)]
pub struct HistoryEntry {
    pub role: String,
    pub content: String,
    pub score: u8,
    /// Grows by one with every entry: the order in time.
    pub seq: u64,
    pub ts: String,
}

#[verifier::ext_equal]
pub struct EntryView {
    pub role: Seq<char>,
    pub content: Seq<char>,
    pub score: u8,
    pub seq: u64,
    pub ts: Seq<char>,
}

impl View for HistoryEntry {
    type V = EntryView;

    open spec fn view(&self) -> EntryView {
        EntryView {
            role: self.role@,
            content: self.content@,
            score: self.score,
            seq: self.seq,
            ts: self.ts@,
        }
    }
}

impl Clone for HistoryEntry {
    fn clone(&self) -> (r: HistoryEntry)
        ensures
            r == *self,
    {
        HistoryEntry {
            role: self.role.clone(),
            content: self.content.clone(),
            score: self.score,
            seq: self.seq,
            ts: self.ts.clone(),
        }
    }
}

pub open spec fn entry_views(v: Seq<HistoryEntry>) -> Seq<EntryView> {
    v.map_values(|e: HistoryEntry| e@)
}

impl HistoryEntry {
    pub fn user(content: String, seq: u64, ts: String) -> (r: HistoryEntry)
        ensures
            r@ == (EntryView { role: "user"@, content: content@, score: 0, seq, ts: ts@ }),
    {
        HistoryEntry { role: "user".to_string(), content, score: 0, seq, ts }
    }

    pub fn assistant(content: String, seq: u64, ts: String) -> (r: HistoryEntry)
        ensures
            r@ == (EntryView { role: "assistant"@, content: content@, score: 0, seq, ts: ts@ }),
    {
        HistoryEntry { role: "assistant".to_string(), content, score: 0, seq, ts }
    }

    /// What a tool gave back: said by the user, and of middling worth.
    pub fn tool_result(content: String, seq: u64, ts: String) -> (r: HistoryEntry)
        ensures
            r@ == (EntryView { role: "user"@, content: content@, score: 3, seq, ts: ts@ }),
    {
        HistoryEntry { role: "user".to_string(), content, score: 3, seq, ts }
    }

    /// The entry with another score, five at most.
    pub fn with_score(self, score: u8) -> (r: HistoryEntry)
        ensures
            r@ == (EntryView {
                score: if score > 5 {
                    5
                } else {
                    score
                },
                ..self@
            }),
    {
        HistoryEntry {
            role: self.role,
            content: self.content,
            score: if score > 5 {
                5
            } else {
                score
            },
            seq: self.seq,
            ts: self.ts,
        }
    }
}

// ---- templates ----

/// The five grades of a message.
pub const SCORE_RUBRIC: &'static str = "评分准则(1~5 分,维度 = 该轮内容后续被复用的可能性与重要性):\n\
5 分(S):约束、决定、用户偏好、任务目标、未完成任务 —— 必须原样记住;\n\
4 分(A):重要事实、结论、关键上下文;\n\
3 分(B):一般但有信息量;\n\
2 分(C):低价值(重复、含糊、可推演);\n\
1 分(D):无意义(问候/寒暄/客套/语气词)。\n\
拿不准 → 往低打。";

pub const SCORE_HEAD: &'static str = "你是 localai 的对话评分器。下面是一条对话消息。\n";

pub const SCORE_TAIL: &'static str = "\n\
输出 JSON(不要其他文字):\n\
{\"score\": 1~5, \"critical\": \"仅当 score=5 时的原样关键记忆条目,否则省略\"}\n\n\
要求:\n\
- critical 必须原样保留该消息中的约束/决定/偏好原文,不要改写;\n\
- 拿不准时按准则的\"往低打\"处理。";

pub const REAUDIT_BLOCK: &'static str = "\n4. 附带了一份\"待重审的旧关键记忆清单\":逐条判断 —— 已过时/被后续覆盖 → 淘汰;\n\
仍有效 → 保留(可与新条目合并同类);输出合并后的最终 critical 清单。\n";

pub const AUDIT_HEAD: &'static str = "你是 localai 的上下文压缩器。下面是一段历史对话,每条消息标注了序号(seq)。\n\
任务(一次调用完成):\n\
1. 给每条消息评分:";

pub const AUDIT_BODY: &'static str = "\n\
2. 处置:\n\
- 5 分 → 写进 critical(原样保留,不压缩);\n\
- 4/3 分 → 压缩进 memory(信息密度压缩:只留事实/决定/约束/偏好/未完成任务,\n\
去掉修辞与过程性废话);\n\
- 2/1 分 → 不写进任何输出(dropped);\n\
3. 输出 JSON(不要其他文字):\n\
{\"scores\": [{\"seq\": 1, \"score\": 5}, ...],\n\
\"critical\": [\"...\", \"...\"],\n\
\"memory\": \"...\",\n\
\"dropped_seqs\": [3, 7]}\n";

pub const AUDIT_MEMORY: &'static str = "要求:\n- memory 不超过 ";

pub const AUDIT_CRITICAL: &'static str = " 字,中文,信息密度最大化;\n- critical 每条一句话、可独立引用,不超过 ";

pub const AUDIT_TAIL: &'static str = " 条;\n- 最近 3 条是当前任务上下文,一律保留,不评分不丢弃。";

/// The instruction by which one message is scored.
pub open spec fn score_system_spec() -> Seq<char> {
    SCORE_HEAD@ + SCORE_RUBRIC@ + SCORE_TAIL@
}

/// The instruction by which a history is audited; with `reaudit`, the old
/// critical memories are judged too.
pub open spec fn audit_system_spec(
    memory_max_chars: nat,
    critical_max_items: nat,
    reaudit: bool,
) -> Seq<char> {
    AUDIT_HEAD@ + SCORE_RUBRIC@ + AUDIT_BODY@ + (if reaudit {
        REAUDIT_BLOCK@
    } else {
        ""@
    }) + AUDIT_MEMORY@ + decimal_spec(memory_max_chars) + AUDIT_CRITICAL@ + decimal_spec(
        critical_max_items,
    ) + AUDIT_TAIL@
}

pub fn score_system() -> (r: String)
    ensures
        r@ == score_system_spec(),
{
    let mut s = SCORE_HEAD.to_string();
    s.append(SCORE_RUBRIC);
    s.append(SCORE_TAIL);
    s
}

pub fn audit_system(memory_max_chars: usize, critical_max_items: usize, reaudit: bool) -> (r:
    String)
    ensures
        r@ == audit_system_spec(memory_max_chars as nat, critical_max_items as nat, reaudit),
{
    let mut s = AUDIT_HEAD.to_string();
    s.append(SCORE_RUBRIC);
    s.append(AUDIT_BODY);
    s.append(
        if reaudit {
            REAUDIT_BLOCK
        } else {
            ""
        },
    );
    s.append(AUDIT_MEMORY);
    s.append(decimal(memory_max_chars as u128).as_str());
    s.append(AUDIT_CRITICAL);
    s.append(decimal(critical_max_items as u128).as_str());
    s.append(AUDIT_TAIL);
    s
}

// ---- requests ----

/// The score of one entry, with what has to be remembered of it word by word.
pub struct EntryScore {
    pub score: u8,
    pub critical: Option<String>,
}

/// What an audit found.
#[derive(Debug)]
pub struct AuditOutcome {
    /// The new scores, by the entries' numbers.
    pub scores: Vec<(u64, u8)>,
    pub critical: Vec<String>,
    pub memory: String,
    pub dropped_seqs: Vec<u64>,
}

/// The limits of an audit.
#[derive(Debug, Clone, Copy)]
pub struct Compressor {
    pub memory_max_chars: usize,
    pub critical_max_items: usize,
}

/// An entry as an audit shows it.
pub open spec fn audit_line(e: EntryView) -> Seq<char> {
    "<seq="@ + decimal_spec(e.seq as nat) + "> ["@ + e.role + "]\n"@ + e.content
}

/// The old critical memories as an audit shows them.
pub open spec fn reaudit_list(old_critical: Seq<Seq<char>>) -> Seq<char> {
    "待重审的旧关键记忆清单:\n"@ + join_spec(
        old_critical.map_values(|c: Seq<char>| "- "@ + c),
        "\n"@,
    )
}

/// The messages of an audit.
pub open spec fn audit_messages(
    entries: Seq<EntryView>,
    old_critical: Seq<Seq<char>>,
    memory_max_chars: nat,
    critical_max_items: nat,
) -> Seq<MessageView> {
    let reaudit = old_critical.len() > 0;
    let head = seq![
        said("system"@, audit_system_spec(memory_max_chars, critical_max_items, reaudit)),
    ];
    let body = entries.map_values(|e: EntryView| said("user"@, audit_line(e)));
    let tail = if reaudit {
        seq![said("user"@, reaudit_list(old_critical))]
    } else {
        Seq::empty()
    };
    head + body + tail
}

impl Compressor {
    pub fn new(memory_max_chars: usize, critical_max_items: usize) -> (r: Compressor)
        ensures
            r.memory_max_chars == memory_max_chars,
            r.critical_max_items == critical_max_items,
    {
        Compressor { memory_max_chars, critical_max_items }
    }

    /// The request that scores one entry: the rubric, and the message itself.
    pub fn score_entry(&self, entry: &HistoryEntry, model: &str) -> (r: ChatRequest)
        ensures
            r@ == (RequestView {
                model: model@,
                messages: seq![
                    said("system"@, score_system_spec()),
                    said(entry.role@, entry.content@),
                ],
                max_tokens: 200,
                json: true,
                enable_thinking: false,
            }),
    {
        let mut messages: Vec<ChatMessage> = Vec::new();
        messages.push(ChatMessage::new("system", score_system().as_str()));
        messages.push(ChatMessage::new(entry.role.as_str(), entry.content.as_str()));
        assert(message_views(messages@) =~= seq![
            said("system"@, score_system_spec()),
            said(entry.role@, entry.content@),
        ]);
        ChatRequest {
            model: model.to_string(),
            messages,
            max_tokens: 200,
            json: true,
            enable_thinking: false,
        }
    }

    /// The request that audits a history. `old_critical` is given only where the
    /// old critical memories are to be judged again.
    pub fn audit(
        &self,
        entries: &Vec<HistoryEntry>,
        old_critical: &Vec<String>,
        model: &str,
    ) -> (r: ChatRequest)
        ensures
            r@ == (RequestView {
                model: model@,
                messages: audit_messages(
                    entry_views(entries@),
                    texts(old_critical@),
                    self.memory_max_chars as nat,
                    self.critical_max_items as nat,
                ),
                max_tokens: 500,
                json: true,
                enable_thinking: false,
            }),
    {
        let reaudit = old_critical.len() > 0;
        let ghost ev = entry_views(entries@);
        let ghost head = said(
            "system"@,
            audit_system_spec(
                self.memory_max_chars as nat,
                self.critical_max_items as nat,
                reaudit,
            ),
        );
        let mut messages: Vec<ChatMessage> = Vec::new();
        messages.push(
            ChatMessage::new(
                "system",
                audit_system(self.memory_max_chars, self.critical_max_items, reaudit).as_str(),
            ),
        );
        let mut i: usize = 0;
        while i < entries.len()
            invariant
                i <= entries@.len(),
                ev == entry_views(entries@),
                messages@.len() == i + 1,
                messages@[0]@ == head,
                forall|k: int|
                    1 <= k <= i ==> (#[trigger] messages@[k])@ == said(
                        "user"@,
                        audit_line(ev[k - 1]),
                    ),
            decreases entries@.len() - i,
        {
            let e = &entries[i];
            let mut line = "<seq=".to_string();
            line.append(decimal(e.seq as u128).as_str());
            line.append("> [");
            line.append(e.role.as_str());
            line.append("]\n");
            line.append(e.content.as_str());
            messages.push(ChatMessage::new("user", line.as_str()));
            assert(messages@.last()@ == said("user"@, audit_line(ev[i as int])));
            i += 1;
        }
        if reaudit {
            let mut items: Vec<String> = Vec::new();
            let ghost old = texts(old_critical@);
            let mut j: usize = 0;
            while j < old_critical.len()
                invariant
                    j <= old_critical@.len(),
                    old == texts(old_critical@),
                    items@.len() == j,
                    forall|k: int| 0 <= k < j ==> (#[trigger] items@[k])@ == "- "@ + old[k],
                decreases old_critical@.len() - j,
            {
                let mut item = "- ".to_string();
                item.append(old_critical[j].as_str());
                items.push(item);
                assert(items@.last()@ == "- "@ + old[j as int]);
                j += 1;
            }
            assert(texts(items@) =~= old.map_values(|c: Seq<char>| "- "@ + c));
            let mut content = "待重审的旧关键记忆清单:\n".to_string();
            content.append(join(&items, "\n").as_str());
            messages.push(ChatMessage::new("user", content.as_str()));
        }
        assert(message_views(messages@) =~= audit_messages(
            ev,
            texts(old_critical@),
            self.memory_max_chars as nat,
            self.critical_max_items as nat,
        ));
        ChatRequest {
            model: model.to_string(),
            messages,
            max_tokens: 500,
            json: true,
            enable_thinking: false,
        }
    }
}

// ---- answers ----

/// A score in an answer: a number between one and five, and three where none
/// is given.
pub open spec fn grade_of(j: JsonView) -> u8 {
    match unsigned_of(j) {
        Some(n) => if n < 1 {
            1
        } else if n > 5 {
            5
        } else {
            n as u8
        },
        None => 3,
    }
}

/// The trimmed text of a value, unless nothing is left of it.
pub open spec fn trimmed_of(j: JsonView) -> Option<Seq<char>> {
    match text_of(j) {
        Some(s) => if trim_spec(s).len() > 0 {
            Some(trim_spec(s))
        } else {
            None
        },
        None => None,
    }
}

/// The trimmed texts among some values, in order.
pub open spec fn trimmed_texts(items: Seq<JsonView>) -> Seq<Seq<char>>
    decreases items.len(),
{
    if items.len() == 0 {
        Seq::empty()
    } else {
        let rest = trimmed_texts(items.drop_last());
        match trimmed_of(items.last()) {
            Some(s) => rest.push(s),
            None => rest,
        }
    }
}

/// The unsigned integers among some values, in order.
pub open spec fn numbers_of(items: Seq<JsonView>) -> Seq<u64>
    decreases items.len(),
{
    if items.len() == 0 {
        Seq::empty()
    } else {
        let rest = numbers_of(items.drop_last());
        match unsigned_of(items.last()) {
            Some(n) => rest.push(n),
            None => rest,
        }
    }
}

/// One line of the scores of an audit: the number of an entry and its score.
pub open spec fn score_line(j: JsonView) -> (u64, u8) {
    (
        match unsigned_of(field_of(j, "seq"@)) {
            Some(n) => n,
            None => 0,
        },
        grade_of(field_of(j, "score"@)),
    )
}

/// Whether `r` is what an answer says of one entry.
pub open spec fn score_matches(v: JsonView, r: EntryScore) -> bool {
    &&& r.score == grade_of(field_of(v, "score"@))
    &&& opt_text(r.critical) == trimmed_of(field_of(v, "critical"@))
}

/// Whether `r` is what an answer says of a history.
pub open spec fn audit_matches(v: JsonView, r: AuditOutcome) -> bool {
    &&& r.scores@ == items_of(field_of(v, "scores"@)).map_values(|j: JsonView| score_line(j))
    &&& texts(r.critical@) == trimmed_texts(items_of(field_of(v, "critical"@)))
    &&& r.memory@ == trim_spec(
        match text_of(field_of(v, "memory"@)) {
            Some(s) => s,
            None => ""@,
        },
    )
    &&& r.dropped_seqs@ == numbers_of(items_of(field_of(v, "dropped_seqs"@)))
}

fn grade(v: &Json) -> (r: u8)
    ensures
        r == grade_of(field_of(v@, "score"@)),
{
    match v.field_u64("score") {
        Some(n) => if n < 1 {
            1
        } else if n > 5 {
            5
        } else {
            n as u8
        },
        None => 3,
    }
}

fn trimmed(s: Option<String>) -> (r: Option<String>)
    ensures
        opt_text(r) == (match opt_text(s) {
            Some(t) => if trim_spec(t).len() > 0 {
                Some(trim_spec(t))
            } else {
                None
            },
            None => None,
        }),
{
    match s {
        Some(t) => {
            let u = trim(t.as_str());
            if u.as_str().unicode_len() > 0 {
                Some(u)
            } else {
                None
            }
        },
        None => None,
    }
}

/// What an answer says of one entry.
pub fn score_of(v: &Json) -> (r: EntryScore)
    ensures
        score_matches(v@, r),
{
    EntryScore { score: grade(v), critical: trimmed(v.field_str("critical")) }
}

fn scores_in(items: &Vec<&Json>, Ghost(sv): Ghost<Seq<JsonView>>) -> (r: Vec<(u64, u8)>)
    requires
        items@.len() == sv.len(),
        forall|k: int| 0 <= k < sv.len() ==> (#[trigger] items@[k])@ == sv[k],
    ensures
        r@ == sv.map_values(|j: JsonView| score_line(j)),
{
    let mut scores: Vec<(u64, u8)> = Vec::new();
    let mut i: usize = 0;
    while i < items.len()
        invariant
            i <= items@.len(),
            items@.len() == sv.len(),
            forall|k: int| 0 <= k < sv.len() ==> (#[trigger] items@[k])@ == sv[k],
            scores@ =~= sv.take(i as int).map_values(|j: JsonView| score_line(j)),
        decreases items@.len() - i,
    {
        let seq: u64 = match items[i].field_u64("seq") {
            Some(n) => n,
            None => 0,
        };
        assert(sv[i as int] == items@[i as int]@);
        scores.push((seq, grade(items[i])));
        assert(sv.take(i as int + 1) =~= sv.take(i as int).push(sv[i as int]));
        i += 1;
    }
    assert(sv.take(i as int) =~= sv);
    scores
}

fn critical_in(items: &Vec<&Json>, Ghost(cv): Ghost<Seq<JsonView>>) -> (r: Vec<String>)
    requires
        items@.len() == cv.len(),
        forall|k: int| 0 <= k < cv.len() ==> (#[trigger] items@[k])@ == cv[k],
    ensures
        texts(r@) == trimmed_texts(cv),
{
    let mut critical: Vec<String> = Vec::new();
    let mut i: usize = 0;
    assert(cv.take(0).len() == 0);
    while i < items.len()
        invariant
            i <= items@.len(),
            items@.len() == cv.len(),
            forall|k: int| 0 <= k < cv.len() ==> (#[trigger] items@[k])@ == cv[k],
            texts(critical@) =~= trimmed_texts(cv.take(i as int)),
        decreases items@.len() - i,
    {
        assert(cv[i as int] == items@[i as int]@);
        assert(cv.take(i as int + 1).drop_last() =~= cv.take(i as int));
        if let Some(s) = trimmed(items[i].as_str()) {
            critical.push(s);
        }
        i += 1;
    }
    assert(cv.take(i as int) =~= cv);
    critical
}

fn dropped_in(items: &Vec<&Json>, Ghost(dv): Ghost<Seq<JsonView>>) -> (r: Vec<u64>)
    requires
        items@.len() == dv.len(),
        forall|k: int| 0 <= k < dv.len() ==> (#[trigger] items@[k])@ == dv[k],
    ensures
        r@ == numbers_of(dv),
{
    let mut dropped: Vec<u64> = Vec::new();
    let mut i: usize = 0;
    assert(dv.take(0).len() == 0);
    while i < items.len()
        invariant
            i <= items@.len(),
            items@.len() == dv.len(),
            forall|k: int| 0 <= k < dv.len() ==> (#[trigger] items@[k])@ == dv[k],
            dropped@ =~= numbers_of(dv.take(i as int)),
        decreases items@.len() - i,
    {
        assert(dv[i as int] == items@[i as int]@);
        assert(dv.take(i as int + 1).drop_last() =~= dv.take(i as int));
        if let Some(n) = items[i].as_u64() {
            dropped.push(n);
        }
        i += 1;
    }
    assert(dv.take(i as int) =~= dv);
    dropped
}

fn list_in<'a>(v: &'a Json, key: &str) -> (r: Vec<&'a Json>)
    ensures
        r@.len() == items_of(field_of(v@, key@)).len(),
        forall|k: int|
            0 <= k < r@.len() ==> (#[trigger] r@[k])@ == items_of(field_of(v@, key@))[k],
{
    match v.field(key) {
        Some(list) => list.items(),
        None => Vec::new(),
    }
}

/// What an answer says of a history.
pub fn audit_of(v: &Json) -> (r: AuditOutcome)
    ensures
        audit_matches(v@, r),
{
    AuditOutcome {
        scores: scores_in(&list_in(v, "scores"), Ghost(items_of(field_of(v@, "scores"@)))),
        critical: critical_in(&list_in(v, "critical"), Ghost(items_of(field_of(v@, "critical"@)))),
        memory: match v.field_str("memory") {
            Some(s) => trim(s.as_str()),
            None => trim(""),
        },
        dropped_seqs: dropped_in(
            &list_in(v, "dropped_seqs"),
            Ghost(items_of(field_of(v@, "dropped_seqs"@))),
        ),
    }
}

/// Reads the answer to a request that scores one entry.
pub fn parse_score(content: &str) -> (r: Result<EntryScore, String>)
    ensures
        match extracted(content@) {
            Some(v) => r is Ok && score_matches(v, r->Ok_0),
            None => r is Err && r->Err_0@ == "评分输出无 JSON: "@ + content@,
        },
{
    match extract_json(content) {
        Some(v) => Ok(score_of(&v)),
        None => {
            let mut m = "评分输出无 JSON: ".to_string();
            m.append(content);
            Err(m)
        },
    }
}

/// Reads the answer to an audit.
pub fn parse_audit(content: &str) -> (r: Result<AuditOutcome, String>)
    ensures
        match extracted(content@) {
            Some(v) => r is Ok && audit_matches(v, r->Ok_0),
            None => r is Err && r->Err_0@ == "审计输出无 JSON: "@ + content@,
        },
{
    match extract_json(content) {
        Some(v) => Ok(audit_of(&v)),
        None => {
            let mut m = "审计输出无 JSON: ".to_string();
            m.append(content);
            Err(m)
        },
    }
}

/// Every score that is read from an answer lies between one and five.
pub proof fn grades_are_bounded(v: JsonView, one: EntryScore, all: AuditOutcome)
    requires
        score_matches(v, one),
        audit_matches(v, all),
    ensures
        1 <= one.score <= 5,
        forall|i: int| 0 <= i < all.scores@.len() ==> 1 <= (#[trigger] all.scores@[i]).1 <= 5,
{
}

// ---- time ----

/// The time of day as `HH:MM:SS`, of a moment given in seconds since the epoch.
pub fn now_ts(secs: u64) -> (r: String)
    ensures
        r@ == clock_spec(secs),
{
    clock(secs)
}

}  // verus!
