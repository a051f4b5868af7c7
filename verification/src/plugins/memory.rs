//! The memory plugin: what of a conversation is kept at hand. Entries are scored
//! as they come and audited from time to time; what an audit drops is evicted,
//! and what must not be forgotten is kept word by word.

use crate::cordis::context::{
    provided_spec, service_at, Context, ContextView, KindView, ProvidedView,
};
use crate::cordis::plugin::{
    grows_counted, grows_provided, grows_reflexive, grows_registered, names, Plugin,
};
use crate::cordis::service::Service;
use crate::llm::client::{
    message_views, said, ChatMessage, ChatRequest, MessageView, RequestView,
};
use crate::llm::compress::{
    audit_messages, entry_views, score_system_spec, AuditOutcome, Compressor, EntryScore,
    EntryView, HistoryEntry,
};
use crate::llm::LlmService;
use crate::plugins::laws::{steps_keep_order, MemoryStep};
use crate::text::number::{decimal, decimal_spec};
use crate::text::search::opt_text;
use crate::text::trim::{strip_leading, strip_leading_spec, trim as trim_text, trim_spec};
use crate::text::{
    chars_of, copy_list, first, first_of, holds, join, join_spec, same, string_of, texts,
};
use vstd::prelude::*;
use vstd::string::*;

verus! {

// ---- options ----

#[derive(Debug)]
pub struct PersistOptions {
    /// Where to keep the files: nothing or `default` for the directory of the
    /// program, a leading `~` for the home directory, or a path.
    pub dir: Option<String>,
}

#[derive(Debug)]
pub struct MemoryOptions {
    pub enabled: bool,
    /// How long the memory may be, in characters.
    pub memory_max_chars: usize,
    /// How many critical memories are kept.
    pub critical_max_items: usize,
    /// From how many critical memories on an audit judges them again.
    pub critical_reaudit: usize,
    /// How many of the last entries are never evicted.
    pub grace_turns: usize,
    /// After how many turns an audit is due.
    pub trigger_turns: usize,
    /// How many turns are kept.
    pub history_turns: usize,
    pub persist: PersistOptions,
}

impl Default for MemoryOptions {
    fn default() -> (r: MemoryOptions)
        ensures
            r.enabled,
            r.memory_max_chars == 500,
            r.critical_max_items == 8,
            r.critical_reaudit == 6,
            r.grace_turns == 3,
            r.trigger_turns == 6,
            r.history_turns == 6,
            r.persist.dir is None,
    {
        MemoryOptions {
            enabled: true,
            memory_max_chars: 500,
            critical_max_items: 8,
            critical_reaudit: 6,
            grace_turns: 3,
            trigger_turns: 6,
            history_turns: 6,
            persist: PersistOptions { dir: None },
        }
    }
}

// ---- files ----

/// The context at hand, as it is kept between sessions.
#[derive(Debug)]
pub struct ChatSnapshot {
    pub seq: u64,
    pub history: Vec<HistoryEntry>,
    pub critical: Vec<String>,
    pub memory: Option<String>,
    pub since_audit: usize,
}

/// The archive of the conversation, which is only appended to, and the context
/// at hand, which is read back.
pub struct Persist;

/// A directory: a whole path, or one below another.
pub enum ResolvedDir {
    Whole(String),
    Below(String, String),
}

/// What the environment says of directories: that of the program, the current
/// one, and the two variables that may name the home directory.
pub struct DirFacts {
    pub program: Option<String>,
    pub current: Option<String>,
    pub home: Option<String>,
    pub profile: Option<String>,
}

/// A text without the slashes and backslashes that it begins with.
pub open spec fn strip_separators(s: Seq<char>) -> Seq<char>
    decreases s.len(),
{
    if s.len() > 0 && (s[0] == '/' || s[0] == '\\') {
        strip_separators(s.drop_first())
    } else {
        s
    }
}

fn without_separators(s: &str) -> (r: String)
    ensures
        r@ == strip_separators(s@),
{
    let v = chars_of(s);
    let mut i: usize = 0;
    assert(v@.skip(0) =~= v@);
    while i < v.len() && (v[i] == '/' || v[i] == '\\')
        invariant
            i <= v@.len(),
            strip_separators(v@) == strip_separators(v@.skip(i as int)),
        decreases v@.len() - i,
    {
        assert(v@.skip(i as int).drop_first() =~= v@.skip(i as int + 1));
        i += 1;
    }
    let r = string_of(&v, i, v.len());
    assert(r@ =~= v@.skip(i as int));
    assert(i < v@.len() ==> v@.skip(i as int)[0] == v@[i as int]);
    r
}

pub const CONVERSATION_FILE: &'static str = "conversation.jsonl";

pub const CONTEXT_FILE: &'static str = "context.json";

impl Persist {
    /// The directory that an option means.
    pub fn resolve_dir(cfg: &Option<String>, facts: &DirFacts) -> (r: ResolvedDir)
        ensures
            match opt_text(*cfg) {
                None => r matches ResolvedDir::Whole(d) && d@ == first_of(
                    facts.program,
                    facts.current,
                    "."@,
                ),
                Some(dir) => if dir.len() == 0 || dir == "default"@ {
                    r matches ResolvedDir::Whole(d) && d@ == first_of(
                        facts.program,
                        facts.current,
                        "."@,
                    )
                } else if dir[0] == '~' {
                    let home = first_of(facts.home, facts.profile, "."@);
                    let rest = strip_separators(strip_leading_spec(dir, '~'));
                    if rest.len() == 0 {
                        r matches ResolvedDir::Whole(d) && d@ == home
                    } else {
                        r matches ResolvedDir::Below(a, b) && a@ == home && b@ == rest
                    }
                } else {
                    r matches ResolvedDir::Whole(d) && d@ == dir
                },
            },
    {
        match cfg {
            None => ResolvedDir::Whole(first(&facts.program, &facts.current, ".")),
            Some(dir) => {
                let d = dir.as_str();
                if d.unicode_len() == 0 || same(d, "default") {
                    return ResolvedDir::Whole(first(&facts.program, &facts.current, "."));
                }
                if d.get_char(0) == '~' {
                    let home = first(&facts.home, &facts.profile, ".");
                    let rest = without_separators(strip_leading(d, '~').as_str());
                    if rest.as_str().unicode_len() == 0 {
                        ResolvedDir::Whole(home)
                    } else {
                        ResolvedDir::Below(home, rest)
                    }
                } else {
                    ResolvedDir::Whole(dir.clone())
                }
            },
        }
    }

    /// What is appended to the archive for some entries: a line for each.
    pub fn append_conversation(lines: &Vec<String>) -> (r: String)
        ensures
            r@ == archive_spec(texts(lines@)),
    {
        let mut content = String::new();
        let ghost all = texts(lines@);
        let mut i: usize = 0;
        assert(all.take(0).len() == 0);
        assert(content@ =~= Seq::empty());
        while i < lines.len()
            invariant
                i <= lines@.len(),
                all == texts(lines@),
                content@ == archive_spec(all.take(i as int)),
            decreases lines@.len() - i,
        {
            assert(all.take(i as int + 1).drop_last() =~= all.take(i as int));
            content.append(lines[i].as_str());
            content.append("\n");
            i += 1;
        }
        assert(all.take(i as int) =~= all);
        content
    }

    /// The line that separates sessions in the archive.
    pub fn append_session_marker(ts: &str) -> (r: String)
        ensures
            r@ == "{\"session\": \""@ + ts@ + "\"}\n"@,
    {
        let mut m = "{\"session\": \"".to_string();
        m.append(ts);
        m.append("\"}\n");
        m
    }

    /// The name of the file that is written in place of the context until it is
    /// complete.
    pub fn temp_name(name: Option<&str>, process: u32) -> (r: String)
        ensures
            r@ == "."@ + (match name {
                Some(n) => n@,
                None => "ctx"@,
            }) + ".tmp-"@ + decimal_spec(process as nat),
    {
        let mut m = ".".to_string();
        m.append(
            match name {
                Some(n) => n,
                None => "ctx",
            },
        );
        m.append(".tmp-");
        m.append(decimal(process as u128).as_str());
        m
    }
}

/// Lines, each with its end.
pub open spec fn archive_spec(lines: Seq<Seq<char>>) -> Seq<char>
    decreases lines.len(),
{
    if lines.len() == 0 {
        Seq::empty()
    } else {
        archive_spec(lines.drop_last()) + lines.last() + "\n"@
    }
}

// ---- the service ----

#[derive(Debug, Clone, Copy)]
pub struct MemorySettings {
    /// The limits of scoring and auditing; none where there is neither.
    pub compressor: Option<Compressor>,
    pub persist: bool,
    pub history_turns: usize,
    pub grace_turns: usize,
    pub critical_max_items: usize,
    pub critical_reaudit: usize,
    pub trigger_turns: usize,
}

/// The context at hand.
pub struct MemoryService {
    pub history: Vec<HistoryEntry>,
    pub critical: Vec<String>,
    pub memory: Option<String>,
    pub since_audit: usize,
    /// The number of the next entry.
    pub seq: u64,
    /// Up to which number entries are in the archive.
    pub saved: u64,
    pub settings: MemorySettings,
}

#[verifier::ext_equal]
pub struct MemoryView {
    pub history: Seq<EntryView>,
    pub critical: Seq<Seq<char>>,
    pub memory: Option<Seq<char>>,
    pub since_audit: usize,
    pub seq: u64,
    pub saved: u64,
    pub settings: MemorySettings,
}

/// Whether a history is orderly: the numbers of its entries grow and are below
/// the next one, and no score exceeds five.
pub open spec fn orderly(h: Seq<EntryView>, next: u64) -> bool {
    &&& forall|i: int, j: int|
        0 <= i < j < h.len() ==> (#[trigger] h[i]).seq < (#[trigger] h[j]).seq
    &&& forall|i: int| 0 <= i < h.len() ==> (#[trigger] h[i]).seq < next && h[i].score <= 5
}

impl MemoryView {
    /// What holds of every memory: each number that was used is below the next one,
    /// whether its entry is at hand or in the archive, and the history is orderly.
    pub open spec fn wf(self) -> bool {
        orderly(self.history, self.seq) && self.saved < self.seq
    }
}

impl View for MemoryService {
    type V = MemoryView;

    open spec fn view(&self) -> MemoryView {
        MemoryView {
            history: entry_views(self.history@),
            critical: texts(self.critical@),
            memory: opt_text(self.memory),
            since_audit: self.since_audit,
            seq: self.seq,
            saved: self.saved,
            settings: self.settings,
        }
    }
}

impl Service for MemoryService {
    open spec fn key_spec() -> u64 {
        4
    }

    open spec fn title() -> Seq<char> {
        "memory"@
    }

    fn key() -> (r: u64) {
        4
    }

    fn service_name_static() -> (r: &'static str) {
        "memory"
    }
}

/// Twice a number of turns, as far as a length can count.
pub open spec fn two_per_turn(turns: usize) -> int {
    if turns * 2 > usize::MAX {
        usize::MAX as int
    } else {
        turns * 2
    }
}

/// The last entries of a history: two for each turn.
pub open spec fn trimmed_history(h: Seq<EntryView>, turns: usize) -> Seq<EntryView> {
    if h.len() > two_per_turn(turns) {
        h.skip(h.len() - two_per_turn(turns))
    } else {
        h
    }
}

/// Where the first entry of a number stands; its length where there is none.
pub open spec fn entry_at(h: Seq<EntryView>, seq: u64) -> nat
    decreases h.len(),
{
    if h.len() == 0 {
        0
    } else if h[0].seq == seq {
        0
    } else {
        1 + entry_at(h.drop_first(), seq)
    }
}

pub open spec fn capped(score: u8) -> u8 {
    if score > 5 {
        5
    } else {
        score
    }
}

/// The history with the score of one entry changed.
pub open spec fn rescored(h: Seq<EntryView>, seq: u64, score: u8) -> Seq<EntryView> {
    let i = entry_at(h, seq) as int;
    if i < h.len() {
        h.update(i, EntryView { score: capped(score), ..h[i] })
    } else {
        h
    }
}

/// The history with some scores changed, one after the other.
pub open spec fn rescored_all(h: Seq<EntryView>, scores: Seq<(u64, u8)>) -> Seq<EntryView>
    decreases scores.len(),
{
    if scores.len() == 0 {
        h
    } else {
        rescored(rescored_all(h, scores.drop_last()), scores.last().0, scores.last().1)
    }
}

/// The score of the last thing that the user said; three where that has none.
pub open spec fn last_user_score(h: Seq<EntryView>) -> u8
    decreases h.len(),
{
    if h.len() == 0 {
        3
    } else if h.last().role == "user"@ {
        if h.last().score == 0 {
            3
        } else {
            h.last().score
        }
    } else {
        last_user_score(h.drop_last())
    }
}

/// The entries that stay when some are dropped: those that are not dropped, and
/// those from `grace_start` on.
pub open spec fn evicted(h: Seq<EntryView>, dropped: Seq<u64>, grace_start: int) -> Seq<EntryView>
    decreases h.len(),
{
    if h.len() == 0 {
        Seq::empty()
    } else {
        let rest = evicted(h.drop_last(), dropped, grace_start);
        if !dropped.contains(h.last().seq) || h.len() - 1 >= grace_start {
            rest.push(h.last())
        } else {
            rest
        }
    }
}

/// Where the entries that are never evicted begin.
pub open spec fn grace_start(len: nat, grace: usize) -> int {
    if len > grace {
        len - grace
    } else {
        0
    }
}

/// A list with the texts of another that it does not hold, in order.
pub open spec fn united(a: Seq<Seq<char>>, b: Seq<Seq<char>>) -> Seq<Seq<char>>
    decreases b.len(),
{
    if b.len() == 0 {
        a
    } else {
        let rest = united(a, b.drop_last());
        if rest.contains(b.last()) {
            rest
        } else {
            rest.push(b.last())
        }
    }
}

/// The critical memories after an audit: the new ones alone where the old were
/// judged again, otherwise both; at most `max`.
pub open spec fn merged_critical(
    a: Seq<Seq<char>>,
    b: Seq<Seq<char>>,
    max: usize,
    reaudit: bool,
) -> Seq<Seq<char>> {
    let all = if reaudit {
        b
    } else {
        united(a, b)
    };
    if all.len() > max {
        all.take(max as int)
    } else {
        all
    }
}

/// The entries after a number.
pub open spec fn entries_after(h: Seq<EntryView>, saved: u64) -> Seq<EntryView>
    decreases h.len(),
{
    if h.len() == 0 {
        Seq::empty()
    } else {
        let rest = entries_after(h.drop_last(), saved);
        if h.last().seq > saved {
            rest.push(h.last())
        } else {
            rest
        }
    }
}

/// The greatest number of some entries, or `least` where it is greater.
pub open spec fn greatest_seq(h: Seq<EntryView>, least: u64) -> u64
    decreases h.len(),
{
    if h.len() == 0 {
        least
    } else {
        let rest = greatest_seq(h.drop_last(), least);
        if h.last().seq > rest {
            h.last().seq
        } else {
            rest
        }
    }
}

/// What the model is told: the instruction, the critical memories, the memory,
/// and the history.
pub open spec fn context_messages(m: MemoryView, base: Seq<char>) -> Seq<MessageView> {
    let critical = if m.critical.len() > 0 {
        seq![said("system"@, "[关键记忆]\n"@ + join_spec(m.critical, "\n"@))]
    } else {
        Seq::empty()
    };
    let memory = match m.memory {
        Some(t) => seq![said("system"@, "[次级记忆]\n"@ + t)],
        None => Seq::empty(),
    };
    seq![said("system"@, base)] + critical + memory + m.history.map_values(
        |e: EntryView| said(e.role, e.content),
    )
}

/// The state after an entry has been added.
pub open spec fn pushed(m: MemoryView, e: EntryView) -> MemoryView {
    MemoryView {
        history: trimmed_history(m.history.push(e), m.settings.history_turns),
        seq: m.seq.wrapping_add(1),
        ..m
    }
}

/// The state after an entry has been scored.
pub open spec fn scored(m: MemoryView, seq: u64, score: u8, critical: Option<Seq<char>>) -> MemoryView {
    MemoryView {
        history: rescored(m.history, seq, score),
        critical: match critical {
            Some(c) => if trim_spec(c).len() > 0 && !m.critical.contains(trim_spec(c)) {
                m.critical.push(trim_spec(c))
            } else {
                m.critical
            },
            None => m.critical,
        },
        ..m
    }
}

/// The state after the user has said something.
pub open spec fn remembered(m: MemoryView, text: Seq<char>, ts: Seq<char>) -> MemoryView {
    pushed(m, EntryView { role: "user"@, content: text, score: 0, seq: m.seq, ts })
}

/// The state after the assistant has answered: the answer has the score of what
/// it answers.
pub open spec fn answer_remembered(m: MemoryView, text: Seq<char>, ts: Seq<char>) -> MemoryView {
    pushed(
        m,
        EntryView {
            role: "assistant"@,
            content: text,
            score: capped(last_user_score(m.history)),
            seq: m.seq,
            ts,
        },
    )
}

/// The state after a tool has given something.
pub open spec fn tool_remembered(m: MemoryView, text: Seq<char>, ts: Seq<char>) -> MemoryView {
    pushed(m, EntryView { role: "user"@, content: text, score: 3, seq: m.seq, ts })
}

/// The state after what is new has gone into the archive.
pub open spec fn persisted(m: MemoryView) -> MemoryView {
    if m.settings.persist {
        MemoryView { saved: greatest_seq(entries_after(m.history, m.saved), m.saved), ..m }
    } else {
        m
    }
}

/// The state at the beginning of a new session.
pub open spec fn emptied(m: MemoryView) -> MemoryView {
    MemoryView {
        history: Seq::empty(),
        critical: Seq::empty(),
        memory: None,
        since_audit: 0,
        ..m
    }
}

/// Whether a turn was counted, and an audit begun where one is due.
pub open spec fn audit_begun(
    before: MemoryView,
    model: Seq<char>,
    after: MemoryView,
    start: Option<AuditStart>,
) -> bool {
    match before.settings.compressor {
        None => start is None && after == before,
        Some(c) => if audit_due(before) {
            &&& after == (MemoryView { since_audit: 0, ..before })
            &&& start is Some
            &&& start->0.reaudit == reaudit_due(before)
            &&& start->0.request@ == (RequestView {
                model,
                messages: audit_messages(
                    before.history,
                    if reaudit_due(before) {
                        before.critical
                    } else {
                        Seq::empty()
                    },
                    c.memory_max_chars as nat,
                    c.critical_max_items as nat,
                ),
                max_tokens: 500,
                json: true,
                enable_thinking: false,
            })
        } else {
            start is None && after == (MemoryView {
                since_audit: (before.since_audit + 1) as usize,
                ..before
            })
        },
    }
}

/// Whether an audit is due after one more turn.
pub open spec fn audit_due(m: MemoryView) -> bool {
    m.since_audit + 1 >= m.settings.trigger_turns || m.history.len() > two_per_turn(
        m.settings.history_turns,
    )
}

/// Whether an audit judges the old critical memories again.
pub open spec fn reaudit_due(m: MemoryView) -> bool {
    m.critical.len() >= m.settings.critical_reaudit
}

/// The state after an audit.
pub open spec fn audited(m: MemoryView, o: AuditOutcome, reaudit: bool) -> MemoryView {
    let rescored_history = rescored_all(m.history, o.scores@);
    MemoryView {
        history: evicted(
            rescored_history,
            o.dropped_seqs@,
            grace_start(rescored_history.len(), m.settings.grace_turns),
        ),
        critical: merged_critical(
            m.critical,
            texts(o.critical@),
            m.settings.critical_max_items,
            reaudit,
        ),
        memory: Some(o.memory@),
        ..m
    }
}

/// Whether a snapshot holds the context at hand.
pub open spec fn snapshot_of(m: MemoryView, s: ChatSnapshot) -> bool {
    &&& s.seq == m.seq
    &&& entry_views(s.history@) == m.history
    &&& texts(s.critical@) == m.critical
    &&& opt_text(s.memory) == m.memory
    &&& s.since_audit == m.since_audit
}

/// A request that scores what the user said.
pub open spec fn score_request_spec(text: Seq<char>, model: Seq<char>) -> RequestView {
    RequestView {
        model,
        messages: seq![said("system"@, score_system_spec()), said("user"@, text)],
        max_tokens: 200,
        json: true,
        enable_thinking: false,
    }
}

/// An audit that is due: what is sent, and whether the old critical memories are
/// judged again.
pub struct AuditStart {
    pub request: ChatRequest,
    pub reaudit: bool,
}

/// What is to be written: the entries that are new to the archive, and the
/// context at hand.
pub struct PersistPlan {
    pub entries: Vec<HistoryEntry>,
    pub snapshot: ChatSnapshot,
}

fn doubled(turns: usize) -> (r: usize)
    ensures
        r == two_per_turn(turns),
{
    if turns > usize::MAX / 2 {
        usize::MAX
    } else {
        turns * 2
    }
}

fn copy_entries(v: &Vec<HistoryEntry>) -> (r: Vec<HistoryEntry>)
    ensures
        r@ == v@,
{
    let mut out: Vec<HistoryEntry> = Vec::new();
    let mut i: usize = 0;
    while i < v.len()
        invariant
            i <= v@.len(),
            out@ == v@.take(i as int),
        decreases v@.len() - i,
    {
        out.push(v[i].clone());
        assert(v@.take(i as int + 1) =~= v@.take(i as int).push(v@[i as int]));
        i += 1;
    }
    assert(v@.take(v@.len() as int) =~= v@);
    out
}

/// Keeps the last entries of a history: two for each turn.
pub fn trim(h: &mut Vec<HistoryEntry>, turns: usize)
    ensures
        entry_views(final(h)@) == trimmed_history(entry_views(old(h)@), turns),
{
    let keep: usize = doubled(turns);
    let ghost all = h@;
    if h.len() > keep {
        let from: usize = h.len() - keep;
        let mut out: Vec<HistoryEntry> = Vec::new();
        let mut i: usize = from;
        let n: usize = h.len();
        while i < n
            invariant
                from <= i <= n,
                n == h@.len(),
                h@ == all,
                out@ == all.subrange(from as int, i as int),
            decreases n - i,
        {
            out.push(h[i].clone());
            assert(all.subrange(from as int, i as int + 1) =~= all.subrange(
                from as int,
                i as int,
            ).push(all[i as int]));
            i += 1;
        }
        *h = out;
        assert(entry_views(h@) =~= entry_views(all).skip(from as int));
    }
}

fn holds_seq(list: &Vec<u64>, seq: u64) -> (r: bool)
    ensures
        r == list@.contains(seq),
{
    let mut i: usize = 0;
    while i < list.len()
        invariant
            i <= list@.len(),
            forall|k: int| 0 <= k < i ==> list@[k] != seq,
        decreases list@.len() - i,
    {
        if list[i] == seq {
            assert(list@[i as int] == seq);
            return true;
        }
        i += 1;
    }
    false
}

/// The entries that stay when some are dropped; the last `grace` always stay.
pub fn evict(entries: &Vec<HistoryEntry>, dropped: &Vec<u64>, grace: usize) -> (r: Vec<
    HistoryEntry,
>)
    ensures
        entry_views(r@) == evicted(
            entry_views(entries@),
            dropped@,
            grace_start(entries@.len(), grace),
        ),
{
    let n: usize = entries.len();
    let start: usize = if n > grace {
        n - grace
    } else {
        0
    };
    let ghost all = entry_views(entries@);
    let mut out: Vec<HistoryEntry> = Vec::new();
    let mut i: usize = 0;
    assert(all.take(0).len() == 0);
    while i < n
        invariant
            i <= n,
            n == entries@.len(),
            all == entry_views(entries@),
            entry_views(out@) =~= evicted(all.take(i as int), dropped@, start as int),
        decreases n - i,
    {
        assert(all.take(i as int + 1).drop_last() =~= all.take(i as int));
        assert(all[i as int] == entries@[i as int]@);
        if !holds_seq(dropped, entries[i].seq) || i >= start {
            out.push(entries[i].clone());
        }
        i += 1;
    }
    assert(all.take(i as int) =~= all);
    out
}

/// The critical memories after an audit.
pub fn merge_critical(old_items: &Vec<String>, new_items: &Vec<String>, max: usize, reaudit: bool) -> (r:
    Vec<String>)
    ensures
        texts(r@) == merged_critical(texts(old_items@), texts(new_items@), max, reaudit),
{
    let mut out: Vec<String> = if reaudit {
        copy_list(new_items)
    } else {
        copy_list(old_items)
    };
    if !reaudit {
        let ghost a = texts(old_items@);
        let ghost b = texts(new_items@);
        let mut i: usize = 0;
        assert(b.take(0).len() == 0);
        while i < new_items.len()
            invariant
                i <= new_items@.len(),
                b == texts(new_items@),
                texts(out@) =~= united(a, b.take(i as int)),
            decreases new_items@.len() - i,
        {
            assert(b.take(i as int + 1).drop_last() =~= b.take(i as int));
            assert(b[i as int] == new_items@[i as int]@);
            if !holds(&out, new_items[i].as_str()) {
                out.push(new_items[i].clone());
            }
            i += 1;
        }
        assert(b.take(i as int) =~= b);
    }
    let ghost all = texts(out@);
    if out.len() > max {
        out.truncate(max);
        assert(texts(out@) =~= all.take(max as int));
    }
    out
}

fn find_entry(h: &Vec<HistoryEntry>, seq: u64) -> (r: usize)
    ensures
        r == entry_at(entry_views(h@), seq),
        r <= h@.len(),
{
    let ghost all = entry_views(h@);
    let mut i: usize = 0;
    assert(all.skip(0) =~= all);
    while i < h.len() && h[i].seq != seq
        invariant
            i <= h@.len(),
            all == entry_views(h@),
            entry_at(all, seq) == i + entry_at(all.skip(i as int), seq),
        decreases h@.len() - i,
    {
        assert(all.skip(i as int)[0] == h@[i as int]@);
        assert(all.skip(i as int).drop_first() =~= all.skip(i as int + 1));
        i += 1;
    }
    proof {
        if i < h@.len() {
            assert(all.skip(i as int)[0] == h@[i as int]@);
        } else {
            assert(all.skip(i as int).len() == 0);
        }
    }
    i
}

fn rescore(h: &mut Vec<HistoryEntry>, seq: u64, score: u8)
    ensures
        entry_views(final(h)@) == rescored(entry_views(old(h)@), seq, score),
{
    let ghost all = entry_views(h@);
    let i: usize = find_entry(h, seq);
    if i < h.len() {
        let e = h[i].clone();
        h.set(i, e.with_score(score));
        assert(entry_views(h@) =~= rescored(all, seq, score));
    }
}

impl MemoryService {
    /// The service for some options, with the context of the last session where
    /// there is one.
    pub fn new(opts: &MemoryOptions, last: Option<ChatSnapshot>) -> (r: MemoryService)
        ensures
            r@.settings == settings_of(*opts),
            r@ == resumed(fresh_memory(settings_of(*opts)), last),
            last is None ==> r@.wf(),
    {
        let settings = MemorySettings {
            compressor: if opts.enabled {
                Some(Compressor::new(opts.memory_max_chars, opts.critical_max_items))
            } else {
                None
            },
            persist: opts.enabled,
            history_turns: opts.history_turns,
            grace_turns: opts.grace_turns,
            critical_max_items: opts.critical_max_items,
            critical_reaudit: opts.critical_reaudit,
            trigger_turns: opts.trigger_turns,
        };
        let mut svc = MemoryService {
            history: Vec::new(),
            critical: Vec::new(),
            memory: None,
            since_audit: 0,
            seq: 1,
            saved: 0,
            settings,
        };
        assert(svc@ =~= fresh_memory(settings));
        svc.resume(last);
        svc
    }

    fn push(&mut self, entry: HistoryEntry)
        ensures
            final(self)@ == pushed(old(self)@, entry@),
    {
        let ghost before = self@;
        self.history.push(entry);
        assert(entry_views(self.history@) =~= before.history.push(entry@));
        trim(&mut self.history, self.settings.history_turns);
        self.seq = self.seq.wrapping_add(1);
    }

    /// Notes what the user said. What comes back is the number of the entry and
    /// the request that scores it, where entries are scored.
    pub fn record_user(&mut self, text: &str, ts: &str, model: &str) -> (r: (
        u64,
        Option<ChatRequest>,
    ))
        ensures
            final(self)@ == remembered(old(self)@, text@, ts@),
            old(self)@.wf() && old(self)@.seq < u64::MAX ==> final(self)@.wf(),
            r.0 == old(self)@.seq,
            match old(self)@.settings.compressor {
                Some(_) => r.1 is Some && r.1->0@ == score_request_spec(text@, model@),
                None => r.1 is None,
            },
    {
        let ghost before = self@;
        proof {
            if before.wf() && before.seq < u64::MAX {
                steps_keep_order(before, MemoryStep::User(text@, ts@));
            }
        }
        let seq: u64 = self.seq;
        self.push(HistoryEntry::user(text.to_string(), seq, ts.to_string()));
        match self.settings.compressor {
            Some(c) => {
                let probe = HistoryEntry::user(text.to_string(), seq, String::new());
                let req = c.score_entry(&probe, model);
                assert(req@.messages =~= score_request_spec(text@, model@).messages);
                (seq, Some(req))
            },
            None => (seq, None),
        }
    }

    /// Takes note of the score of an entry: it goes with the entry, and what is
    /// critical is kept at once, unless it is kept already.
    pub fn apply_score(&mut self, seq: u64, s: EntryScore)
        ensures
            final(self)@ == scored(old(self)@, seq, s.score, opt_text(s.critical)),
            old(self)@.wf() ==> final(self)@.wf(),
    {
        let ghost before = self@;
        proof {
            if before.wf() {
                steps_keep_order(before, MemoryStep::Score(seq, s.score, opt_text(s.critical)));
            }
        }
        rescore(&mut self.history, seq, s.score);
        if let Some(c) = s.critical {
            let c = trim_text(c.as_str());
            if c.as_str().unicode_len() > 0 && !holds(&self.critical, c.as_str()) {
                self.critical.push(c);
                assert(texts(self.critical@) =~= before.critical.push(c@));
            }
        }
    }

    /// Notes what the assistant answered, with the score of what it answers.
    pub fn record_assistant(&mut self, text: &str, ts: &str)
        ensures
            final(self)@ == answer_remembered(old(self)@, text@, ts@),
            old(self)@.wf() && old(self)@.seq < u64::MAX ==> final(self)@.wf(),
    {
        let ghost before = self@;
        proof {
            if before.wf() && before.seq < u64::MAX {
                steps_keep_order(before, MemoryStep::Assistant(text@, ts@));
            }
        }
        let ghost all = self@.history;
        let mut score: u8 = 3;
        let mut i: usize = self.history.len();
        let mut found = false;
        assert(all.take(i as int) =~= all);
        while i > 0 && !found
            invariant
                i <= self.history@.len(),
                all == entry_views(self.history@),
                found ==> score == last_user_score(all),
                !found ==> score == 3 && last_user_score(all) == last_user_score(
                    all.take(i as int),
                ),
            decreases i,
        {
            let e = &self.history[i - 1];
            assert(all[i as int - 1] == e@);
            assert(all.take(i as int).drop_last() =~= all.take(i as int - 1));
            assert(all.take(i as int).last() == all[i as int - 1]);
            if same(e.role.as_str(), "user") {
                score = if e.score == 0 {
                    3
                } else {
                    e.score
                };
                found = true;
            }
            i -= 1;
        }
        assert(!found ==> all.take(0).len() == 0);
        let seq: u64 = self.seq;
        self.push(
            HistoryEntry::assistant(text.to_string(), seq, ts.to_string()).with_score(score),
        );
    }

    /// Notes what a tool gave.
    pub fn record_tool_result(&mut self, text: &str, ts: &str)
        ensures
            final(self)@ == tool_remembered(old(self)@, text@, ts@),
            old(self)@.wf() && old(self)@.seq < u64::MAX ==> final(self)@.wf(),
    {
        let ghost before = self@;
        proof {
            if before.wf() && before.seq < u64::MAX {
                steps_keep_order(before, MemoryStep::Tool(text@, ts@));
            }
        }
        let seq: u64 = self.seq;
        self.push(HistoryEntry::tool_result(text.to_string(), seq, ts.to_string()));
    }

    /// Counts a turn, and begins an audit where one is due.
    pub fn audit_if_needed(&mut self, model: &str) -> (r: Option<AuditStart>)
        requires
            old(self)@.since_audit < usize::MAX,
        ensures
            audit_begun(old(self)@, model@, final(self)@, r),
            old(self)@.wf() ==> final(self)@.wf(),
    {
        match self.settings.compressor {
            None => None,
            Some(c) => {
                self.since_audit = self.since_audit + 1;
                let over = self.history.len() > doubled(self.settings.history_turns);
                if self.since_audit >= self.settings.trigger_turns || over {
                    self.since_audit = 0;
                } else {
                    return None;
                }
                let reaudit = self.critical.len() >= self.settings.critical_reaudit;
                let old_critical: Vec<String> = if reaudit {
                    copy_list(&self.critical)
                } else {
                    Vec::new()
                };
                assert(!reaudit ==> texts(old_critical@) =~= Seq::empty());
                let request = c.audit(&self.history, &old_critical, model);
                Some(AuditStart { request, reaudit })
            },
        }
    }

    /// Takes note of what an audit found: the scores, what is dropped, what is
    /// critical, and the memory.
    pub fn apply_audit(&mut self, outcome: AuditOutcome, reaudit: bool)
        ensures
            final(self)@ == audited(old(self)@, outcome, reaudit),
            old(self)@.wf() ==> final(self)@.wf(),
    {
        let ghost before = self@;
        proof {
            if before.wf() {
                steps_keep_order(before, MemoryStep::Audit(outcome, reaudit));
            }
        }
        let ghost scores = outcome.scores@;
        let mut i: usize = 0;
        assert(scores.take(0).len() == 0);
        while i < outcome.scores.len()
            invariant
                i <= outcome.scores@.len(),
                scores == outcome.scores@,
                self@ == (MemoryView { history: self@.history, ..before }),
                self@.history == rescored_all(before.history, scores.take(i as int)),
            decreases outcome.scores@.len() - i,
        {
            assert(scores.take(i as int + 1).drop_last() =~= scores.take(i as int));
            let (seq, score) = outcome.scores[i];
            rescore(&mut self.history, seq, score);
            i += 1;
        }
        assert(scores.take(i as int) =~= scores);
        self.history = evict(&self.history, &outcome.dropped_seqs, self.settings.grace_turns);
        self.critical = merge_critical(
            &self.critical,
            &outcome.critical,
            self.settings.critical_max_items,
            reaudit,
        );
        self.memory = Some(outcome.memory);
    }

    /// What the model is told.
    pub fn build_context(&self, base: &str) -> (r: Vec<ChatMessage>)
        ensures
            message_views(r@) == context_messages(self@, base@),
    {
        let mut msgs: Vec<ChatMessage> = Vec::new();
        msgs.push(ChatMessage::new("system", base));
        if self.critical.len() > 0 {
            let mut content = "[关键记忆]\n".to_string();
            content.append(join(&self.critical, "\n").as_str());
            msgs.push(ChatMessage::new("system", content.as_str()));
        }
        if let Some(m) = &self.memory {
            let mut content = "[次级记忆]\n".to_string();
            content.append(m.as_str());
            msgs.push(ChatMessage::new("system", content.as_str()));
        }
        let ghost head = message_views(msgs@);
        let ghost h = self@.history;
        let mut i: usize = 0;
        while i < self.history.len()
            invariant
                i <= self.history@.len(),
                h == entry_views(self.history@),
                msgs@.len() == head.len() + i,
                forall|k: int| 0 <= k < head.len() ==> (#[trigger] msgs@[k])@ == head[k],
                forall|k: int|
                    head.len() <= k < head.len() + i ==> (#[trigger] msgs@[k])@ == said(
                        h[k - head.len()].role,
                        h[k - head.len()].content,
                    ),
            decreases self.history@.len() - i,
        {
            let e = &self.history[i];
            assert(h[i as int] == e@);
            msgs.push(ChatMessage::new(e.role.as_str(), e.content.as_str()));
            i += 1;
        }
        assert(message_views(msgs@) =~= head + h.map_values(
            |e: EntryView| said(e.role, e.content),
        ));
        assert(message_views(msgs@) =~= context_messages(self@, base@));
        msgs
    }

    /// What is to be written after a turn, where anything is kept.
    pub fn persist(&mut self) -> (r: Option<PersistPlan>)
        ensures
            if old(self)@.settings.persist {
                let fresh = entries_after(old(self)@.history, old(self)@.saved);
                &&& r is Some
                &&& entry_views(r->0.entries@) == fresh
                &&& snapshot_of(old(self)@, r->0.snapshot)
            } else {
                r is None
            },
            final(self)@ == persisted(old(self)@),
            old(self)@.wf() ==> final(self)@.wf(),
    {
        let ghost before = self@;
        proof {
            if before.wf() {
                steps_keep_order(before, MemoryStep::Persist);
            }
        }
        if !self.settings.persist {
            return None;
        }
        let saved: u64 = self.saved;
        let ghost all = self@.history;
        let mut entries: Vec<HistoryEntry> = Vec::new();
        let mut greatest: u64 = saved;
        let mut i: usize = 0;
        assert(all.take(0).len() == 0);
        assert(entry_views(entries@) =~= Seq::empty());
        while i < self.history.len()
            invariant
                i <= self.history@.len(),
                all == entry_views(self.history@),
                entry_views(entries@) == entries_after(all.take(i as int), saved),
                greatest == greatest_seq(entry_views(entries@), saved),
            decreases self.history@.len() - i,
        {
            assert(all.take(i as int + 1).drop_last() =~= all.take(i as int));
            assert(all[i as int] == self.history@[i as int]@);
            if self.history[i].seq > saved {
                let ghost had = entry_views(entries@);
                entries.push(self.history[i].clone());
                assert(entry_views(entries@) =~= had.push(all[i as int]));
                assert(entry_views(entries@).drop_last() =~= had);
                if self.history[i].seq > greatest {
                    greatest = self.history[i].seq;
                }
            }
            i += 1;
        }
        assert(all.take(i as int) =~= all);
        let snapshot = self.snapshot();
        self.saved = greatest;
        Some(PersistPlan { entries, snapshot })
    }

    /// Begins a new session: the context at hand is emptied, and numbers go on.
    /// What comes back is to be kept, after a line that separates the sessions.
    pub fn reset_session(&mut self) -> (r: Option<ChatSnapshot>)
        ensures
            final(self)@ == emptied(old(self)@),
            old(self)@.wf() ==> final(self)@.wf(),
            if old(self)@.settings.persist {
                r is Some && snapshot_of(final(self)@, r->0)
            } else {
                r is None
            },
    {
        self.history = Vec::new();
        self.critical = Vec::new();
        self.memory = None;
        self.since_audit = 0;
        assert(entry_views(self.history@) =~= Seq::empty());
        assert(texts(self.critical@) =~= Seq::empty());
        if self.settings.persist {
            Some(self.snapshot())
        } else {
            None
        }
    }

    /// What was said, as far as it is at hand.
    pub fn history(&self) -> (r: &Vec<HistoryEntry>)
        ensures
            *r == self.history,
    {
        &self.history
    }

    /// What must not be forgotten.
    pub fn critical_items(&self) -> (r: Vec<String>)
        ensures
            texts(r@) == texts(self.critical@),
    {
        copy_list(&self.critical)
    }

    /// The summary of what was said before.
    pub fn memory_text(&self) -> (r: Option<String>)
        ensures
            opt_text(r) == opt_text(self.memory),
    {
        match &self.memory {
            Some(m) => Some(m.clone()),
            None => None,
        }
    }

    /// The context at hand.
    pub fn snapshot(&self) -> (r: ChatSnapshot)
        ensures
            snapshot_of(self@, r),
    {
        ChatSnapshot {
            seq: self.seq,
            history: copy_entries(&self.history),
            critical: self.critical_items(),
            memory: self.memory_text(),
            since_audit: self.since_audit,
        }
    }

    /// Goes on with the context of the last session, where there is one. Its
    /// entries are in the archive already; the next one is not.
    pub fn resume(&mut self, last: Option<ChatSnapshot>)
        ensures
            final(self)@ == resumed(old(self)@, last),
    {
        if !self.settings.persist {
            return;
        }
        if let Some(snap) = last {
            self.history = snap.history;
            self.critical = snap.critical;
            self.memory = snap.memory;
            self.since_audit = snap.since_audit;
            self.seq = if snap.seq < 1 {
                1
            } else {
                snap.seq
            };
            self.saved = self.seq - 1;
        }
    }
}

/// The settings that some options mean.
pub open spec fn settings_of(opts: MemoryOptions) -> MemorySettings {
    MemorySettings {
        compressor: if opts.enabled {
            Some(
                Compressor {
                    memory_max_chars: opts.memory_max_chars,
                    critical_max_items: opts.critical_max_items,
                },
            )
        } else {
            None
        },
        persist: opts.enabled,
        history_turns: opts.history_turns,
        grace_turns: opts.grace_turns,
        critical_max_items: opts.critical_max_items,
        critical_reaudit: opts.critical_reaudit,
        trigger_turns: opts.trigger_turns,
    }
}

/// A service that nothing has been told yet.
pub open spec fn fresh_memory(settings: MemorySettings) -> MemoryView {
    MemoryView {
        history: Seq::empty(),
        critical: Seq::empty(),
        memory: None,
        since_audit: 0,
        seq: 1,
        saved: 0,
        settings,
    }
}

/// The state after going on with the context of the last session.
pub open spec fn resumed(m: MemoryView, last: Option<ChatSnapshot>) -> MemoryView {
    match last {
        Some(snap) => if m.settings.persist {
            let seq = if snap.seq < 1 {
                1
            } else {
                snap.seq
            };
            MemoryView {
                history: entry_views(snap.history@),
                critical: texts(snap.critical@),
                memory: opt_text(snap.memory),
                since_audit: snap.since_audit,
                seq,
                saved: (seq - 1) as u64,
                ..m
            }
        } else {
            m
        },
        None => m,
    }
}

// ---- the plugin ----

pub struct MemoryPlugin;

pub fn factory() -> (r: MemoryPlugin)
    ensures
        r == MemoryPlugin,
{
    MemoryPlugin
}

/// What the command for a new session says.
pub const NEW_SESSION: &'static str = "已新建会话(可用上下文已清空)";

/// What comes of applying the plugin: the context after it, and whether it was
/// done.
pub open spec fn memory_outcome(c: ContextView, scope: u64, options: Result<MemoryOptions, String>) -> (
    ContextView,
    Result<(), Seq<char>>,
) {
    match options {
        Err(e) => (c, Err(e@)),
        Ok(o) => if !o.enabled {
            (c, Ok(()))
        } else if service_at(c.services, LlmService::key_spec()) is None {
            (c, Err("缺少 llm 服务"@))
        } else {
            (memory_applied(c, scope), Ok(()))
        },
    }
}

impl Plugin for MemoryPlugin {
    type Options = Result<MemoryOptions, String>;

    open spec fn title(&self) -> Seq<char> {
        "memory"@
    }

    open spec fn needs(&self) -> Seq<Seq<char>> {
        seq!["llm"@]
    }

    open spec fn demand(&self) -> nat {
        2
    }

    open spec fn may_come_to(
        &self,
        before: ContextView,
        scope: u64,
        options: Result<MemoryOptions, String>,
        after: ContextView,
        r: Result<(), Seq<char>>,
    ) -> bool {
        (after, r) == memory_outcome(before, scope, options)
    }

    fn name(&self) -> (r: &'static str) {
        "memory"
    }

    fn inject(&self) -> (r: Vec<&'static str>) {
        let mut v: Vec<&'static str> = Vec::new();
        v.push("llm");
        assert(names(v@) =~= seq!["llm"@]);
        v
    }

    /// Provides the service and registers the command for a new session; nothing
    /// where the options switch it off.
    fn apply(&self, ctx: &mut Context, scope: u64, options: Result<MemoryOptions, String>) -> (r:
        Result<(), String>)
    {
        let ghost before = ctx@;
        proof {
            grows_reflexive(before, scope);
        }
        match options {
            Err(e) => Err(e),
            Ok(o) => {
                if !o.enabled {
                    return Ok(());
                }
                if !ctx.has_service::<LlmService>() {
                    return Err("缺少 llm 服务".to_string());
                }
                let instance: u64 = ctx.next_id();
                proof {
                    grows_counted(before, before, scope);
                }
                let ghost counted = ctx@;
                ctx.provide::<MemoryService>(scope, instance);
                let ghost provided = ctx@;
                proof {
                    grows_provided(
                        before,
                        counted,
                        scope,
                        ProvidedView {
                            key: MemoryService::key_spec(),
                            name: MemoryService::title(),
                            instance,
                        },
                    );
                    grows_registered(before, provided, scope, KindView::Command("new"@));
                }
                ctx.on_command(scope, "new");
                Ok(())
            },
        }
    }
}

/// The context with what the memory plugin registers.
pub open spec fn memory_applied(c: ContextView, scope: u64) -> ContextView {
    provided_spec(
        ContextView { next: (c.next + 1) as u64, ..c },
        scope,
        ProvidedView {
            key: MemoryService::key_spec(),
            name: MemoryService::title(),
            instance: c.next,
        },
    ).registered(scope, KindView::Command("new"@))
}

}  // verus!
