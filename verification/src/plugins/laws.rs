//! What holds of the plugins as a whole.

use crate::cordis::event::Event;
use crate::cordis::loader::LoaderService;
use crate::cordis::service::Service;
use crate::events::{SessionInput, SessionReply, SessionStatus};
use crate::fs::service::FsService;
use crate::llm::client::said;
use crate::llm::compress::{AuditOutcome, EntryView};
use crate::llm::LlmService;
use crate::plugins::chat::{
    asked, outcome_spec, replied, ChatService, ChatView, OutgoingView, CHAT_SYSTEM,
};
use crate::plugins::memory::{
    answer_remembered, audited, capped, context_messages, emptied, entries_after, entry_at, evicted,
    fresh_memory, grace_start, greatest_seq, last_user_score, merged_critical, orderly, persisted,
    pushed, remembered, rescored, rescored_all, resumed, scored, snapshot_of, tool_remembered,
    trimmed_history, two_per_turn, united, ChatSnapshot, MemoryService, MemorySettings, MemoryView,
};
use crate::plugins::microtask::MicroService;
use crate::plugins::subagent::{
    admitted, first_cmd_spec, first_command, line_command, next_call_spec, plain_lines, read_args,
    sanitized, step_spec, tokens, whitelisted, ArgsView, SubCallView, SubRun, SubagentService,
};
use crate::plugins::tui::TuiBackend;
use crate::subprocess::SubprocessService;
use crate::text::join_spec;
use crate::text::search::strip_prefix_spec;
use crate::text::split::{
    first_word_spec, is_line, joined_lines_are_the_text, joined_texts_are_lines, lines_spec, lines_stand_in_text, strip_cr, upto,
    upto_is_first,
};
use crate::text::trim::{is_white, trim_bounds, trim_is_stable, trim_of_padded, trim_spec};
use vstd::prelude::*;
use vstd::string::*;

verus! {

// ---- memory ----

/// The history never grows beyond two entries for each turn, and its end is what
/// was said last.
pub proof fn history_is_bounded(m: MemoryView, e: EntryView)
    ensures
        pushed(m, e).history.len() <= two_per_turn(m.settings.history_turns),
        m.settings.history_turns > 0 ==> pushed(m, e).history.last() == e,
        pushed(m, e).history.is_suffix_of(m.history.push(e)),
{
    let all = m.history.push(e);
    let kept = trimmed_history(all, m.settings.history_turns);
    assert(kept =~= all.subrange(all.len() - kept.len(), all.len() as int));
}

/// An entry that an audit did not drop stays; one that it dropped stays exactly
/// if it is among the last ones that are never evicted.
pub proof fn eviction_is_exact(h: Seq<EntryView>, dropped: Seq<u64>, start: int, i: int)
    requires
        0 <= i < h.len(),
    ensures
        !dropped.contains(h[i].seq) || i >= start ==> evicted(h, dropped, start).contains(h[i]),
        forall|e: EntryView| #[trigger] evicted(h, dropped, start).contains(e) ==> h.contains(e),
    decreases h.len(),
{
    let head = h.drop_last();
    let rest = evicted(head, dropped, start);
    let out = evicted(h, dropped, start);
    if i < head.len() {
        eviction_is_exact(head, dropped, start, i);
        assert(head[i] == h[i]);
        if rest.contains(h[i]) {
            let k = choose|k: int| 0 <= k < rest.len() && rest[k] == h[i];
            assert(out[k] == h[i]);
        }
    } else {
        if !dropped.contains(h.last().seq) || h.len() - 1 >= start {
            assert(out[rest.len() as int] == h.last());
        }
    }
    evicted_is_part(h, dropped, start);
}

proof fn evicted_is_part(h: Seq<EntryView>, dropped: Seq<u64>, start: int)
    ensures
        forall|e: EntryView| #[trigger] evicted(h, dropped, start).contains(e) ==> h.contains(e),
        evicted(h, dropped, start).len() <= h.len(),
    decreases h.len(),
{
    if h.len() > 0 {
        let head = h.drop_last();
        evicted_is_part(head, dropped, start);
        let rest = evicted(head, dropped, start);
        let out = evicted(h, dropped, start);
        assert forall|e: EntryView| #[trigger] out.contains(e) implies h.contains(e) by {
            let k = choose|k: int| 0 <= k < out.len() && out[k] == e;
            if k < rest.len() {
                assert(rest[k] == e);
                assert(rest.contains(e));
                let j = choose|j: int| 0 <= j < head.len() && head[j] == e;
                assert(h[j] == e);
            } else {
                assert(h[h.len() - 1] == e);
            }
        }
    }
}

/// A dropped entry that is not among the last ones is gone, if numbers are not
/// used twice.
pub proof fn dropped_entries_are_gone(h: Seq<EntryView>, dropped: Seq<u64>, start: int, i: int)
    requires
        0 <= i < h.len(),
        i < start,
        dropped.contains(h[i].seq),
        forall|a: int, b: int|
            0 <= a < b < h.len() ==> (#[trigger] h[a]).seq != (#[trigger] h[b]).seq,
    ensures
        forall|k: int|
            0 <= k < evicted(h, dropped, start).len() ==> (#[trigger] evicted(
                h,
                dropped,
                start,
            )[k]).seq != h[i].seq,
    decreases h.len(),
{
    let head = h.drop_last();
    let rest = evicted(head, dropped, start);
    let out = evicted(h, dropped, start);
    if i < head.len() {
        assert forall|a: int, b: int| 0 <= a < b < head.len() implies (#[trigger] head[a]).seq != (
        #[trigger] head[b]).seq by {
            assert(h[a].seq != h[b].seq);
        }
        dropped_entries_are_gone(head, dropped, start, i);
        assert forall|k: int| 0 <= k < out.len() implies (#[trigger] out[k]).seq != h[i].seq by {
            if k < rest.len() {
                assert(rest[k].seq != head[i].seq);
            } else {
                assert(h[i].seq != h[h.len() - 1].seq);
            }
        }
    } else {
        evicted_is_part(head, dropped, start);
        assert forall|k: int| 0 <= k < out.len() implies (#[trigger] out[k]).seq != h[i].seq by {
            assert(out[k] == rest[k]);
            assert(rest.contains(rest[k]));
            let j = choose|j: int| 0 <= j < head.len() && head[j] == rest[k];
            assert(h[j].seq != h[i].seq);
        }
    }
}

/// What the user says is the last thing that the model is told, after the
/// instruction and what must not be forgotten.
pub proof fn context_ends_with_the_question(
    m: MemoryView,
    text: Seq<char>,
    ts: Seq<char>,
    base: Seq<char>,
)
    requires
        m.settings.history_turns > 0,
    ensures
        context_messages(remembered(m, text, ts), base).last() == said("user"@, text),
        context_messages(remembered(m, text, ts), base)[0] == said("system"@, base),
        m.critical.len() > 0 ==> context_messages(remembered(m, text, ts), base)[1] == said(
            "system"@,
            "[关键记忆]\n"@ + join_spec(m.critical, "\n"@),
        ),
{
    let e = EntryView { role: "user"@, content: text, score: 0, seq: m.seq, ts };
    history_is_bounded(m, e);
    let h = remembered(m, text, ts).history;
    assert(h.last() == e);
}

/// The critical memories after an audit are at most as many as there may be.
pub proof fn critical_is_bounded(a: Seq<Seq<char>>, b: Seq<Seq<char>>, max: usize, reaudit: bool)
    ensures
        merged_critical(a, b, max, reaudit).len() <= max,
{
}

/// No critical memory is kept twice, and none of the old or new ones is lost
/// before the list is cut.
pub proof fn critical_is_united(a: Seq<Seq<char>>, b: Seq<Seq<char>>)
    requires
        a.no_duplicates(),
    ensures
        united(a, b).no_duplicates(),
        forall|c: Seq<char>|
            #[trigger] united(a, b).contains(c) <==> a.contains(c) || b.contains(c),
        a.is_prefix_of(united(a, b)),
    decreases b.len(),
{
    if b.len() > 0 {
        let head = b.drop_last();
        let last = b.last();
        critical_is_united(a, head);
        let rest = united(a, head);
        let out = united(a, b);
        assert(b[b.len() - 1] == last);
        assert forall|c: Seq<char>| #[trigger] out.contains(c) <==> a.contains(c) || b.contains(
            c,
        ) by {
            assert(rest.contains(c) <==> a.contains(c) || head.contains(c));
            if rest.contains(c) {
                let k = choose|k: int| 0 <= k < rest.len() && rest[k] == c;
                assert(out[k] == c);
            }
            if head.contains(c) {
                let k = choose|k: int| 0 <= k < head.len() && head[k] == c;
                assert(b[k] == c);
            }
            if b.contains(c) && c != last {
                let k = choose|k: int| 0 <= k < b.len() && b[k] == c;
                assert(head[k] == c);
            }
            if !rest.contains(last) {
                assert(out[rest.len() as int] == last);
            }
            if out.contains(c) && !rest.contains(c) {
                let k = choose|k: int| 0 <= k < out.len() && out[k] == c;
                assert(k == rest.len());
            }
        }
        if !rest.contains(last) {
            assert forall|i: int, j: int|
                0 <= i < out.len() && 0 <= j < out.len() && i != j implies out[i] != out[j] by {
                if i < rest.len() && j < rest.len() {
                    assert(rest[i] != rest[j]);
                } else if i < rest.len() {
                    assert(rest.contains(rest[i]));
                } else {
                    assert(rest.contains(rest[j]));
                }
            }
        }
        assert(a =~= out.subrange(0, a.len() as int)) by {
            assert(a =~= rest.subrange(0, a.len() as int));
            assert forall|k: int| 0 <= k < a.len() implies a[k] == out[k] by {
                assert(rest.subrange(0, a.len() as int)[k] == rest[k]);
            }
        }
    } else {
        assert(a =~= a.subrange(0, a.len() as int));
    }
}

/// What was kept is what is gone on with: resuming from a snapshot gives the
/// context that the snapshot was taken of.
pub proof fn snapshot_reads_back(m: MemoryView, s: ChatSnapshot, settings: MemorySettings)
    requires
        snapshot_of(m, s),
        settings.persist,
        m.seq >= 1,
    ensures
        ({
            let r = resumed(fresh_memory(settings), Some(s));
            &&& r.history == m.history
            &&& r.critical == m.critical
            &&& r.memory == m.memory
            &&& r.since_audit == m.since_audit
            &&& r.seq == m.seq
            &&& m.wf() ==> r.wf()
        }),
{
}

proof fn greatest_is_greatest(h: Seq<EntryView>, least: u64)
    ensures
        greatest_seq(h, least) >= least,
        forall|i: int| 0 <= i < h.len() ==> (#[trigger] h[i]).seq <= greatest_seq(h, least),
    decreases h.len(),
{
    if h.len() > 0 {
        let head = h.drop_last();
        greatest_is_greatest(head, least);
        assert forall|i: int| 0 <= i < h.len() implies (#[trigger] h[i]).seq <= greatest_seq(
            h,
            least,
        ) by {
            if i < head.len() {
                assert(head[i] == h[i]);
            }
        }
    }
}

proof fn nothing_after(h: Seq<EntryView>, saved: u64, mark: u64)
    requires
        mark >= greatest_seq(entries_after(h, saved), saved),
    ensures
        entries_after(h, mark).len() == 0,
    decreases h.len(),
{
    if h.len() > 0 {
        let head = h.drop_last();
        let fresh = entries_after(h, saved);
        let rest = entries_after(head, saved);
        greatest_is_greatest(fresh, saved);
        greatest_is_greatest(rest, saved);
        if h.last().seq > saved {
            assert(fresh.drop_last() =~= rest);
            assert(fresh[fresh.len() - 1] == h.last());
        }
        nothing_after(head, saved, mark);
    }
}

/// An entry goes to the archive once: when what is new has been written, nothing
/// of the same history is new.
pub proof fn archive_holds_entries_once(h: Seq<EntryView>, saved: u64)
    ensures
        entries_after(h, greatest_seq(entries_after(h, saved), saved)).len() == 0,
{
    nothing_after(h, saved, greatest_seq(entries_after(h, saved), saved));
}

/// After a session has been resumed, the next entry is new to the archive, and
/// the entries of the last session are not.
pub proof fn resumed_entries_are_archived(m: MemoryView, s: ChatSnapshot, e: EntryView)
    requires
        m.settings.persist,
        s.seq >= 1,
        e.seq == resumed(m, Some(s)).seq,
        forall|i: int| 0 <= i < s.history@.len() ==> (#[trigger] s.history@[i]).seq < s.seq,
    ensures
        e.seq > resumed(m, Some(s)).saved,
        forall|i: int|
            0 <= i < s.history@.len() ==> (#[trigger] s.history@[i]).seq <= resumed(
                m,
                Some(s),
            ).saved,
{
}

proof fn entry_at_is_within(h: Seq<EntryView>, seq: u64)
    ensures
        entry_at(h, seq) <= h.len(),
    decreases h.len(),
{
    if h.len() > 0 && h[0].seq != seq {
        entry_at_is_within(h.drop_first(), seq);
    }
}

proof fn rescored_is_orderly(h: Seq<EntryView>, seq: u64, score: u8, next: u64)
    requires
        orderly(h, next),
    ensures
        orderly(rescored(h, seq, score), next),
        rescored(h, seq, score).len() == h.len(),
{
    entry_at_is_within(h, seq);
    let out = rescored(h, seq, score);
    assert forall|i: int| 0 <= i < h.len() implies (#[trigger] out[i]).seq == h[i].seq by {}
    assert forall|i: int, j: int| 0 <= i < j < out.len() implies (#[trigger] out[i]).seq < (
    #[trigger] out[j]).seq by {
        assert(h[i].seq < h[j].seq);
    }
    assert forall|i: int| 0 <= i < out.len() implies (#[trigger] out[i]).seq < next && out[i].score
        <= 5 by {
        assert(h[i].seq < next && h[i].score <= 5);
    }
}

proof fn rescored_all_is_orderly(h: Seq<EntryView>, scores: Seq<(u64, u8)>, next: u64)
    requires
        orderly(h, next),
    ensures
        orderly(rescored_all(h, scores), next),
        rescored_all(h, scores).len() == h.len(),
    decreases scores.len(),
{
    if scores.len() > 0 {
        rescored_all_is_orderly(h, scores.drop_last(), next);
        rescored_is_orderly(
            rescored_all(h, scores.drop_last()),
            scores.last().0,
            scores.last().1,
            next,
        );
    }
}

proof fn evicted_is_orderly(h: Seq<EntryView>, dropped: Seq<u64>, start: int, next: u64)
    requires
        orderly(h, next),
    ensures
        orderly(evicted(h, dropped, start), next),
    decreases h.len(),
{
    if h.len() > 0 {
        let head = h.drop_last();
        assert(forall|i: int| 0 <= i < head.len() ==> head[i] == h[i]);
        evicted_is_orderly(head, dropped, start, next);
        evicted_is_part(head, dropped, start);
        let rest = evicted(head, dropped, start);
        let out = evicted(h, dropped, start);
        assert(h[h.len() - 1] == h.last());
        assert forall|i: int| 0 <= i < rest.len() implies (#[trigger] rest[i]).seq
            < h.last().seq by {
            assert(rest.contains(rest[i]));
            let k = choose|k: int| 0 <= k < head.len() && head[k] == rest[i];
            assert(h[k].seq < h[h.len() - 1].seq);
        }
        assert forall|i: int, j: int| 0 <= i < j < out.len() implies (#[trigger] out[i]).seq < (
        #[trigger] out[j]).seq by {
            if j < rest.len() {
                assert(rest[i].seq < rest[j].seq);
            } else {
                assert(rest[i].seq < h.last().seq);
            }
        }
        assert forall|i: int| 0 <= i < out.len() implies (#[trigger] out[i]).seq < next
            && out[i].score <= 5 by {
            if i < rest.len() {
                assert(rest[i].seq < next);
            }
        }
    }
}

/// Whatever happens to the context at hand, its history stays orderly and within
/// its bound: when something is said, when a score comes in, and when an audit is
/// applied. Numbers grow by one with each entry.
pub proof fn history_stays_orderly(
    m: MemoryView,
    e: EntryView,
    seq: u64,
    score: u8,
    critical: Option<Seq<char>>,
    outcome: AuditOutcome,
    reaudit: bool,
)
    requires
        m.seq < u64::MAX,
        m.wf(),
        m.history.len() <= two_per_turn(m.settings.history_turns),
        e.seq == m.seq,
        e.score <= 5,
    ensures
        pushed(m, e).seq == m.seq + 1,
        orderly(pushed(m, e).history, pushed(m, e).seq),
        pushed(m, e).history.len() <= two_per_turn(m.settings.history_turns),
        orderly(scored(m, seq, score, critical).history, m.seq),
        scored(m, seq, score, critical).history.len() == m.history.len(),
        orderly(audited(m, outcome, reaudit).history, m.seq),
        audited(m, outcome, reaudit).history.len() <= m.history.len(),
{
    pushed_is_orderly(m, e);
    rescored_is_orderly(m.history, seq, score, m.seq);
    let h = rescored_all(m.history, outcome.scores@);
    rescored_all_is_orderly(m.history, outcome.scores@, m.seq);
    let start = grace_start(h.len(), m.settings.grace_turns);
    evicted_is_orderly(h, outcome.dropped_seqs@, start, m.seq);
    evicted_is_part(h, outcome.dropped_seqs@, start);
}

/// Something that is done with the context at hand.
pub enum MemoryStep {
    /// The user, the assistant or a tool says something, at a time.
    User(Seq<char>, Seq<char>),
    Assistant(Seq<char>, Seq<char>),
    Tool(Seq<char>, Seq<char>),
    /// An entry is scored.
    Score(u64, u8, Option<Seq<char>>),
    /// A turn is counted; so many there are since the last audit.
    Turn(usize),
    Audit(AuditOutcome, bool),
    Persist,
    Reset,
}

/// The state after something has been done.
pub open spec fn stepped(m: MemoryView, s: MemoryStep) -> MemoryView {
    match s {
        MemoryStep::User(text, ts) => remembered(m, text, ts),
        MemoryStep::Assistant(text, ts) => answer_remembered(m, text, ts),
        MemoryStep::Tool(text, ts) => tool_remembered(m, text, ts),
        MemoryStep::Score(seq, score, critical) => scored(m, seq, score, critical),
        MemoryStep::Turn(n) => MemoryView { since_audit: n, ..m },
        MemoryStep::Audit(outcome, reaudit) => audited(m, outcome, reaudit),
        MemoryStep::Persist => persisted(m),
        MemoryStep::Reset => emptied(m),
    }
}

/// Whether something that is done takes a number.
pub open spec fn takes_number(s: MemoryStep) -> bool {
    s is User || s is Assistant || s is Tool
}

/// The state after some things have been done, one after the other.
pub open spec fn after_steps(m: MemoryView, steps: Seq<MemoryStep>) -> MemoryView
    decreases steps.len(),
{
    if steps.len() == 0 {
        m
    } else {
        stepped(after_steps(m, steps.drop_last()), steps.last())
    }
}

/// The numbers that are given to entries while some things are done.
pub open spec fn numbers_used(m: MemoryView, steps: Seq<MemoryStep>) -> Seq<u64>
    decreases steps.len(),
{
    if steps.len() == 0 {
        Seq::empty()
    } else {
        let rest = numbers_used(m, steps.drop_last());
        if takes_number(steps.last()) {
            rest.push(after_steps(m, steps.drop_last()).seq)
        } else {
            rest
        }
    }
}

proof fn pushed_is_orderly(m: MemoryView, e: EntryView)
    requires
        m.wf(),
        m.seq < u64::MAX,
        e.seq == m.seq,
        e.score <= 5,
    ensures
        pushed(m, e).wf(),
        pushed(m, e).seq == m.seq + 1,
{
    let all = m.history.push(e);
    let kept = pushed(m, e).history;
    let skipped = all.len() - kept.len();
    assert(forall|i: int| 0 <= i < kept.len() ==> kept[i] == all[i + skipped]);
    assert forall|i: int, j: int| 0 <= i < j < kept.len() implies (#[trigger] kept[i]).seq < (
    #[trigger] kept[j]).seq by {
        let a = i + skipped;
        let b = j + skipped;
        if b < m.history.len() {
            assert(m.history[a].seq < m.history[b].seq);
        } else {
            assert(m.history[a].seq < m.seq);
        }
    }
    assert forall|i: int| 0 <= i < kept.len() implies (#[trigger] kept[i]).seq < m.seq + 1
        && kept[i].score <= 5 by {
        let a = i + skipped;
        if a < m.history.len() {
            assert(m.history[a].seq < m.seq);
        }
    }
}

proof fn greatest_is_below(h: Seq<EntryView>, saved: u64, least: u64, next: u64)
    requires
        forall|i: int| 0 <= i < h.len() ==> (#[trigger] h[i]).seq < next,
        least < next,
    ensures
        greatest_seq(entries_after(h, saved), least) < next,
    decreases h.len(),
{
    if h.len() > 0 {
        let head = h.drop_last();
        assert forall|i: int| 0 <= i < head.len() implies (#[trigger] head[i]).seq < next by {
            assert(h[i] == head[i]);
        }
        greatest_is_below(head, saved, least, next);
        assert(h[h.len() - 1].seq < next);
        let out = entries_after(h, saved);
        if h.last().seq > saved {
            assert(out.drop_last() =~= entries_after(head, saved));
        }
    }
}

/// Whatever is done with the context at hand, every number that was used before
/// stays below the next one: those of the entries at hand, and those that are in
/// the archive. The next number grows by one with each entry, and by nothing else;
/// a new session does not begin it anew.
pub proof fn steps_keep_order(m: MemoryView, s: MemoryStep)
    requires
        m.wf(),
        takes_number(s) ==> m.seq < u64::MAX,
    ensures
        stepped(m, s).wf(),
        stepped(m, s).seq == m.seq + (if takes_number(s) {
            1int
        } else {
            0
        }),
{
    match s {
        MemoryStep::User(text, ts) => {
            pushed_is_orderly(
                m,
                EntryView { role: "user"@, content: text, score: 0, seq: m.seq, ts },
            );
        },
        MemoryStep::Assistant(text, ts) => {
            pushed_is_orderly(
                m,
                EntryView {
                    role: "assistant"@,
                    content: text,
                    score: capped(last_user_score(m.history)),
                    seq: m.seq,
                    ts,
                },
            );
        },
        MemoryStep::Tool(text, ts) => {
            pushed_is_orderly(
                m,
                EntryView { role: "user"@, content: text, score: 3, seq: m.seq, ts },
            );
        },
        MemoryStep::Score(seq, score, critical) => {
            rescored_is_orderly(m.history, seq, score, m.seq);
        },
        MemoryStep::Audit(outcome, reaudit) => {
            let h = rescored_all(m.history, outcome.scores@);
            rescored_all_is_orderly(m.history, outcome.scores@, m.seq);
            evicted_is_orderly(
                h,
                outcome.dropped_seqs@,
                grace_start(h.len(), m.settings.grace_turns),
                m.seq,
            );
        },
        MemoryStep::Persist => {
            greatest_is_below(m.history, m.saved, m.saved, m.seq);
        },
        _ => {},
    }
}

/// No number is used twice, whatever is done and in whichever order, new sessions
/// among it: the numbers that are given out grow, each is at least the one that was
/// next before and below the one that is next after.
pub proof fn numbers_are_used_once(m: MemoryView, steps: Seq<MemoryStep>)
    requires
        m.wf(),
        m.seq + steps.len() <= u64::MAX,
    ensures
        after_steps(m, steps).wf(),
        m.seq <= after_steps(m, steps).seq <= m.seq + steps.len(),
        forall|i: int|
            0 <= i < numbers_used(m, steps).len() ==> m.seq <= #[trigger] numbers_used(m, steps)[i]
                < after_steps(m, steps).seq,
        forall|i: int, j: int|
            0 <= i < j < numbers_used(m, steps).len() ==> #[trigger] numbers_used(m, steps)[i]
                < #[trigger] numbers_used(m, steps)[j],
    decreases steps.len(),
{
    if steps.len() > 0 {
        let head = steps.drop_last();
        numbers_are_used_once(m, head);
        let mid = after_steps(m, head);
        steps_keep_order(mid, steps.last());
        let rest = numbers_used(m, head);
        let out = numbers_used(m, steps);
        assert forall|i: int| 0 <= i < out.len() implies m.seq <= #[trigger] out[i]
            < after_steps(m, steps).seq by {
            if i < rest.len() {
                assert(rest[i] == out[i]);
            }
        }
        assert forall|i: int, j: int| 0 <= i < j < out.len() implies #[trigger] out[i]
            < #[trigger] out[j] by {
            assert(rest[i] == out[i]);
            if j < rest.len() {
                assert(rest[j] == out[j]);
            }
        }
    }
}

/// A new session begins with nothing at hand: the model is told the instruction
/// alone. Numbers go on: what is said next has a number that is greater than every
/// number at hand or in the archive before, and is new to the archive.
pub proof fn reset_begins_anew(m: MemoryView, base: Seq<char>, text: Seq<char>, ts: Seq<char>)
    requires
        m.wf(),
    ensures
        context_messages(emptied(m), base) == seq![said("system"@, base)],
        emptied(m).saved == m.saved,
        m.settings.history_turns > 0 ==> remembered(emptied(m), text, ts).history == seq![
            EntryView { role: "user"@, content: text, score: 0, seq: m.seq, ts },
        ],
        m.seq > m.saved,
        forall|i: int| 0 <= i < m.history.len() ==> (#[trigger] m.history[i]).seq < m.seq,
        entries_after(remembered(emptied(m), text, ts).history, m.saved) == remembered(
            emptied(m),
            text,
            ts,
        ).history,
{
    let e = EntryView { role: "user"@, content: text, score: 0, seq: m.seq, ts };
    assert(context_messages(emptied(m), base) =~= seq![said("system"@, base)]);
    let h = remembered(emptied(m), text, ts).history;
    if m.settings.history_turns > 0 {
        assert(h =~= seq![e]);
        assert(h.drop_last() =~= Seq::empty());
    } else {
        assert(h =~= Seq::empty());
    }
    assert(entries_after(Seq::empty(), m.saved) =~= Seq::empty());
    assert(entries_after(h, m.saved) =~= h);
}

// ---- chat ----

/// Every request begins with the system prompt and ends with what the user said,
/// and only old turns are dropped: of what was said before, the last messages are
/// sent, as they were said. With at least one turn there are never more messages
/// than two for each turn and the system prompt; with none there are two. What
/// holds of the history before a question holds after it, and after the answer.
pub proof fn chat_keeps_the_system_prompt(c: ChatView, text: Seq<char>, answer: Seq<char>)
    requires
        c.prompted(),
    ensures
        ({
            let h = asked(c, text).history;
            let rest = c.history.push(said("user"@, text)).skip(1);
            &&& h[0] == said("system"@, CHAT_SYSTEM@)
            &&& h.len() >= 2
            &&& h.last() == said("user"@, text)
            &&& h.skip(1).is_suffix_of(rest)
            &&& c.history_turns >= 1 ==> h.len() <= 2 * c.history_turns + 1
            &&& c.history_turns == 0 ==> h.len() == 2
            &&& rest.len() <= 2 * c.history_turns ==> h.skip(1) == rest
        }),
        asked(c, text).prompted(),
        replied(c, answer).prompted(),
        replied(asked(c, text), answer).prompted(),
{
    let all = c.history.push(said("user"@, text));
    let h = asked(c, text).history;
    let rest = all.skip(1);
    assert(h.skip(1) =~= rest.skip(rest.len() - h.skip(1).len()));
    assert(h.skip(1) =~= rest.subrange(rest.len() - h.skip(1).len(), rest.len() as int));
}

/// A cancelled call stays cancelled: once the running call has been cancelled,
/// whatever its reply is, all that it sends out is the note.
pub proof fn cancelled_calls_stay_silent(
    c: ChatView,
    token: u64,
    text: Seq<char>,
    reply: Option<Result<String, String>>,
    elapsed: Seq<char>,
)
    requires
        c.current == Some(token),
    ensures
        ({
            let after = ChatView { current: None, cancelled: c.cancelled.push(token), ..c };
            outcome_spec(after.cancelled.contains(token), text, reply, elapsed) == seq![
                OutgoingView::Status("[chat] 已取消"@),
            ]
        }),
{
    let cancelled = c.cancelled.push(token);
    assert(cancelled[c.cancelled.len() as int] == token);
}

// ---- tasks that are handed on ----

/// A command that a task runs stands on a line of what the model said.
pub proof fn commands_stand_on_a_line(lines: Seq<Seq<char>>)
    ensures
        first_command(lines) is Some ==> exists|i: int|
            0 <= i < lines.len() && #[trigger] line_command(lines[i]) == first_command(lines),
        first_command(lines) is None ==> forall|i: int|
            0 <= i < lines.len() ==> #[trigger] line_command(lines[i]) is None,
    decreases lines.len(),
{
    if lines.len() > 0 {
        let rest = lines.drop_first();
        commands_stand_on_a_line(rest);
        if line_command(lines[0]) is None {
            if first_command(rest) is Some {
                let i = choose|i: int|
                    0 <= i < rest.len() && #[trigger] line_command(rest[i]) == first_command(rest);
                assert(line_command(lines[i + 1]) == first_command(lines));
            } else {
                assert forall|i: int| 0 <= i < lines.len() implies #[trigger] line_command(
                    lines[i],
                ) is None by {
                    if i > 0 {
                        assert(line_command(rest[i - 1]) is None);
                    }
                }
            }
        } else {
            assert(line_command(lines[0]) == first_command(lines));
        }
    }
}

/// A command that a task runs is one of the few that it may use.
pub proof fn commands_are_whitelisted(line: Seq<char>)
    requires
        line_command(line) is Some,
    ensures
        exists|name: Seq<char>|
            #[trigger] whitelisted(name) && first_word_spec(trim_spec(line).skip(1)) == Some(name),
{
    reveal_strlit("/");
    let rest = strip_prefix_spec(trim_spec(line), "/"@)->0;
    assert(rest =~= trim_spec(line).skip(1));
    assert(whitelisted(first_word_spec(rest)->0));
}

/// A task cannot hand itself on.
pub proof fn tasks_do_not_hand_on()
    ensures
        !whitelisted("subagent"@),
        !whitelisted("models"@),
{
    reveal_strlit("subagent");
    reveal_strlit("models");
    reveal_strlit("fs");
    reveal_strlit("run");
    reveal_strlit("pwd");
    reveal_strlit("mode");
    assert("subagent"@.len() == 8);
    assert("models"@.len() == 6);
    assert("fs"@.len() == 2);
    assert("run"@.len() == 3);
    assert("pwd"@.len() == 3);
    assert("mode"@.len() == 4);
}

/// What is handed back holds none of the lines with a command.
pub proof fn plain_lines_hold_no_command(lines: Seq<Seq<char>>)
    ensures
        forall|i: int|
            0 <= i < plain_lines(lines).len() ==> first_cmd_spec(
                trim_spec(#[trigger] plain_lines(lines)[i]),
            ) is None,
    decreases lines.len(),
{
    if lines.len() > 0 {
        let head = lines.drop_last();
        plain_lines_hold_no_command(head);
        let rest = plain_lines(head);
        let out = plain_lines(lines);
        assert forall|i: int| 0 <= i < out.len() implies first_cmd_spec(
            trim_spec(#[trigger] out[i]),
        ) is None by {
            if i < rest.len() {
                assert(out[i] == rest[i]);
            }
        }
    }
}

proof fn command_is_that_of_the_trimmed(line: Seq<char>)
    requires
        forall|k: int| 0 <= k < line.len() ==> line[k] != '\n',
        first_cmd_spec(trim_spec(line)) is None,
    ensures
        line_command(line) is None,
{
    let t = trim_spec(line);
    trim_is_stable(line);
    let (a, b) = trim_bounds(line);
    if t.len() > 0 {
        upto_is_first(t, '\n');
        if upto(t, '\n') < t.len() {
            assert(t[upto(t, '\n') as int] == line[a + upto(t, '\n')]);
        }
        assert(lines_spec(t) =~= seq![t]);
        assert(lines_spec(t)[0] == t);
        assert(line_command(t) is None);
    } else {
        reveal_strlit("/");
    }
}

proof fn trimmed_holds_no_other_command(line: Seq<char>)
    requires
        forall|k: int| 0 <= k < line.len() ==> line[k] != '\n',
        line_command(line) is None,
    ensures
        first_cmd_spec(trim_spec(line)) is None,
{
    let t = trim_spec(line);
    trim_is_stable(line);
    let (a, b) = trim_bounds(line);
    reveal_with_fuel(first_command, 2);
    if t.len() > 0 {
        upto_is_first(t, '\n');
        if upto(t, '\n') < t.len() {
            assert(t[upto(t, '\n') as int] == line[a + upto(t, '\n')]);
        }
        assert(lines_spec(t) =~= seq![t]);
        assert(lines_spec(t).drop_first() =~= Seq::empty());
    }
}

proof fn plain_lines_are_filtered(lines: Seq<Seq<char>>)
    requires
        forall|p: int, k: int|
            0 <= p < lines.len() && 0 <= k < lines[p].len() ==> #[trigger] lines[p][k] != '\n',
    ensures
        plain_lines(lines) == lines.filter(|l: Seq<char>| line_command(l) is None),
    decreases lines.len(),
{
    reveal(Seq::filter);
    if lines.len() > 0 {
        let head = lines.drop_last();
        let last = lines.last();
        assert forall|p: int, k: int| 0 <= p < head.len() && 0 <= k < head[p].len() implies
            #[trigger] head[p][k] != '\n' by {
            assert(lines[p][k] != '\n');
        }
        plain_lines_are_filtered(head);
        assert forall|k: int| 0 <= k < last.len() implies last[k] != '\n' by {
            assert(lines[lines.len() - 1][k] != '\n');
        }
        if first_cmd_spec(trim_spec(last)) is None {
            command_is_that_of_the_trimmed(last);
        } else if line_command(last) is None {
            trimmed_holds_no_other_command(last);
        }
    }
}

proof fn lines_hold_no_feed(text: Seq<char>)
    ensures
        forall|p: int, k: int|
            0 <= p < lines_spec(text).len() && 0 <= k < lines_spec(text)[p].len()
                ==> #[trigger] lines_spec(text)[p][k] != '\n',
{
    let all = lines_spec(text);
    assert(text.skip(0) =~= text);
    assert forall|p: int, k: int| 0 <= p < all.len() && 0 <= k < all[p].len() implies
        #[trigger] all[p][k] != '\n' by {
        let _ = lines_stand_in_text(text, 0, p);
    }
}

/// What is handed back of a task are the lines without a command, in their order,
/// and trimmed. Where no line holds a command and no carriage return stands before
/// a line feed, that is the text itself, trimmed.
pub proof fn results_keep_plain_lines(text: Seq<char>)
    ensures
        sanitized(text) == trim_spec(
            join_spec(
                lines_spec(text).filter(|l: Seq<char>| line_command(l) is None),
                seq!['\n'],
            ),
        ),
        trim_spec(sanitized(text)) == sanitized(text),
        first_cmd_spec(text) is None && (forall|i: int|
            0 <= i < text.len() - 1 && #[trigger] text[i] == '\r' ==> text[i + 1] != '\n')
            ==> sanitized(text) == trim_spec(text),
{
    reveal_strlit("\n");
    assert("\n"@ =~= seq!['\n']);
    let all = lines_spec(text);
    lines_hold_no_feed(text);
    plain_lines_are_filtered(all);
    trim_is_stable(join_spec(plain_lines(all), seq!['\n']));
    if first_cmd_spec(text) is None && (forall|i: int|
        0 <= i < text.len() - 1 && #[trigger] text[i] == '\r' ==> text[i + 1] != '\n') {
        commands_stand_on_a_line(all);
        nothing_is_filtered(all);
        joined_lines_are_the_text(text);
        let joined = join_spec(all, seq!['\n']);
        if text.len() > 0 && text.last() == '\n' {
            trim_of_padded(text, 0, text.len() - 1);
            assert(text.subrange(0, text.len() - 1) =~= text.drop_last());
        }
    }
}

proof fn nothing_is_filtered(lines: Seq<Seq<char>>)
    requires
        forall|i: int| 0 <= i < lines.len() ==> #[trigger] line_command(lines[i]) is None,
    ensures
        lines.filter(|l: Seq<char>| line_command(l) is None) == lines,
    decreases lines.len(),
{
    reveal(Seq::filter);
    if lines.len() > 0 {
        let head = lines.drop_last();
        assert forall|i: int| 0 <= i < head.len() implies #[trigger] line_command(
            head[i],
        ) is None by {
            assert(line_command(lines[i]) is None);
        }
        nothing_is_filtered(head);
        assert(line_command(lines[lines.len() - 1]) is None);
        assert(head.push(lines.last()) =~= lines);
    }
}

/// What is handed back of a task holds no command.
pub proof fn results_hold_no_command(text: Seq<char>)
    ensures
        first_cmd_spec(sanitized(text)) is None,
{
    reveal_strlit("\n");
    assert("\n"@ =~= seq!['\n']);
    let all = lines_spec(text);
    let kept = plain_lines(all);
    let joined = join_spec(kept, seq!['\n']);
    let out = trim_spec(joined);
    assert(out == sanitized(text));
    let shown = lines_spec(out);
    plain_lines_hold_no_command(all);
    plain_lines_are_lines(all);
    assert(text.skip(0) =~= text);
    assert(out.skip(0) =~= out);
    assert forall|p: int, k: int| 0 <= p < kept.len() && 0 <= k < kept[p].len() implies
        #[trigger] kept[p][k] != '\n' by {
        assert(kept.contains(kept[p]));
        let j = choose|j: int| 0 <= j < all.len() && all[j] == kept[p];
        let _ = lines_stand_in_text(text, 0, j);
    }
    commands_stand_on_a_line(shown);
    if first_command(shown) is Some {
        let i = choose|i: int|
            0 <= i < shown.len() && #[trigger] line_command(shown[i]) == first_command(shown);
        let (a, b) = lines_stand_in_text(out, 0, i);
        let (p, q) = trim_bounds(joined);
        let line = out.subrange(a, b);
        assert(out =~= joined.subrange(p, q));
        strip_cr_is_trimmed(line);
        assert(line_command(line) == line_command(shown[i]));
        assert forall|k: int| p + a <= k < p + b implies joined[k] != '\n' by {
            assert(out[k - p] == joined[k]);
        }
        let (c, d) = line_around(joined, p + a, p + b);
        let whole = joined.subrange(c, d);
        assert forall|k: int| 0 <= k < p + a - c implies is_white(#[trigger] whole[k]) by {
            if a > 0 {
                assert(out[a - 1] == joined[p + a - 1]);
            }
            assert(whole[k] == joined[c + k]);
        }
        assert forall|k: int| p + b - c <= k < whole.len() implies is_white(#[trigger] whole[k]) by {
            if b < out.len() {
                assert(out[b] == joined[p + b]);
            }
            assert(whole[k] == joined[c + k]);
        }
        trim_of_padded(whole, p + a - c, p + b - c);
        assert(whole.subrange(p + a - c, p + b - c) =~= line);
        assert(line_command(whole) == line_command(line));
        if kept.len() == 0 {
            assert(joined.len() == 0);
        } else {
            let k = joined_texts_are_lines(kept, c, d);
            assert(first_cmd_spec(trim_spec(kept[k])) is None);
            assert forall|x: int| 0 <= x < kept[k].len() implies kept[k][x] != '\n' by {
                assert(kept[k][x] != '\n');
            }
            command_is_that_of_the_trimmed(kept[k]);
        }
    }
}

/// The line of a text that some of its characters without a line feed belong to.
proof fn line_around(s: Seq<char>, a: int, b: int) -> (r: (int, int))
    requires
        0 <= a <= b <= s.len(),
        forall|k: int| a <= k < b ==> s[k] != '\n',
    ensures
        is_line(s, r.0, r.1),
        r.0 <= a <= b <= r.1,
        a == 0 || s[a - 1] == '\n' ==> r.0 == a,
        b == s.len() || s[b] == '\n' ==> r.1 == b,
    decreases a + (s.len() - b),
{
    if a > 0 && s[a - 1] != '\n' {
        line_around(s, a - 1, b)
    } else if b < s.len() && s[b] != '\n' {
        line_around(s, a, b + 1)
    } else {
        (a, b)
    }
}

proof fn strip_cr_is_trimmed(line: Seq<char>)
    ensures
        trim_spec(strip_cr(line)) == trim_spec(line),
{
    if line.len() > 0 && line.last() == '\r' {
        trim_of_padded(line, 0, line.len() - 1);
        assert(line.subrange(0, line.len() - 1) =~= line.drop_last());
    }
}

proof fn plain_lines_are_lines(lines: Seq<Seq<char>>)
    ensures
        forall|l: Seq<char>| #[trigger] plain_lines(lines).contains(l) ==> lines.contains(l),
    decreases lines.len(),
{
    if lines.len() > 0 {
        let head = lines.drop_last();
        plain_lines_are_lines(head);
        let rest = plain_lines(head);
        let out = plain_lines(lines);
        assert forall|l: Seq<char>| #[trigger] out.contains(l) implies lines.contains(l) by {
            let k = choose|k: int| 0 <= k < out.len() && out[k] == l;
            if k < rest.len() {
                assert(rest[k] == l);
                assert(rest.contains(l));
                let j = choose|j: int| 0 <= j < head.len() && head[j] == l;
                assert(lines[j] == l);
            } else {
                assert(lines[lines.len() - 1] == l);
            }
        }
    }
}

/// No word is empty.
pub proof fn words_are_not_empty(s: Seq<char>, cur: Seq<char>, quoted: bool)
    ensures
        forall|i: int|
            0 <= i < tokens(s, cur, quoted).len() ==> (#[trigger] tokens(s, cur, quoted)[i]).len()
                > 0,
    decreases s.len(),
{
    if s.len() > 0 {
        let rest = s.drop_first();
        words_are_not_empty(rest, Seq::empty(), false);
        words_are_not_empty(rest, cur, true);
        words_are_not_empty(rest, cur.push(s[0]), true);
        words_are_not_empty(rest, cur.push(s[0]), false);
        let next = tokens(rest, Seq::empty(), false);
        let out = tokens(s, cur, quoted);
        assert forall|i: int| 0 <= i < out.len() implies (#[trigger] out[i]).len() > 0 by {
            if (s[0] == '"' && quoted) || (s[0] != '"' && !quoted && is_white(s[0])) {
                if cur.len() > 0 {
                    assert(out =~= seq![cur] + next);
                    if i > 0 {
                        assert(out[i] == next[i - 1]);
                    }
                } else {
                    assert(out =~= next);
                    assert(out[i] == next[i]);
                }
            } else if s[0] == '"' {
                assert(out[i] == tokens(rest, cur, true)[i]);
            } else {
                assert(out[i] == tokens(rest, cur.push(s[0]), quoted)[i]);
            }
        }
    }
}

/// Tasks run at once only where that is asked for.
pub proof fn parallel_is_asked_for(toks: Seq<Seq<char>>, a: ArgsView)
    requires
        !toks.contains("--parallel"@),
        !a.saw_parallel,
        a.parallel.len() == 0,
    ensures
        read_args(toks, a).parallel.len() == 0,
        !read_args(toks, a).saw_parallel,
    decreases toks.len(),
{
    if toks.len() > 0 {
        let rest = toks.drop_first();
        assert(toks.contains(toks[0]));
        assert(!rest.contains("--parallel"@)) by {
            if rest.contains("--parallel"@) {
                let i = choose|i: int| 0 <= i < rest.len() && rest[i] == "--parallel"@;
                assert(toks[i + 1] == "--parallel"@);
            }
        }
        let t = toks[0];
        if t == "--model"@ {
            if rest.len() > 0 {
                let more = rest.drop_first();
                assert(!more.contains("--parallel"@)) by {
                    if more.contains("--parallel"@) {
                        let i = choose|i: int| 0 <= i < more.len() && more[i] == "--parallel"@;
                        assert(rest[i + 1] == "--parallel"@);
                    }
                }
                parallel_is_asked_for(more, ArgsView { model: Some(rest[0]), ..a });
            }
        } else if t == "--tools"@ {
            parallel_is_asked_for(rest, ArgsView { tools: true, ..a });
        } else if t == "|"@ {
            parallel_is_asked_for(rest, a);
        } else {
            parallel_is_asked_for(rest, ArgsView { task: a.task.push(t), ..a });
        }
    }
}

/// No more tasks run at once than may.
pub proof fn parallel_is_bounded(v: Seq<Seq<char>>, limit: usize)
    ensures
        admitted(v, limit).len() <= limit,
{
}

/// A task is asked for at most as often as it may be, and runs at most three
/// commands in a call.
pub proof fn calls_are_bounded(
    run: SubRun,
    max_rounds: usize,
    cancelled: bool,
    call: SubCallView,
    reply: Seq<char>,
)
    requires
        max_rounds >= 1,
    ensures
        next_call_spec(run, max_rounds, cancelled) is Some ==> run.calls < max_rounds,
        step_spec(call, reply) is Err ==> call.use_tools && call.rounds < 3,
{
}

// ---- kinds of services and events ----

/// No two kinds of services have the same key, so none is found in place of
/// another.
pub proof fn services_have_keys_of_their_own()
    ensures
        seq![
            LlmService::key_spec(),
            FsService::key_spec(),
            SubprocessService::key_spec(),
            MemoryService::key_spec(),
            ChatService::key_spec(),
            MicroService::key_spec(),
            SubagentService::key_spec(),
            TuiBackend::key_spec(),
            LoaderService::key_spec(),
        ].no_duplicates(),
{
}

/// No two kinds of events have the same key.
pub proof fn events_have_keys_of_their_own()
    ensures
        seq![
            SessionInput::key_spec(),
            SessionReply::key_spec(),
            SessionStatus::key_spec(),
        ].no_duplicates(),
{
}

}  // verus!
