//! What holds of the memory of a conversation: that all of it is told, that nothing is
//! forgotten before its time, and that what is kept is what was said.

use crate::llm::client::{message_views, said, ChatMessage, ChatRequest};
use crate::llm::compress::{
    audit_line, audit_messages, entry_views, AuditOutcome, EntryScore, EntryView, HistoryEntry,
};
use crate::plugins::memory::{
    archive_spec, capped, context_messages, entries_after, entry_at, evict, evicted, grace_start,
    greatest_seq, merge_critical, rescored, rescored_all, strip_separators, trim, trimmed_history,
    united, AuditStart, ChatSnapshot, DirFacts, MemoryOptions, MemoryService, Persist, PersistPlan,
    ResolvedDir,
};
use crate::text::laws::joined_texts_stand;
use crate::text::number::{decimal_is_read_off, decimal_spec};
use crate::text::search::occurs_at;
use crate::text::trim::{strip_leading_spec, trim_spec};
use crate::text::{join_spec, texts};
use vstd::prelude::*;
use vstd::string::*;

verus! {

// ---- what the model is told ----

/// The model is told everything that is at hand: the instruction first, then every
/// critical memory, then the memory, and last the whole history, each entry with who
/// said it and what was said, in order.
pub proof fn the_whole_history_is_told(
    m: MemoryService,
    base: &str,
    r: Vec<ChatMessage>,
    i: int,
    k: int,
)
    requires
        call_ensures(MemoryService::build_context, (&m, base), r),
    ensures
        r@.len() == 1 + (if m.critical@.len() > 0 {
            1int
        } else {
            0
        }) + (if m.memory is Some {
            1int
        } else {
            0
        }) + m.history@.len(),
        r@[0].role@ == "system"@,
        r@[0].content@ == base@,
        0 <= k < m.critical@.len() ==> {
            &&& r@[1].role@ == "system"@
            &&& "[关键记忆]\n"@.is_prefix_of(r@[1].content@)
            &&& exists|at: int| occurs_at(r@[1].content@, m.critical@[k]@, at)
        },
        m.memory is Some ==> {
            let at = if m.critical@.len() > 0 {
                2int
            } else {
                1
            };
            &&& r@[at].role@ == "system"@
            &&& "[次级记忆]\n"@.is_prefix_of(r@[at].content@)
            &&& m.memory->0@.is_suffix_of(r@[at].content@)
            &&& r@[at].content@.len() == "[次级记忆]\n"@.len() + m.memory->0@.len()
        },
        0 <= i < m.history@.len() ==> {
            let told = r@[r@.len() - (m.history@.len() - i)];
            told.role@ == m.history@[i].role@ && told.content@ == m.history@[i].content@
        },
{
    let all = context_messages(m@, base@);
    let views = message_views(r@);
    assert(views == all);
    assert(r@.len() == all.len());
    assert(views[0] == r@[0]@);
    if 0 <= k < m.critical@.len() {
        let head = "[关键记忆]\n"@;
        let list = join_spec(m@.critical, "\n"@);
        assert(all[1] == said("system"@, head + list));
        assert(views[1] == r@[1]@);
        let at = joined_texts_stand(m@.critical, "\n"@, k);
        let c = r@[1].content@;
        assert(head =~= c.subrange(0, head.len() as int));
        let item = m.critical@[k]@;
        assert(m@.critical[k] == item);
        let j = head.len() + at;
        assert(c.subrange(j, j + item.len()) =~= list.subrange(at, at + item.len()));
        assert(occurs_at(c, item, j));
    }
    if m.memory is Some {
        let at = if m.critical@.len() > 0 {
            2int
        } else {
            1
        };
        let head = "[次级记忆]\n"@;
        let t = m.memory->0@;
        assert(all[at] == said("system"@, head + t));
        assert(views[at] == r@[at]@);
        assert(head =~= (head + t).subrange(0, head.len() as int));
        assert(t =~= (head + t).subrange(head.len() as int, (head + t).len() as int));
    }
    if 0 <= i < m.history@.len() {
        let at = r@.len() - (m.history@.len() - i);
        assert(all[at] == said(m@.history[i].role, m@.history[i].content));
        assert(views[at] == r@[at]@);
        assert(m@.history[i] == m.history@[i]@);
    }
}

// ---- what is noted ----

/// Whether an entry was noted: it stands last, with who said it, what was said, its
/// score, the next number and the time; of the entries before it the last ones stay
/// as they are, as many as fit into two for each turn; and nothing else changes but
/// the next number.
pub open spec fn noted(
    before: MemoryService,
    after: MemoryService,
    role: Seq<char>,
    text: Seq<char>,
    score: u8,
    ts: Seq<char>,
) -> bool {
    let all = before.history@.len() + 1;
    let most = before.settings.history_turns * 2;
    let n = after.history@.len();
    &&& n == if all <= most {
        all as int
    } else {
        most
    }
    &&& forall|j: int|
        0 <= j < n - 1 ==> (#[trigger] after.history@[j])@ == before.history@[all - n + j]@
    &&& n > 0 ==> {
        let e = after.history@[n - 1];
        e.role@ == role && e.content@ == text && e.score == score && e.seq == before.seq && e.ts@
            == ts
    }
    &&& before.seq < u64::MAX ==> after.seq == before.seq + 1
    &&& texts(after.critical@) == texts(before.critical@)
    &&& after.memory is Some <==> before.memory is Some
    &&& after.memory is Some ==> after.memory->0@ == before.memory->0@
    &&& after.since_audit == before.since_audit
    &&& after.saved == before.saved
    &&& after.settings == before.settings
}

proof fn pushed_is_noted(before: MemoryService, after: MemoryService, e: EntryView)
    requires
        after@ == crate::plugins::memory::pushed(before@, e),
        before.settings.history_turns * 2 <= usize::MAX,
        e.seq == before.seq,
    ensures
        noted(before, after, e.role, e.content, e.score, e.ts),
{
    let h = before@.history.push(e);
    let n = after.history@.len() as int;
    assert(after@.history == trimmed_history(h, before.settings.history_turns));
    assert(after@.history.len() == n);
    assert forall|j: int| 0 <= j < n - 1 implies (#[trigger] after.history@[j])@
        == before.history@[before.history@.len() + 1 - n + j]@ by {
        assert(after@.history[j] == after.history@[j]@);
        let k = before.history@.len() + 1 - n + j;
        assert(after@.history[j] == h[k]);
        assert(before@.history[k] == before.history@[k]@);
    }
    if n > 0 {
        assert(after@.history[n - 1] == after.history@[n - 1]@);
        assert(after@.history[n - 1] == h.last());
    }
    assert(after@.memory == before@.memory);
}

/// What the user says is noted, with its number, and is what is scored; where nothing
/// is scored, no request is made.
pub proof fn questions_are_noted(text: &str, ts: &str, model: &str, r: (u64, Option<ChatRequest>))
    ensures
        forall|s: &mut MemoryService|
            #[trigger] call_ensures(MemoryService::record_user, (s, text, ts, model), r)
                && s.settings.history_turns * 2 <= usize::MAX ==> {
                &&& noted(*s, *final(s), "user"@, text@, 0, ts@)
                &&& r.0 == s.seq
                &&& r.1 is Some <==> s.settings.compressor is Some
                &&& r.1 is Some ==> {
                    let q = r.1->0;
                    &&& q.model@ == model@
                    &&& q.json
                    &&& q.messages@.len() == 2
                    &&& q.messages@[0].role@ == "system"@
                    &&& q.messages@[1].role@ == "user"@
                    &&& q.messages@[1].content@ == text@
                }
            },
{
    assert forall|s: &mut MemoryService|
        #[trigger] call_ensures(MemoryService::record_user, (s, text, ts, model), r)
            && s.settings.history_turns * 2 <= usize::MAX implies {
        &&& noted(*s, *final(s), "user"@, text@, 0, ts@)
        &&& r.0 == s.seq
        &&& r.1 is Some <==> s.settings.compressor is Some
        &&& r.1 is Some ==> {
            let q = r.1->0;
            &&& q.model@ == model@
            &&& q.json
            &&& q.messages@.len() == 2
            &&& q.messages@[0].role@ == "system"@
            &&& q.messages@[1].role@ == "user"@
            &&& q.messages@[1].content@ == text@
        }
    } by {
        pushed_is_noted(
            *s,
            *final(s),
            EntryView { role: "user"@, content: text@, score: 0, seq: s.seq, ts: ts@ },
        );
        if r.1 is Some {
            let views = message_views(r.1->0.messages@);
            assert(views == r.1->0@.messages);
            assert(views.len() == 2);
            assert(views[0] == r.1->0.messages@[0]@);
            assert(views[1] == r.1->0.messages@[1]@);
        }
    }
}

proof fn last_user_score_is(h: Seq<EntryView>, i: int)
    requires
        0 <= i < h.len(),
        h[i].role == "user"@,
        forall|k: int| i < k < h.len() ==> (#[trigger] h[k]).role != "user"@,
    ensures
        crate::plugins::memory::last_user_score(h) == (if h[i].score == 0 {
            3
        } else {
            h[i].score
        }),
    decreases h.len(),
{
    if i < h.len() - 1 {
        assert(h[h.len() - 1].role != "user"@);
        let d = h.drop_last();
        assert forall|k: int| i < k < d.len() implies (#[trigger] d[k]).role != "user"@ by {
            assert(d[k] == h[k]);
        }
        last_user_score_is(d, i);
    }
}

/// What the assistant answers is noted, with the score of the question that it answers,
/// or three where that has none.
pub proof fn answers_are_noted(text: &str, ts: &str, i: int)
    ensures
        forall|s: &mut MemoryService|
            #[trigger] call_ensures(MemoryService::record_assistant, (s, text, ts), ())
                && s.settings.history_turns * 2 <= usize::MAX && 0 <= i < s.history@.len()
                && s.history@[i].role@ == "user"@ && s.history@[i].score <= 5 && (forall|k: int|
                i < k < s.history@.len() ==> (#[trigger] s.history@[k]).role@ != "user"@)
                ==> noted(
                *s,
                *final(s),
                "assistant"@,
                text@,
                if s.history@[i].score == 0 {
                    3
                } else {
                    s.history@[i].score
                },
                ts@,
            ),
{
    assert forall|s: &mut MemoryService|
        #[trigger] call_ensures(MemoryService::record_assistant, (s, text, ts), ())
            && s.settings.history_turns * 2 <= usize::MAX && 0 <= i < s.history@.len()
            && s.history@[i].role@ == "user"@ && s.history@[i].score <= 5 && (forall|k: int|
            i < k < s.history@.len() ==> (#[trigger] s.history@[k]).role@ != "user"@) implies noted(
        *s,
        *final(s),
        "assistant"@,
        text@,
        if s.history@[i].score == 0 {
            3
        } else {
            s.history@[i].score
        },
        ts@,
    ) by {
        let h = s@.history;
        assert(h[i] == s.history@[i]@);
        assert forall|k: int| i < k < h.len() implies (#[trigger] h[k]).role != "user"@ by {
            assert(h[k] == s.history@[k]@);
        }
        last_user_score_is(h, i);
        pushed_is_noted(
            *s,
            *final(s),
            EntryView {
                role: "assistant"@,
                content: text@,
                score: capped(crate::plugins::memory::last_user_score(h)),
                seq: s.seq,
                ts: ts@,
            },
        );
    }
}

/// What a tool gives is noted in the user's name, and is of middling worth.
pub proof fn results_of_tools_are_noted(text: &str, ts: &str)
    ensures
        forall|s: &mut MemoryService|
            #[trigger] call_ensures(MemoryService::record_tool_result, (s, text, ts), ())
                && s.settings.history_turns * 2 <= usize::MAX ==> noted(
                *s,
                *final(s),
                "user"@,
                text@,
                3,
                ts@,
            ),
{
    assert forall|s: &mut MemoryService|
        #[trigger] call_ensures(MemoryService::record_tool_result, (s, text, ts), ())
            && s.settings.history_turns * 2 <= usize::MAX implies noted(
        *s,
        *final(s),
        "user"@,
        text@,
        3,
        ts@,
    ) by {
        pushed_is_noted(
            *s,
            *final(s),
            EntryView { role: "user"@, content: text@, score: 3, seq: s.seq, ts: ts@ },
        );
    }
}

// ---- scores ----

proof fn entry_at_is_first(h: Seq<EntryView>, seq: u64)
    ensures
        entry_at(h, seq) <= h.len(),
        entry_at(h, seq) < h.len() ==> h[entry_at(h, seq) as int].seq == seq,
        forall|k: int| 0 <= k < entry_at(h, seq) ==> (#[trigger] h[k]).seq != seq,
    decreases h.len(),
{
    if h.len() > 0 && h[0].seq != seq {
        let d = h.drop_first();
        entry_at_is_first(d, seq);
        assert forall|k: int| 0 <= k < entry_at(h, seq) implies (#[trigger] h[k]).seq != seq by {
            if k > 0 {
                assert(d[k - 1] == h[k]);
            }
        }
    }
}

/// A score goes to the entry of its number and to no other, and changes nothing of the
/// entry but its score. What is critical is kept, without the white space around it and
/// once, after all that was kept before.
pub proof fn a_score_goes_to_its_entry(seq: u64, sc: EntryScore, i: int)
    ensures
        forall|s: &mut MemoryService|
            #[trigger] call_ensures(MemoryService::apply_score, (s, seq, sc), ()) && s@.wf() ==> {
                &&& final(s).history@.len() == s.history@.len()
                &&& 0 <= i < s.history@.len() ==> {
                    let was = s.history@[i]@;
                    let is = final(s).history@[i]@;
                    &&& is.role == was.role && is.content == was.content && is.seq == was.seq
                        && is.ts == was.ts
                    &&& is.score == if was.seq != seq {
                        was.score
                    } else if sc.score > 5 {
                        5
                    } else {
                        sc.score
                    }
                }
                &&& texts(s.critical@).is_prefix_of(texts(final(s).critical@))
                &&& sc.critical is None ==> texts(final(s).critical@) == texts(s.critical@)
                &&& sc.critical is Some && trim_spec(sc.critical->0@).len() > 0 ==> {
                    let c = trim_spec(sc.critical->0@);
                    &&& texts(final(s).critical@).contains(c)
                    &&& texts(s.critical@).contains(c) ==> texts(final(s).critical@) == texts(
                        s.critical@,
                    )
                    &&& !texts(s.critical@).contains(c) ==> texts(final(s).critical@) == texts(
                        s.critical@,
                    ) + seq![c]
                }
                &&& final(s).seq == s.seq && final(s).saved == s.saved && final(s).since_audit
                    == s.since_audit
            },
{
    assert forall|s: &mut MemoryService|
        #[trigger] call_ensures(MemoryService::apply_score, (s, seq, sc), ()) && s@.wf() implies {
        &&& final(s).history@.len() == s.history@.len()
        &&& 0 <= i < s.history@.len() ==> {
            let was = s.history@[i]@;
            let is = final(s).history@[i]@;
            &&& is.role == was.role && is.content == was.content && is.seq == was.seq && is.ts
                == was.ts
            &&& is.score == if was.seq != seq {
                was.score
            } else if sc.score > 5 {
                5
            } else {
                sc.score
            }
        }
        &&& texts(s.critical@).is_prefix_of(texts(final(s).critical@))
        &&& sc.critical is None ==> texts(final(s).critical@) == texts(s.critical@)
        &&& sc.critical is Some && trim_spec(sc.critical->0@).len() > 0 ==> {
            let c = trim_spec(sc.critical->0@);
            &&& texts(final(s).critical@).contains(c)
            &&& texts(s.critical@).contains(c) ==> texts(final(s).critical@) == texts(s.critical@)
            &&& !texts(s.critical@).contains(c) ==> texts(final(s).critical@) == texts(s.critical@)
                + seq![c]
        }
        &&& final(s).seq == s.seq && final(s).saved == s.saved && final(s).since_audit
            == s.since_audit
    } by {
        let h = s@.history;
        let g = final(s)@.history;
        assert(g == rescored(h, seq, sc.score));
        entry_at_is_first(h, seq);
        assert(final(s).history@.len() == g.len());
        if 0 <= i < h.len() {
            assert(h[i] == s.history@[i]@);
            assert(g[i] == final(s).history@[i]@);
            let a = entry_at(h, seq) as int;
            if h[i].seq == seq && a != i {
                assert(a < i);
                assert(h[a].seq < h[i].seq);
            }
        }
        let x = s@.critical;
        let y = final(s)@.critical;
        assert(x =~= y.subrange(0, x.len() as int));
        if sc.critical is Some {
            let c = trim_spec(sc.critical->0@);
            if c.len() > 0 && !x.contains(c) {
                assert(y[x.len() as int] == c);
                assert(y =~= x + seq![c]);
            }
        }
    }
}

// ---- audits ----

/// An audit is due after as many turns as are set, or when more is at hand than fits;
/// it then shows the whole history, and the old critical memories where there are
/// enough of them. Until then a turn is counted and nothing else happens.
pub proof fn audits_come_when_due(model: &str, r: Option<AuditStart>, i: int, k: int)
    ensures
        forall|s: &mut MemoryService|
            #[trigger] call_ensures(MemoryService::audit_if_needed, (s, model), r)
                && s.settings.history_turns * 2 <= usize::MAX ==> {
                let due = s.since_audit + 1 >= s.settings.trigger_turns || s.history@.len()
                    > s.settings.history_turns * 2;
                &&& r is Some <==> s.settings.compressor is Some && due
                &&& s.settings.compressor is None ==> final(s).since_audit == s.since_audit
                &&& s.settings.compressor is Some && !due ==> final(s).since_audit == s.since_audit
                    + 1
                &&& r is Some ==> {
                    let q = r->0.request;
                    let old = s.critical@.len() >= s.settings.critical_reaudit;
                    &&& final(s).since_audit == 0
                    &&& r->0.reaudit == old
                    &&& q.model@ == model@
                    &&& q.messages@.len() == 1 + s.history@.len() + (if old && s.critical@.len() > 0 {
                        1int
                    } else {
                        0
                    })
                    &&& 0 <= i < s.history@.len() ==> q.messages@[i + 1].role@ == "user"@
                        && s.history@[i].content@.is_suffix_of(q.messages@[i + 1].content@)
                    &&& old && 0 <= k < s.critical@.len() ==> exists|at: int|
                        occurs_at(q.messages@.last().content@, s.critical@[k]@, at)
                }
                &&& entry_views(final(s).history@) == entry_views(s.history@)
                &&& texts(final(s).critical@) == texts(s.critical@)
                &&& final(s).seq == s.seq && final(s).saved == s.saved
            },
{
    assert forall|s: &mut MemoryService|
        #[trigger] call_ensures(MemoryService::audit_if_needed, (s, model), r)
            && s.settings.history_turns * 2 <= usize::MAX implies {
        let due = s.since_audit + 1 >= s.settings.trigger_turns || s.history@.len()
            > s.settings.history_turns * 2;
        &&& r is Some <==> s.settings.compressor is Some && due
        &&& s.settings.compressor is None ==> final(s).since_audit == s.since_audit
        &&& s.settings.compressor is Some && !due ==> final(s).since_audit == s.since_audit + 1
        &&& r is Some ==> {
            let q = r->0.request;
            let old = s.critical@.len() >= s.settings.critical_reaudit;
            &&& final(s).since_audit == 0
            &&& r->0.reaudit == old
            &&& q.model@ == model@
            &&& q.messages@.len() == 1 + s.history@.len() + (if old && s.critical@.len() > 0 {
                1int
            } else {
                0
            })
            &&& 0 <= i < s.history@.len() ==> q.messages@[i + 1].role@ == "user"@
                && s.history@[i].content@.is_suffix_of(q.messages@[i + 1].content@)
            &&& old && 0 <= k < s.critical@.len() ==> exists|at: int|
                occurs_at(q.messages@.last().content@, s.critical@[k]@, at)
        }
        &&& entry_views(final(s).history@) == entry_views(s.history@)
        &&& texts(final(s).critical@) == texts(s.critical@)
        &&& final(s).seq == s.seq && final(s).saved == s.saved
    } by {
        assert(final(s)@.history == s@.history);
        assert(final(s)@.critical == s@.critical);
        if r is Some {
            let q = r->0.request;
            let c = s.settings.compressor->0;
            let old = if s.critical@.len() >= s.settings.critical_reaudit {
                s@.critical
            } else {
                Seq::empty()
            };
            let all = audit_messages(
                s@.history,
                old,
                c.memory_max_chars as nat,
                c.critical_max_items as nat,
            );
            let views = message_views(q.messages@);
            assert(views == all);
            assert(q.messages@.len() == all.len());
            if 0 <= i < s.history@.len() {
                assert(all[i + 1] == said("user"@, audit_line(s@.history[i])));
                assert(views[i + 1] == q.messages@[i + 1]@);
                assert(s@.history[i] == s.history@[i]@);
                let line = audit_line(s@.history[i]);
                let t = s.history@[i].content@;
                assert(t =~= line.subrange(line.len() - t.len(), line.len() as int));
            }
            if s.critical@.len() >= s.settings.critical_reaudit && 0 <= k < s.critical@.len() {
                let list = crate::llm::compress::reaudit_list(old);
                assert(all.last() == said("user"@, list));
                assert(views[all.len() - 1] == q.messages@.last()@);
                let items = old.map_values(|x: Seq<char>| "- "@ + x);
                let at = joined_texts_stand(items, "\n"@, k);
                let t = s.critical@[k]@;
                assert(items[k] == "- "@ + t);
                let j = "待重审的旧关键记忆清单:\n"@.len() + at + "- "@.len();
                let joined = join_spec(items, "\n"@);
                assert(list.subrange(j, j + t.len()) =~= joined.subrange(
                    at,
                    at + items[k].len(),
                ).skip("- "@.len() as int));
                assert(items[k].skip("- "@.len() as int) =~= t);
                assert(occurs_at(list, t, j));
            }
        }
    }
}

/// What an entry is besides its score.
pub open spec fn unscored(e: EntryView) -> (Seq<char>, Seq<char>, u64, Seq<char>) {
    (e.role, e.content, e.seq, e.ts)
}

proof fn filter_goes_on<A>(a: Seq<A>, x: A, f: spec_fn(A) -> bool)
    ensures
        a.push(x).filter(f) == (if f(x) {
            a.filter(f).push(x)
        } else {
            a.filter(f)
        }),
{
    reveal(Seq::filter);
    assert(a.push(x).drop_last() =~= a);
}

proof fn evicted_is_filtered(h: Seq<EntryView>, dropped: Seq<u64>, start: int)
    requires
        0 <= start,
    ensures
        ({
            let n = if start < h.len() {
                start
            } else {
                h.len() as int
            };
            evicted(h, dropped, start) == h.take(n).filter(|e: EntryView| !dropped.contains(e.seq))
                + h.skip(n)
        }),
    decreases h.len(),
{
    let f = |e: EntryView| !dropped.contains(e.seq);
    let n = if start < h.len() {
        start
    } else {
        h.len() as int
    };
    if h.len() == 0 {
        reveal(Seq::filter);
        assert(h.take(n) =~= h);
        assert(h.skip(n) =~= h);
        assert(h.filter(f) =~= Seq::empty());
    } else {
        let d = h.drop_last();
        evicted_is_filtered(d, dropped, start);
        if start < h.len() {
            assert(h.take(n) =~= d.take(n));
            assert(h.skip(n) =~= d.skip(n).push(h.last()));
            assert(evicted(h, dropped, start) =~= h.take(n).filter(f) + h.skip(n));
        } else {
            assert(h.take(n) =~= h);
            assert(d.take(d.len() as int) =~= d);
            assert(h =~= d.push(h.last()));
            filter_goes_on(d, h.last(), f);
            assert(h.skip(n) =~= Seq::empty());
            assert(d.skip(d.len() as int) =~= Seq::empty());
            assert(evicted(h, dropped, start) =~= h.take(n).filter(f) + h.skip(n));
        }
    }
}

/// Eviction takes out exactly the entries that are dropped, save the last ones, which
/// all stay.
pub proof fn only_dropped_entries_go(entries: Vec<HistoryEntry>, dropped: Vec<u64>, grace: usize, r: Vec<HistoryEntry>)
    requires
        call_ensures(evict, (&entries, &dropped, grace), r),
    ensures
        ({
            let n = if entries@.len() > grace {
                entries@.len() - grace
            } else {
                0
            };
            let h = entry_views(entries@);
            entry_views(r@) == h.take(n).filter(|e: EntryView| !dropped@.contains(e.seq)) + h.skip(
                n,
            )
        }),
{
    evicted_is_filtered(entry_views(entries@), dropped@, grace_start(entries@.len(), grace));
}

proof fn filter_of_unscored(
    a: Seq<EntryView>,
    b: Seq<EntryView>,
    dropped: Seq<u64>,
    f: spec_fn(EntryView) -> bool,
    g: spec_fn((Seq<char>, Seq<char>, u64, Seq<char>)) -> bool,
    u: spec_fn(EntryView) -> (Seq<char>, Seq<char>, u64, Seq<char>),
)
    requires
        a.map_values(u) == b.map_values(u),
        forall|e: EntryView| #[trigger] u(e) == unscored(e),
        forall|e: EntryView| #[trigger] f(e) == !dropped.contains(e.seq),
        forall|x: (Seq<char>, Seq<char>, u64, Seq<char>)| #[trigger] g(x) == !dropped.contains(x.2),
    ensures
        a.filter(f).map_values(u) == b.map_values(u).filter(g),
    decreases a.len(),
{
    reveal(Seq::filter);
    let bu = b.map_values(u);
    assert(a.map_values(u).len() == a.len());
    assert(bu.len() == b.len());
    if a.len() > 0 {
        let x = a.drop_last();
        let y = b.drop_last();
        assert(x.map_values(u) =~= a.map_values(u).drop_last());
        assert(y.map_values(u) =~= bu.drop_last());
        filter_of_unscored(x, y, dropped, f, g, u);
        assert(a.map_values(u).last() == u(a.last()));
        assert(bu.last() == u(a.last()));
        assert(f(a.last()) == g(bu.last()));
        assert(x.filter(f).push(a.last()).map_values(u) =~= x.filter(f).map_values(u).push(
            u(a.last()),
        ));
    } else {
        assert(a.filter(f).map_values(u) =~= Seq::empty());
        assert(bu.filter(g) =~= Seq::empty());
    }
}

proof fn rescoring_keeps_the_rest(h: Seq<EntryView>, scores: Seq<(u64, u8)>)
    ensures
        rescored_all(h, scores).len() == h.len(),
        forall|i: int|
            0 <= i < h.len() ==> unscored(#[trigger] rescored_all(h, scores)[i]) == unscored(h[i]),
    decreases scores.len(),
{
    if scores.len() > 0 {
        rescoring_keeps_the_rest(h, scores.drop_last());
        let before = rescored_all(h, scores.drop_last());
        entry_at_is_first(before, scores.last().0);
        assert forall|i: int| 0 <= i < h.len() implies unscored(
            #[trigger] rescored_all(h, scores)[i],
        ) == unscored(h[i]) by {
            assert(unscored(before[i]) == unscored(h[i]));
        }
    }
}

proof fn the_last_score_counts(h: Seq<EntryView>, scores: Seq<(u64, u8)>, i: int, k: int)
    requires
        0 <= i < h.len(),
        forall|a: int, b: int| 0 <= a < b < h.len() ==> (#[trigger] h[a]).seq < (#[trigger] h[b]).seq,
        -1 <= k < scores.len(),
        k >= 0 ==> scores[k].0 == h[i].seq,
        forall|l: int| k < l < scores.len() ==> (#[trigger] scores[l]).0 != h[i].seq,
    ensures
        rescored_all(h, scores)[i].score == (if k < 0 {
            h[i].score
        } else {
            capped(scores[k].1)
        }),
    decreases scores.len(),
{
    if scores.len() > 0 {
        let d = scores.drop_last();
        let before = rescored_all(h, d);
        rescoring_keeps_the_rest(h, d);
        let (n, v) = scores.last();
        entry_at_is_first(before, n);
        let a = entry_at(before, n) as int;
        assert(unscored(before[i]) == unscored(h[i]));
        if a < h.len() {
            assert(unscored(before[a]) == unscored(h[a]));
        }
        if k == scores.len() - 1 {
            if a > i {
                assert(before[i].seq != n);
            } else if a < i {
                assert(h[a].seq < h[i].seq);
            }
        } else {
            assert(scores[scores.len() - 1].0 != h[i].seq);
            assert forall|l: int| k < l < d.len() implies (#[trigger] d[l]).0 != h[i].seq by {
                assert(d[l] == scores[l]);
            }
            the_last_score_counts(h, d, i, k);
        }
    }
}

/// An audit changes the history by nothing but what it found: the entries that it
/// dropped go, save the last ones; all others stay as they were said, in order. The
/// memory is what it wrote.
pub proof fn an_audit_drops_nothing_else(o: AuditOutcome, reaudit: bool)
    ensures
        forall|s: &mut MemoryService|
            #[trigger] call_ensures(MemoryService::apply_audit, (s, o, reaudit), ()) ==> {
                let n = if s.history@.len() > s.settings.grace_turns {
                    s.history@.len() - s.settings.grace_turns
                } else {
                    0
                };
                let u = |e: EntryView| unscored(e);
                let was = entry_views(s.history@).map_values(u);
                let is = entry_views(final(s).history@).map_values(u);
                &&& is == was.take(n).filter(
                    |x: (Seq<char>, Seq<char>, u64, Seq<char>)| !o.dropped_seqs@.contains(x.2),
                ) + was.skip(n)
                &&& final(s).memory is Some && final(s).memory->0@ == o.memory@
                &&& final(s).seq == s.seq && final(s).saved == s.saved && final(s).since_audit
                    == s.since_audit
            },
{
    assert forall|s: &mut MemoryService|
        #[trigger] call_ensures(MemoryService::apply_audit, (s, o, reaudit), ()) implies {
        let n = if s.history@.len() > s.settings.grace_turns {
            s.history@.len() - s.settings.grace_turns
        } else {
            0
        };
        let u = |e: EntryView| unscored(e);
        let was = entry_views(s.history@).map_values(u);
        let is = entry_views(final(s).history@).map_values(u);
        &&& is == was.take(n).filter(
            |x: (Seq<char>, Seq<char>, u64, Seq<char>)| !o.dropped_seqs@.contains(x.2),
        ) + was.skip(n)
        &&& final(s).memory is Some && final(s).memory->0@ == o.memory@
        &&& final(s).seq == s.seq && final(s).saved == s.saved && final(s).since_audit
            == s.since_audit
    } by {
        let n = if s.history@.len() > s.settings.grace_turns {
            s.history@.len() - s.settings.grace_turns
        } else {
            0
        };
        let u = |e: EntryView| unscored(e);
        let f = |e: EntryView| !o.dropped_seqs@.contains(e.seq);
        let g = |x: (Seq<char>, Seq<char>, u64, Seq<char>)| !o.dropped_seqs@.contains(x.2);
        let h = entry_views(s.history@);
        let k = rescored_all(h, o.scores@);
        rescoring_keeps_the_rest(h, o.scores@);
        evicted_is_filtered(k, o.dropped_seqs@, n);
        assert(final(s)@.history == k.take(n).filter(f) + k.skip(n));
        assert forall|i: int| 0 <= i < h.len() implies u(#[trigger] k[i]) == u(h[i]) by {
            assert(unscored(k[i]) == unscored(h[i]));
        }
        assert(k.take(n).map_values(u) =~= h.take(n).map_values(u));
        filter_of_unscored(k.take(n), h.take(n), o.dropped_seqs@, f, g, u);
        let was = h.map_values(u);
        assert(h.take(n).map_values(u) =~= was.take(n));
        assert(k.skip(n).map_values(u) =~= was.skip(n));
        assert((k.take(n).filter(f) + k.skip(n)).map_values(u) =~= k.take(n).filter(f).map_values(u)
            + k.skip(n).map_values(u));
    }
}

/// The scores of an audit go to the entries of their numbers: an entry that stays has
/// the score that the audit gave last for its number, and its old one where it gave
/// none.
pub proof fn an_audit_scores_by_number(o: AuditOutcome, reaudit: bool, i: int, k: int)
    requires
        o.dropped_seqs@.len() == 0,
        -1 <= k < o.scores@.len(),
    ensures
        forall|s: &mut MemoryService|
            #[trigger] call_ensures(MemoryService::apply_audit, (s, o, reaudit), ()) && s@.wf()
                && 0 <= i < s.history@.len() && (k >= 0 ==> o.scores@[k].0 == s.history@[i].seq)
                && (forall|l: int|
                k < l < o.scores@.len() ==> (#[trigger] o.scores@[l]).0 != s.history@[i].seq) ==> {
                &&& final(s).history@.len() == s.history@.len()
                &&& final(s).history@[i].content@ == s.history@[i].content@
                &&& final(s).history@[i].score == if k < 0 {
                    s.history@[i].score
                } else if o.scores@[k].1 > 5 {
                    5
                } else {
                    o.scores@[k].1
                }
            },
{
    assert forall|s: &mut MemoryService|
        #[trigger] call_ensures(MemoryService::apply_audit, (s, o, reaudit), ()) && s@.wf() && 0
            <= i < s.history@.len() && (k >= 0 ==> o.scores@[k].0 == s.history@[i].seq) && (forall|
            l: int,
        |
            k < l < o.scores@.len() ==> (#[trigger] o.scores@[l]).0 != s.history@[i].seq) implies {
        &&& final(s).history@.len() == s.history@.len()
        &&& final(s).history@[i].content@ == s.history@[i].content@
        &&& final(s).history@[i].score == if k < 0 {
            s.history@[i].score
        } else if o.scores@[k].1 > 5 {
            5
        } else {
            o.scores@[k].1
        }
    } by {
        let h = s@.history;
        let g = rescored_all(h, o.scores@);
        assert(h[i] == s.history@[i]@);
        rescoring_keeps_the_rest(h, o.scores@);
        the_last_score_counts(h, o.scores@, i, k);
        let start = grace_start(g.len(), s.settings.grace_turns);
        evicted_is_filtered(g, o.dropped_seqs@, start);
        let f = |e: EntryView| !o.dropped_seqs@.contains(e.seq);
        let n = if start < g.len() {
            start
        } else {
            g.len() as int
        };
        all_pass(g.take(n), f);
        assert(final(s)@.history =~= g);
        assert(final(s)@.history[i] == final(s).history@[i]@);
        assert(unscored(g[i]) == unscored(h[i]));
    }
}

proof fn all_pass(h: Seq<EntryView>, f: spec_fn(EntryView) -> bool)
    requires
        forall|e: EntryView| #[trigger] f(e),
    ensures
        h.filter(f) == h,
    decreases h.len(),
{
    reveal(Seq::filter);
    if h.len() > 0 {
        all_pass(h.drop_last(), f);
        assert(f(h.last()));
        assert(h.filter(f) =~= h);
    }
}

/// Where the old critical memories were judged again, the new ones take their place;
/// otherwise all old ones stay, in their order, and every new one is among them. Beyond
/// the most there may be, the first ones stay.
pub proof fn critical_memories_are_kept(
    old_items: Vec<String>,
    new_items: Vec<String>,
    max: usize,
    r: Vec<String>,
    s: Vec<String>,
    i: int,
)
    requires
        call_ensures(merge_critical, (&old_items, &new_items, max, true), r),
        call_ensures(merge_critical, (&old_items, &new_items, max, false), s),
    ensures
        new_items@.len() <= max ==> texts(r@) == texts(new_items@),
        new_items@.len() > max ==> texts(r@) == texts(new_items@).take(max as int),
        old_items@.len() <= max ==> texts(old_items@).is_prefix_of(texts(s@)),
        old_items@.len() > max ==> texts(s@) == texts(old_items@).take(max as int),
        s@.len() < max && 0 <= i < new_items@.len() ==> texts(s@).contains(new_items@[i]@),
        0 <= i < s@.len() ==> texts(old_items@).contains(s@[i]@) || texts(new_items@).contains(
            s@[i]@,
        ),
{
    let a = texts(old_items@);
    let b = texts(new_items@);
    let u = united(a, b);
    united_begins_with(a, b);
    assert(a =~= u.take(a.len() as int));
    let t = texts(s@);
    assert(t.len() == s@.len());
    if u.len() > max {
        assert(t == u.take(max as int));
    } else {
        assert(t == u);
    }
    if old_items@.len() <= max {
        assert(a =~= t.subrange(0, a.len() as int));
    } else {
        assert(t =~= a.take(max as int));
    }
    if s@.len() < max && 0 <= i < new_items@.len() {
        assert(b[i] == new_items@[i]@);
        assert(u.contains(b[i]));
    }
    if 0 <= i < s@.len() {
        assert(t[i] == s@[i]@);
        assert(t[i] == u[i]);
        assert(u.contains(u[i]));
    }
}

proof fn united_begins_with(a: Seq<Seq<char>>, b: Seq<Seq<char>>)
    ensures
        united(a, b).len() >= a.len(),
        united(a, b).take(a.len() as int) == a,
        forall|x: Seq<char>|
            #[trigger] united(a, b).contains(x) ==> a.contains(x) || b.contains(x),
        forall|i: int| 0 <= i < b.len() ==> united(a, b).contains(#[trigger] b[i]),
    decreases b.len(),
{
    if b.len() > 0 {
        let d = b.drop_last();
        let rest = united(a, d);
        united_begins_with(a, d);
        let u = united(a, b);
        assert(u.take(a.len() as int) =~= rest.take(a.len() as int));
        assert forall|x: Seq<char>| #[trigger] u.contains(x) implies a.contains(x) || b.contains(x) by {
            let k = choose|k: int| 0 <= k < u.len() && u[k] == x;
            if k < rest.len() {
                assert(rest.contains(x));
                if d.contains(x) {
                    let l = choose|l: int| 0 <= l < d.len() && d[l] == x;
                    assert(b[l] == x);
                }
            } else {
                assert(b[b.len() - 1] == x);
            }
        }
        assert forall|i: int| 0 <= i < b.len() implies u.contains(#[trigger] b[i]) by {
            if i < d.len() {
                assert(d[i] == b[i]);
                let k = choose|k: int| 0 <= k < rest.len() && rest[k] == b[i];
                assert(u[k] == b[i]);
            } else if !rest.contains(b[i]) {
                assert(u[rest.len() as int] == b[i]);
            }
        }
    } else {
        assert(a.take(a.len() as int) =~= a);
    }
}

// ---- what is kept ----

proof fn entries_after_are_filtered(h: Seq<EntryView>, saved: u64)
    ensures
        entries_after(h, saved) == h.filter(|e: EntryView| e.seq > saved),
    decreases h.len(),
{
    reveal(Seq::filter);
    let f = |e: EntryView| e.seq > saved;
    if h.len() > 0 {
        entries_after_are_filtered(h.drop_last(), saved);
        assert(f(h.last()) == (h.last().seq > saved));
        assert(entries_after(h, saved) =~= h.filter(f));
    } else {
        assert(h.filter(f) =~= Seq::empty());
    }
}

proof fn greatest_is_greatest(h: Seq<EntryView>, least: u64)
    ensures
        greatest_seq(h, least) >= least,
        forall|i: int| 0 <= i < h.len() ==> (#[trigger] h[i]).seq <= greatest_seq(h, least),
        greatest_seq(h, least) == least || exists|i: int|
            0 <= i < h.len() && (#[trigger] h[i]).seq == greatest_seq(h, least),
    decreases h.len(),
{
    if h.len() > 0 {
        let d = h.drop_last();
        greatest_is_greatest(d, least);
        assert forall|i: int| 0 <= i < h.len() implies (#[trigger] h[i]).seq <= greatest_seq(
            h,
            least,
        ) by {
            if i < d.len() {
                assert(d[i] == h[i]);
            }
        }
        if greatest_seq(h, least) != least {
            if h.last().seq == greatest_seq(h, least) {
                assert(h[h.len() - 1].seq == greatest_seq(h, least));
            } else {
                let i = choose|i: int|
                    0 <= i < d.len() && (#[trigger] d[i]).seq == greatest_seq(d, least);
                assert(h[i] == d[i]);
            }
        }
    }
}

/// Whether a snapshot is the context at hand, field by field.
pub open spec fn kept(m: MemoryService, s: ChatSnapshot) -> bool {
    &&& s.seq == m.seq
    &&& s.since_audit == m.since_audit
    &&& s.history@.len() == m.history@.len()
    &&& forall|i: int| 0 <= i < m.history@.len() ==> (#[trigger] s.history@[i])@ == m.history@[i]@
    &&& s.critical@.len() == m.critical@.len()
    &&& forall|i: int|
        0 <= i < m.critical@.len() ==> (#[trigger] s.critical@[i])@ == m.critical@[i]@
    &&& s.memory is Some <==> m.memory is Some
    &&& s.memory is Some ==> s.memory->0@ == m.memory->0@
}

proof fn snapshots_are_kept(m: MemoryService, s: ChatSnapshot)
    requires
        crate::plugins::memory::snapshot_of(m@, s),
    ensures
        kept(m, s),
{
    assert(entry_views(s.history@).len() == s.history@.len());
    assert(texts(s.critical@).len() == s.critical@.len());
    assert forall|i: int| 0 <= i < m.history@.len() implies (#[trigger] s.history@[i])@
        == m.history@[i]@ by {
        assert(entry_views(s.history@)[i] == s.history@[i]@);
        assert(m@.history[i] == m.history@[i]@);
    }
    assert forall|i: int| 0 <= i < m.critical@.len() implies (#[trigger] s.critical@[i])@
        == m.critical@[i]@ by {
        assert(texts(s.critical@)[i] == s.critical@[i]@);
        assert(m@.critical[i] == m.critical@[i]@);
    }
}

/// What is written is everything that is new: every entry with a number beyond those
/// already written, in order, and the whole context at hand; afterwards all of them
/// count as written. Where nothing is kept, nothing is written.
pub proof fn everything_new_is_written(r: Option<PersistPlan>, i: int)
    ensures
        forall|s: &mut MemoryService|
            #[trigger] call_ensures(MemoryService::persist, (s,), r) ==> {
                &&& r is Some <==> s.settings.persist
                &&& r is Some ==> {
                    &&& entry_views(r->0.entries@) == entry_views(s.history@).filter(
                        |e: EntryView| e.seq > s.saved,
                    )
                    &&& kept(*s, r->0.snapshot)
                    &&& 0 <= i < s.history@.len() ==> s.history@[i].seq <= final(s).saved
                    &&& final(s).saved >= s.saved
                }
                &&& final(s).saved > s.saved ==> exists|k: int|
                    0 <= k < s.history@.len() && (#[trigger] s.history@[k]).seq == final(s).saved
                &&& r is None ==> final(s).saved == s.saved
                &&& entry_views(final(s).history@) == entry_views(s.history@)
                &&& texts(final(s).critical@) == texts(s.critical@)
                &&& final(s).seq == s.seq && final(s).since_audit == s.since_audit
            },
{
    assert forall|s: &mut MemoryService| #[trigger]
        call_ensures(MemoryService::persist, (s,), r) implies {
        &&& r is Some <==> s.settings.persist
        &&& r is Some ==> {
            &&& entry_views(r->0.entries@) == entry_views(s.history@).filter(
                |e: EntryView| e.seq > s.saved,
            )
            &&& kept(*s, r->0.snapshot)
            &&& 0 <= i < s.history@.len() ==> s.history@[i].seq <= final(s).saved
            &&& final(s).saved >= s.saved
        }
        &&& final(s).saved > s.saved ==> exists|k: int|
            0 <= k < s.history@.len() && (#[trigger] s.history@[k]).seq == final(s).saved
        &&& r is None ==> final(s).saved == s.saved
        &&& entry_views(final(s).history@) == entry_views(s.history@)
        &&& texts(final(s).critical@) == texts(s.critical@)
        &&& final(s).seq == s.seq && final(s).since_audit == s.since_audit
    } by {
        let h = s@.history;
        assert(final(s)@.history == h);
        assert(final(s)@.critical == s@.critical);
        if r is Some {
            entries_after_are_filtered(h, s.saved);
            snapshots_are_kept(*s, r->0.snapshot);
            let fresh = entries_after(h, s.saved);
            greatest_is_greatest(fresh, s.saved);
            let f = |e: EntryView| e.seq > s.saved;
            if 0 <= i < s.history@.len() {
                assert(h[i] == s.history@[i]@);
                if h[i].seq > s.saved {
                    passing_stay(h, f, i);
                    let j = choose|j: int| 0 <= j < fresh.len() && fresh[j] == h[i];
                    assert(fresh[j].seq <= final(s).saved);
                }
            }
            if final(s).saved > s.saved {
                let j = choose|j: int|
                    0 <= j < fresh.len() && (#[trigger] fresh[j]).seq == final(s).saved;
                filtered_come_from(h, f, j);
                let k = choose|k: int| 0 <= k < h.len() && h[k] == fresh[j];
                assert(h[k] == s.history@[k]@);
                assert(s.history@[k].seq == final(s).saved);
            }
        }
    }
}

proof fn passing_stay(h: Seq<EntryView>, f: spec_fn(EntryView) -> bool, i: int)
    requires
        0 <= i < h.len(),
        f(h[i]),
    ensures
        h.filter(f).contains(h[i]),
    decreases h.len(),
{
    reveal(Seq::filter);
    let d = h.drop_last();
    let g = h.filter(f);
    if i == h.len() - 1 {
        assert(g[g.len() - 1] == h[i]);
    } else {
        assert(d[i] == h[i]);
        passing_stay(d, f, i);
        let j = choose|j: int| 0 <= j < d.filter(f).len() && d.filter(f)[j] == h[i];
        assert(g[j] == h[i]);
    }
}

proof fn filtered_come_from(h: Seq<EntryView>, f: spec_fn(EntryView) -> bool, j: int)
    requires
        0 <= j < h.filter(f).len(),
    ensures
        exists|k: int| 0 <= k < h.len() && h[k] == h.filter(f)[j],
    decreases h.len(),
{
    reveal(Seq::filter);
    if h.len() > 0 {
        let d = h.drop_last();
        if j < d.filter(f).len() {
            filtered_come_from(d, f, j);
            let k = choose|k: int| 0 <= k < d.len() && d[k] == d.filter(f)[j];
            assert(h[k] == h.filter(f)[j]);
        } else {
            assert(h[h.len() - 1] == h.filter(f)[j]);
        }
    }
}

/// A new session has nothing at hand, and that is what is kept; numbers go on, and what
/// is in the archive stays there.
pub proof fn a_new_session_is_empty(r: Option<ChatSnapshot>)
    ensures
        forall|s: &mut MemoryService|
            #[trigger] call_ensures(MemoryService::reset_session, (s,), r) ==> {
                &&& final(s).history@.len() == 0
                &&& final(s).critical@.len() == 0
                &&& final(s).memory is None
                &&& final(s).since_audit == 0
                &&& final(s).seq == s.seq
                &&& final(s).saved == s.saved
                &&& final(s).settings == s.settings
                &&& r is Some <==> s.settings.persist
                &&& r is Some ==> r->0.seq == s.seq && r->0.history@.len() == 0
                    && r->0.critical@.len() == 0 && r->0.memory is None && r->0.since_audit == 0
            },
{
    assert forall|s: &mut MemoryService| #[trigger]
        call_ensures(MemoryService::reset_session, (s,), r) implies {
        &&& final(s).history@.len() == 0
        &&& final(s).critical@.len() == 0
        &&& final(s).memory is None
        &&& final(s).since_audit == 0
        &&& final(s).seq == s.seq
        &&& final(s).saved == s.saved
        &&& final(s).settings == s.settings
        &&& r is Some <==> s.settings.persist
        &&& r is Some ==> r->0.seq == s.seq && r->0.history@.len() == 0 && r->0.critical@.len() == 0
            && r->0.memory is None && r->0.since_audit == 0
    } by {
        assert(final(s)@.history.len() == final(s).history@.len());
        assert(final(s)@.critical.len() == final(s).critical@.len());
        if r is Some {
            snapshots_are_kept(*final(s), r->0);
        }
    }
}

/// A session is gone on with as it was kept: everything that was at hand is at hand, and
/// counts as written. Without a session, or where nothing is kept, nothing changes.
pub proof fn a_session_is_gone_on_with(last: Option<ChatSnapshot>)
    ensures
        forall|s: &mut MemoryService|
            #[trigger] call_ensures(MemoryService::resume, (s, last), ()) ==> {
                &&& last is Some && s.settings.persist && last->0.seq >= 1 ==> kept(
                    *final(s),
                    last->0,
                ) && final(s).saved == last->0.seq - 1
                &&& last is None || !s.settings.persist ==> final(s)@ == s@
                &&& final(s).settings == s.settings
            },
{
    assert forall|s: &mut MemoryService| #[trigger]
        call_ensures(MemoryService::resume, (s, last), ()) implies {
        &&& last is Some && s.settings.persist && last->0.seq >= 1 ==> kept(*final(s), last->0)
            && final(s).saved == last->0.seq - 1
        &&& last is None || !s.settings.persist ==> final(s)@ == s@
        &&& final(s).settings == s.settings
    } by {
        if last is Some && s.settings.persist && last->0.seq >= 1 {
            snapshots_are_kept(*final(s), last->0);
        }
    }
}

/// A memory begins with nothing at hand and the first number, by the options.
pub proof fn a_memory_begins_empty(opts: MemoryOptions, r: MemoryService)
    requires
        call_ensures(MemoryService::new, (&opts, None::<ChatSnapshot>), r),
    ensures
        r.history@.len() == 0,
        r.critical@.len() == 0,
        r.memory is None,
        r.since_audit == 0,
        r.seq == 1,
        r.saved == 0,
        r.settings.history_turns == opts.history_turns,
        r.settings.grace_turns == opts.grace_turns,
        r.settings.trigger_turns == opts.trigger_turns,
        r.settings.critical_reaudit == opts.critical_reaudit,
        r.settings.critical_max_items == opts.critical_max_items,
        r.settings.persist == opts.enabled,
        opts.enabled ==> r.settings.compressor is Some
            && r.settings.compressor->0.memory_max_chars == opts.memory_max_chars
            && r.settings.compressor->0.critical_max_items == opts.critical_max_items,
        !opts.enabled ==> r.settings.compressor is None,
{
    assert(r@.history.len() == r.history@.len());
    assert(r@.critical.len() == r.critical@.len());
}

/// What is read of the memory is what is at hand.
pub proof fn the_memory_is_read(
    m: MemoryService,
    h: Vec<HistoryEntry>,
    c: Vec<String>,
    t: Option<String>,
    s: ChatSnapshot,
)
    requires
        call_ensures(MemoryService::history, (&m,), &h),
        call_ensures(MemoryService::critical_items, (&m,), c),
        call_ensures(MemoryService::memory_text, (&m,), t),
        call_ensures(MemoryService::snapshot, (&m,), s),
    ensures
        h == m.history,
        c@.len() == m.critical@.len(),
        forall|i: int| 0 <= i < c@.len() ==> (#[trigger] c@[i])@ == m.critical@[i]@,
        t is Some <==> m.memory is Some,
        t is Some ==> t->0@ == m.memory->0@,
        kept(m, s),
{
    assert(texts(c@).len() == texts(m.critical@).len());
    assert forall|i: int| 0 <= i < c@.len() implies (#[trigger] c@[i])@ == m.critical@[i]@ by {
        assert(texts(c@)[i] == texts(m.critical@)[i]);
    }
    snapshots_are_kept(m, s);
}

/// Trimming keeps the last entries, two for each turn, and all where there are no more.
pub proof fn trimming_keeps_the_last(turns: usize)
    ensures
        forall|h: &mut Vec<HistoryEntry>|
            #[trigger] call_ensures(trim, (h, turns), ()) && turns * 2 <= usize::MAX ==> {
                &&& h@.len() <= turns * 2 ==> entry_views(final(h)@) == entry_views(h@)
                &&& h@.len() > turns * 2 ==> entry_views(final(h)@) == entry_views(h@).skip(
                    h@.len() - turns * 2,
                )
            },
{
}

// ---- files ----

/// A line of the archive is a line of its own: what is appended for two lists, one
/// after the other, is what is appended for both, and for one line it is the line with
/// its end.
pub proof fn every_line_is_archived(a: Seq<Seq<char>>, b: Seq<Seq<char>>, x: Seq<char>)
    ensures
        archive_spec(Seq::empty()).len() == 0,
        archive_spec(seq![x]) == x + "\n"@,
        archive_spec(a + b) == archive_spec(a) + archive_spec(b),
    decreases b.len(),
{
    let one = seq![x];
    let none = Seq::<Seq<char>>::empty();
    assert(one.drop_last() =~= none);
    assert(archive_spec(none) =~= Seq::empty());
    assert(archive_spec(one) =~= x + "\n"@);
    if b.len() > 0 {
        every_line_is_archived(a, b.drop_last(), x);
        assert((a + b).drop_last() =~= a + b.drop_last());
        assert(archive_spec(a + b) =~= archive_spec(a) + archive_spec(b));
    } else {
        assert(a + b =~= a);
        assert(archive_spec(a) + archive_spec(b) =~= archive_spec(a));
    }
}

proof fn line_in_archive(lines: Seq<Seq<char>>, i: int) -> (at: int)
    requires
        0 <= i < lines.len(),
    ensures
        occurs_at(archive_spec(lines), lines[i] + "\n"@, at),
    decreases lines.len(),
{
    let all = archive_spec(lines);
    let x = lines[i] + "\n"@;
    let d = lines.drop_last();
    if i == lines.len() - 1 {
        let at = archive_spec(d).len() as int;
        assert(all.subrange(at, at + x.len()) =~= x);
        at
    } else {
        let at = line_in_archive(d, i);
        assert(all.subrange(at, at + x.len()) =~= archive_spec(d).subrange(at, at + x.len()));
        at
    }
}

/// What is appended for some lines holds each of them, with its end, and nothing more.
pub proof fn the_archive_holds_every_line(lines: Vec<String>, r: String, i: int)
    requires
        call_ensures(Persist::append_conversation, (&lines,), r),
    ensures
        0 <= i < lines@.len() ==> exists|at: int| occurs_at(r@, lines@[i]@ + "\n"@, at),
        lines@.len() == 0 ==> r@.len() == 0,
        lines@.len() == 1 ==> r@ == lines@[0]@ + "\n"@,
{
    let all = texts(lines@);
    if 0 <= i < lines@.len() {
        assert(all[i] == lines@[i]@);
        let at = line_in_archive(all, i);
    }
    if lines@.len() == 1 {
        assert(all =~= seq![lines@[0]@]);
        every_line_is_archived(all, all, lines@[0]@);
    }
}

/// The line between sessions holds the time; the name of a file that is not complete
/// holds that of the file, and no two processes write the same one.
pub proof fn files_are_told_apart(ts: &str, m: String, name: &str, p: u32, q: u32, a: String, b: String)
    requires
        call_ensures(Persist::append_session_marker, (ts,), m),
        call_ensures(Persist::temp_name, (Some(name), p), a),
        call_ensures(Persist::temp_name, (Some(name), q), b),
    ensures
        exists|i: int| occurs_at(m@, ts@, i),
        m@.last() == '\n',
        occurs_at(a@, name@, 1),
        a@[0] == '.',
        decimal_spec(p as nat).is_suffix_of(a@),
        p != q ==> a@ != b@,
{
    reveal_strlit("{\"session\": \"");
    reveal_strlit("\"}\n");
    reveal_strlit(".");
    let n = "{\"session\": \""@.len() as int;
    assert(m@.subrange(n, n + ts@.len()) =~= ts@);
    assert(occurs_at(m@, ts@, n));
    assert(a@.subrange(1, 1 + name@.len() as int) =~= name@);
    let d = decimal_spec(p as nat);
    assert(d =~= a@.subrange(a@.len() - d.len(), a@.len() as int));
    if a@ == b@ {
        let k = ("."@ + name@ + ".tmp-"@).len() as int;
        assert(a@.skip(k) =~= decimal_spec(p as nat) + Seq::empty());
        assert(b@.skip(k) =~= decimal_spec(q as nat) + Seq::empty());
        decimal_is_read_off(p as nat, q as nat, Seq::empty(), Seq::empty());
    }
}

/// A directory that is named is that one. Nothing, or `default`, is the directory of
/// the program, where that is known. A tilde is the home directory, and what follows
/// it lies below.
pub proof fn directories_are_found(dir: String, facts: DirFacts, rest: Seq<char>, r: ResolvedDir, d: ResolvedDir)
    requires
        call_ensures(Persist::resolve_dir, (&Some(dir), &facts), r),
        call_ensures(Persist::resolve_dir, (&None::<String>, &facts), d),
    ensures
        facts.program is Some ==> d is Whole && d->Whole_0@ == facts.program->0@,
        facts.program is None && facts.current is Some ==> d is Whole && d->Whole_0@
            == facts.current->0@,
        facts.program is None && facts.current is None ==> d is Whole && d->Whole_0@ == "."@,
        dir@.len() > 0 && dir@ != "default"@ && dir@[0] != '~' ==> r is Whole && r->Whole_0@
            == dir@,
        (dir@.len() == 0 || dir@ == "default"@) && facts.program is Some ==> r is Whole
            && r->Whole_0@ == facts.program->0@,
        facts.home is Some && dir@ == seq!['~', '/'] + rest && rest.len() > 0 && rest[0] != '/'
            && rest[0] != '\\' ==> r is Below && r->Below_0@ == facts.home->0@ && r->Below_1@ == rest,
        facts.home is Some && dir@ == seq!['~'] ==> r is Whole && r->Whole_0@ == facts.home->0@,
{
    reveal_strlit("default");
    assert("default"@[0] == 'd');
    reveal_with_fuel(strip_leading_spec, 3);
    reveal_with_fuel(strip_separators, 3);
    if dir@ == seq!['~', '/'] + rest && rest.len() > 0 {
        let a = dir@.drop_first();
        assert(a =~= seq!['/'] + rest);
        assert(a.drop_first() =~= rest);
    }
    if dir@ == seq!['~'] {
        assert(dir@.drop_first() =~= Seq::empty());
    }
}

}  // verus!
