//! What holds of the chat: what the model is asked, what becomes of its answer, and
//! what is sent out.

use crate::llm::client::{message_views, said, ChatMessage, ChatRequest, ChatResponse};
use crate::plugins::chat::{
    asked, command_reply, last_messages, outcome_spec, outgoing_views, ChatOptions, ChatService,
    MemoryQuestion, Outgoing, CHAT_SYSTEM,
};
use crate::plugins::memory::{answer_remembered, context_messages, AuditStart, MemoryService};
use crate::text::search::occurs_at;
use vstd::prelude::*;
use vstd::string::*;

verus! {

/// A chat begins with the system prompt alone, by its options, and with no call.
pub proof fn a_chat_begins_with_its_prompt(opts: ChatOptions, r: ChatService, busy: bool)
    requires
        call_ensures(ChatService::new, (&opts,), r),
        call_ensures(ChatService::is_busy, (&r,), busy),
    ensures
        r.history@.len() == 1,
        r.history@[0].role@ == "system"@,
        r.history@[0].content@ == CHAT_SYSTEM@,
        r.enable_thinking == opts.enable_thinking,
        r.history_turns == opts.history_turns,
        r.cancelled@.len() == 0,
        !busy,
{
    assert(r@.history.len() == r.history@.len());
    assert(r@.history[0] == r.history@[0]@);
}

/// Whether a history is that of a question: what was said before, then the question. Of
/// what was said before, the first message and the last ones stay, as many as are kept;
/// where no more was said than that, everything stays.
pub open spec fn question_follows(before: Seq<ChatMessage>, turns: usize, text: Seq<char>, after: Seq<ChatMessage>) -> bool {
    let all = before.len() + 1;
    let keep = if turns == 0 {
        1
    } else {
        turns * 2
    };
    let n = after.len() as int;
    &&& n == if all <= keep + 1 {
        all as int
    } else {
        keep + 1
    }
    &&& after[n - 1].role@ == "user"@
    &&& after[n - 1].content@ == text
    &&& after[0].role@ == before[0].role@
    &&& after[0].content@ == before[0].content@
    &&& forall|j: int|
        1 <= j < n - 1 ==> (#[trigger] after[j]).role@ == before[all - n + j].role@
            && after[j].content@ == before[all - n + j].content@
}

/// What the user says is asked with everything that is kept of what was said before, in
/// order, of the model that is named.
pub proof fn a_question_is_asked_whole(text: &str, model: &str, r: ChatRequest, i: int)
    ensures
        forall|c: &mut ChatService|
            #[trigger] call_ensures(ChatService::ask, (c, text, model), r) && c.history@.len() > 0 ==> {
                &&& question_follows(c.history@, c.history_turns, text@, final(c).history@)
                &&& r.model@ == model@
                &&& !r.json
                &&& r.enable_thinking == c.enable_thinking
                &&& r.messages@.len() == final(c).history@.len()
                &&& 0 <= i < r.messages@.len() ==> r.messages@[i].role@ == final(c).history@[i].role@
                    && r.messages@[i].content@ == final(c).history@[i].content@
                &&& final(c).current == c.current
                &&& final(c).cancelled@ == c.cancelled@
            },
{
    assert forall|c: &mut ChatService|
        #[trigger] call_ensures(ChatService::ask, (c, text, model), r) && c.history@.len() > 0 implies {
        &&& question_follows(c.history@, c.history_turns, text@, final(c).history@)
        &&& r.model@ == model@
        &&& !r.json
        &&& r.enable_thinking == c.enable_thinking
        &&& r.messages@.len() == final(c).history@.len()
        &&& 0 <= i < r.messages@.len() ==> r.messages@[i].role@ == final(c).history@[i].role@
            && r.messages@[i].content@ == final(c).history@[i].content@
        &&& final(c).current == c.current
        &&& final(c).cancelled@ == c.cancelled@
    } by {
        let h = c@.history.push(said("user"@, text@));
        let g = final(c)@.history;
        let n = g.len() as int;
        assert(g == last_messages(h, c.history_turns));
        assert(final(c).history@.len() == n);
        assert(g[0] == final(c).history@[0]@);
        assert(c@.history[0] == c.history@[0]@);
        assert(g[n - 1] == final(c).history@[n - 1]@);
        assert(g[n - 1] == h.last());
        assert(g[0] == h[0]);
        assert forall|j: int| 1 <= j < n - 1 implies (#[trigger] final(c).history@[j]).role@
            == c.history@[h.len() - n + j].role@ && final(c).history@[j].content@
            == c.history@[h.len() - n + j].content@ by {
            let k = h.len() - n + j;
            assert(g[j] == final(c).history@[j]@);
            assert(g[j] == h[k]);
            assert(c@.history[k] == c.history@[k]@);
        }
        let m = message_views(r.messages@);
        assert(m == g);
        assert(m.len() == r.messages@.len());
        if 0 <= i < r.messages@.len() {
            assert(m[i] == r.messages@[i]@);
            assert(g[i] == final(c).history@[i]@);
        }
    }
}

/// An answer is handed on as it is, and is kept after everything that was said before;
/// a failure is handed on as it is, and nothing is kept of it.
pub proof fn an_answer_is_kept(resp: ChatResponse, e: String, r: Result<String, String>, q: Result<String, String>)
    ensures
        forall|c: &mut ChatService|
            #[trigger] call_ensures(ChatService::answered, (c, Ok(resp)), r) ==> {
                let n = c.history@.len() as int;
                &&& r is Ok && r->Ok_0@ == resp.content@
                &&& final(c).history@.len() == n + 1
                &&& final(c).history@[n].role@ == "assistant"@
                &&& final(c).history@[n].content@ == resp.content@
                &&& forall|j: int|
                    0 <= j < n ==> (#[trigger] final(c).history@[j])@ == c.history@[j]@
            },
        forall|c: &mut ChatService|
            #[trigger] call_ensures(ChatService::answered, (c, Err(e)), q) ==> {
                &&& q is Err && q->Err_0@ == e@
                &&& final(c)@ == c@
            },
{
    assert forall|c: &mut ChatService| #[trigger]
        call_ensures(ChatService::answered, (c, Ok(resp)), r) implies {
        let n = c.history@.len() as int;
        &&& r is Ok && r->Ok_0@ == resp.content@
        &&& final(c).history@.len() == n + 1
        &&& final(c).history@[n].role@ == "assistant"@
        &&& final(c).history@[n].content@ == resp.content@
        &&& forall|j: int| 0 <= j < n ==> (#[trigger] final(c).history@[j])@ == c.history@[j]@
    } by {
        let n = c.history@.len() as int;
        let g = final(c)@.history;
        assert(g.len() == final(c).history@.len());
        assert(c@.history.len() == n);
        assert(g[n] == final(c).history@[n]@);
        assert forall|j: int| 0 <= j < n implies (#[trigger] final(c).history@[j])@
            == c.history@[j]@ by {
            assert(g[j] == final(c).history@[j]@);
            assert(c@.history[j] == c.history@[j]@);
        }
    }
}

/// A question that is asked from memory is asked with everything that the memory has at
/// hand, the system prompt first and the question last, after it was noted there.
pub proof fn a_question_is_asked_from_memory(
    c: ChatService,
    text: &str,
    ts: &str,
    model: &str,
    r: MemoryQuestion,
    i: int,
)
    ensures
        forall|m: &mut MemoryService|
            #[trigger] call_ensures(ChatService::ask_from_memory, (&c, m, text, ts, model), r) ==> {
                let q = r.request;
                let h = final(m).history@;
                let head = q.messages@.len() - h.len();
                &&& q.model@ == model@
                &&& q.enable_thinking == c.enable_thinking
                &&& !q.json
                &&& head == 1 + (if m.critical@.len() > 0 {
                    1int
                } else {
                    0
                }) + (if m.memory is Some {
                    1int
                } else {
                    0
                })
                &&& q.messages@[0].role@ == "system"@
                &&& q.messages@[0].content@ == CHAT_SYSTEM@
                &&& 0 <= i < h.len() ==> q.messages@[head + i].role@ == h[i].role@
                    && q.messages@[head + i].content@ == h[i].content@
                &&& m.settings.history_turns > 0 ==> {
                    &&& h.len() > 0
                    &&& q.messages@.last().role@ == "user"@
                    &&& q.messages@.last().content@ == text@
                }
                &&& r.seq == m.seq
                &&& r.score is Some <==> m.settings.compressor is Some
                &&& r.score is Some ==> r.score->0.messages@.last().content@ == text@
                    && r.score->0.model@ == model@
            },
{
    assert forall|m: &mut MemoryService| #[trigger]
        call_ensures(ChatService::ask_from_memory, (&c, m, text, ts, model), r) implies {
        let q = r.request;
        let h = final(m).history@;
        let head = q.messages@.len() - h.len();
        &&& q.model@ == model@
        &&& q.enable_thinking == c.enable_thinking
        &&& !q.json
        &&& head == 1 + (if m.critical@.len() > 0 {
            1int
        } else {
            0
        }) + (if m.memory is Some {
            1int
        } else {
            0
        })
        &&& q.messages@[0].role@ == "system"@
        &&& q.messages@[0].content@ == CHAT_SYSTEM@
        &&& 0 <= i < h.len() ==> q.messages@[head + i].role@ == h[i].role@
            && q.messages@[head + i].content@ == h[i].content@
        &&& m.settings.history_turns > 0 ==> {
            &&& h.len() > 0
            &&& q.messages@.last().role@ == "user"@
            &&& q.messages@.last().content@ == text@
        }
        &&& r.seq == m.seq
        &&& r.score is Some <==> m.settings.compressor is Some
        &&& r.score is Some ==> r.score->0.messages@.last().content@ == text@
            && r.score->0.model@ == model@
    } by {
        let q = r.request;
        let g = final(m)@.history;
        let all = context_messages(final(m)@, CHAT_SYSTEM@);
        let views = message_views(q.messages@);
        assert(views == all);
        assert(views.len() == q.messages@.len());
        assert(g.len() == final(m).history@.len());
        assert(final(m)@.critical == m@.critical);
        assert(m@.critical.len() == m.critical@.len());
        assert(final(m)@.memory == m@.memory);
        assert(views[0] == q.messages@[0]@);
        let head = q.messages@.len() - g.len();
        if 0 <= i < g.len() {
            assert(all[head + i] == said(g[i].role, g[i].content));
            assert(views[head + i] == q.messages@[head + i]@);
            assert(g[i] == final(m).history@[i]@);
        }
        if m.settings.history_turns > 0 {
            let k = g.len() - 1;
            assert(g.len() > 0);
            assert(all[head + k] == said(g[k].role, g[k].content));
            assert(views[head + k] == q.messages@[head + k]@);
        }
        if r.score is Some {
            let v = message_views(r.score->0.messages@);
            assert(v == r.score->0@.messages);
            assert(v.len() == 2);
            assert(v[1] == r.score->0.messages@[1]@);
        }
    }
}

/// An answer to a question from memory is handed on as it is, and is what the memory
/// noted last; an audit begins exactly if one is due then. A failure is handed on as it
/// is, and changes nothing.
pub proof fn an_answer_is_kept_in_memory(
    c: ChatService,
    resp: ChatResponse,
    e: String,
    ts: &str,
    model: &str,
    r: (Result<String, String>, Option<AuditStart>),
    q: (Result<String, String>, Option<AuditStart>),
)
    ensures
        forall|m: &mut MemoryService|
            #[trigger] call_ensures(
                ChatService::answered_from_memory,
                (&c, m, Ok(resp), ts, model),
                r,
            ) && m.settings.history_turns > 0 ==> {
                &&& r.0 is Ok && r.0->Ok_0@ == resp.content@
                &&& final(m).history@.len() > 0
                &&& final(m).history@.last().role@ == "assistant"@
                &&& final(m).history@.last().content@ == resp.content@
                &&& final(m).history@.last().seq == m.seq
                &&& m.settings.compressor is None ==> r.1 is None
                &&& m.settings.compressor is Some && m.since_audit + 1 >= m.settings.trigger_turns
                    ==> r.1 is Some && final(m).since_audit == 0
            },
        forall|m: &mut MemoryService|
            #[trigger] call_ensures(
                ChatService::answered_from_memory,
                (&c, m, Err(e), ts, model),
                q,
            ) ==> {
                &&& q.0 is Err && q.0->Err_0@ == e@
                &&& q.1 is None
                &&& final(m)@ == m@
            },
{
    assert forall|m: &mut MemoryService|
        #[trigger] call_ensures(
            ChatService::answered_from_memory,
            (&c, m, Ok(resp), ts, model),
            r,
        ) && m.settings.history_turns > 0 implies {
        &&& r.0 is Ok && r.0->Ok_0@ == resp.content@
        &&& final(m).history@.len() > 0
        &&& final(m).history@.last().role@ == "assistant"@
        &&& final(m).history@.last().content@ == resp.content@
        &&& final(m).history@.last().seq == m.seq
        &&& m.settings.compressor is None ==> r.1 is None
        &&& m.settings.compressor is Some && m.since_audit + 1 >= m.settings.trigger_turns
            ==> r.1 is Some && final(m).since_audit == 0
    } by {
        let g = answer_remembered(m@, resp.content@, ts@).history;
        assert(final(m)@.history == g);
        assert(final(m).history@.len() == g.len());
        assert(g.len() > 0);
        assert(g[g.len() - 1] == final(m).history@[g.len() - 1]@);
    }
}

/// A call that is begun is running until it ends or is cancelled; what is said of it
/// names the model. What was said before stays.
pub proof fn calls_run_until_they_end(token: u64, model: &str, r: String, b: bool)
    ensures
        forall|c: &mut ChatService|
            #[trigger] call_ensures(ChatService::submit, (c, token, model), r) ==> {
                &&& final(c).current == Some(token)
                &&& final(c)@.history == c@.history
                &&& final(c).cancelled@ == c.cancelled@
                &&& exists|i: int| occurs_at(r@, model@, i)
                &&& call_ensures(ChatService::is_busy, (&*final(c),), b) ==> b
            },
        forall|c: &mut ChatService|
            #[trigger] call_ensures(ChatService::cancel_current, (c,), b) ==> {
                &&& b <==> c.current is Some
                &&& final(c).current is None
                &&& c.current is Some ==> final(c).cancelled@.contains(c.current->0)
                &&& c.cancelled@.is_prefix_of(final(c).cancelled@)
                &&& final(c)@.history == c@.history
            },
{
    assert forall|c: &mut ChatService| #[trigger]
        call_ensures(ChatService::submit, (c, token, model), r) implies {
        &&& final(c).current == Some(token)
        &&& final(c)@.history == c@.history
        &&& final(c).cancelled@ == c.cancelled@
        &&& exists|i: int| occurs_at(r@, model@, i)
        &&& call_ensures(ChatService::is_busy, (&*final(c),), b) ==> b
    } by {
        let n = "[chat] 已提交,调用 "@.len() as int;
        assert(r@.subrange(n, n + model@.len()) =~= model@);
        assert(occurs_at(r@, model@, n));
    }
    assert forall|c: &mut ChatService| #[trigger]
        call_ensures(ChatService::cancel_current, (c,), b) implies {
        &&& b <==> c.current is Some
        &&& final(c).current is None
        &&& c.current is Some ==> final(c).cancelled@.contains(c.current->0)
        &&& c.cancelled@.is_prefix_of(final(c).cancelled@)
        &&& final(c)@.history == c@.history
    } by {
        let a = c.cancelled@;
        let z = final(c).cancelled@;
        if c.current is Some {
            assert(z == a.push(c.current->0));
            assert(z[a.len() as int] == c.current->0);
        }
        assert(a =~= z.subrange(0, a.len() as int));
    }
}

/// A call that ends with an answer sends out the answer, with the question that it
/// answers, after a note with the time it took; one that failed sends out the reason;
/// one that was cancelled sends out a note alone, whatever its reply. It no longer runs.
pub proof fn what_a_call_gave_is_sent_out(
    token: u64,
    text: &str,
    reply: Option<Result<String, String>>,
    elapsed: &str,
    r: Vec<Outgoing>,
)
    ensures
        forall|c: &mut ChatService|
            #[trigger] call_ensures(ChatService::finish, (c, token, text, reply, elapsed), r) ==> {
                let gone = c.cancelled@.contains(token);
                &&& !gone && reply is Some && reply->0 is Ok ==> {
                    &&& r@.len() == 2
                    &&& r@[0] is Status && exists|i: int| occurs_at(r@[0]->Status_0@, elapsed@, i)
                    &&& r@[1] is Reply && r@[1]->Reply_0@ == reply->0->Ok_0@ && r@[1]->Reply_1@
                        == text@
                }
                &&& !gone && reply is Some && reply->0 is Err ==> {
                    &&& r@.len() == 1
                    &&& r@[0] is Status && reply->0->Err_0@.is_suffix_of(r@[0]->Status_0@)
                }
                &&& gone ==> r@.len() == 1 && r@[0] is Status && r@[0]->Status_0@ == "[chat] 已取消"@
                &&& final(c).current == if c.current == Some(token) {
                    None
                } else {
                    c.current
                }
                &&& final(c)@.history == c@.history
                &&& final(c).cancelled@ == c.cancelled@
            },
{
    assert forall|c: &mut ChatService| #[trigger]
        call_ensures(ChatService::finish, (c, token, text, reply, elapsed), r) implies {
        let gone = c.cancelled@.contains(token);
        &&& !gone && reply is Some && reply->0 is Ok ==> {
            &&& r@.len() == 2
            &&& r@[0] is Status && exists|i: int| occurs_at(r@[0]->Status_0@, elapsed@, i)
            &&& r@[1] is Reply && r@[1]->Reply_0@ == reply->0->Ok_0@ && r@[1]->Reply_1@ == text@
        }
        &&& !gone && reply is Some && reply->0 is Err ==> {
            &&& r@.len() == 1
            &&& r@[0] is Status && reply->0->Err_0@.is_suffix_of(r@[0]->Status_0@)
        }
        &&& gone ==> r@.len() == 1 && r@[0] is Status && r@[0]->Status_0@ == "[chat] 已取消"@
        &&& final(c).current == if c.current == Some(token) {
            None
        } else {
            c.current
        }
        &&& final(c)@.history == c@.history
        &&& final(c).cancelled@ == c.cancelled@
    } by {
        let gone = c.cancelled@.contains(token);
        let v = outgoing_views(r@);
        assert(v == outcome_spec(gone, text@, reply, elapsed@));
        assert(v.len() == r@.len());
        if gone {
            assert(v[0] == r@[0]@);
        } else if reply is Some && reply->0 is Ok {
            assert(v[0] == r@[0]@);
            assert(v[1] == r@[1]@);
            let m = r@[0]->Status_0@;
            let n = "[chat] 回复完成 ("@.len() as int;
            assert(m.subrange(n, n + elapsed@.len()) =~= elapsed@);
            assert(occurs_at(m, elapsed@, n));
        } else if reply is Some {
            assert(v[0] == r@[0]@);
            let m = r@[0]->Status_0@;
            let e = reply->0->Err_0@;
            assert(e =~= m.subrange(m.len() - e.len(), m.len() as int));
        }
    }
}

/// The chat command says the answer as it is, or why there is none.
pub proof fn the_command_says_the_answer(t: String, e: String, a: String, b: String)
    requires
        call_ensures(command_reply, (Ok(t),), a),
        call_ensures(command_reply, (Err(e),), b),
    ensures
        a@ == t@,
        e@.is_suffix_of(b@),
        "错误: "@.is_prefix_of(b@),
{
    let m = b@;
    assert(e@ =~= m.subrange(m.len() - e@.len(), m.len() as int));
    assert("错误: "@ =~= m.subrange(0, "错误: "@.len() as int));
}

}  // verus!
