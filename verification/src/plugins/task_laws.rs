//! What holds of tasks that are handed on: what they are told, what they may do, and
//! what comes back of them.

use crate::llm::client::{message_views, said, ChatRequest, ChatResponse};
use crate::plugins::subagent::{
    builtin_profiles, call_spec, check_system_spec, combine, first_cmd, first_cmd_spec,
    first_command, line_command, no_args, parse_args, plain_lines, profile_line, profile_lines,
    profile_views, profiles_spec, read_args, real_tasks, reply_text, routing_table, sanitize,
    sub_system, sub_system_spec, tokenize, tokens, without_id, ArgsView, ModelProfile, ProfileView,
    SubCall, SubRun, SubStep, SubagentArgs, SubagentPlan, SubagentService, CHECK_HEAD,
    REGISTRY_VERSION, SUB_SYSTEM_PLAIN, SUB_SYSTEM_TOOLS, USAGE_PARALLEL, USAGE_SUBAGENT,
};
use crate::text::laws::{
    first_words_come_first, joined_texts_stand, joining_is_concatenation,
    words_are_parted_by_white_space,
};
use crate::text::number::decimal_spec;
use crate::text::search::{contains_spec, occurs_at};
use crate::text::trim::{is_white, trim_spec};
use crate::text::{join_spec, texts};
use vstd::prelude::*;
use vstd::string::*;

verus! {

// ---- what a task is told ----

/// A call begins with the instruction, and with what is asked, where anything is.
pub proof fn a_call_begins_with_what_is_asked(system: &str, user: &str, use_tools: bool, r: SubCall)
    requires
        call_ensures(SubCall::start, (system, user, use_tools), r),
    ensures
        r.messages@.len() == if user@.len() > 0 {
            2int
        } else {
            1
        },
        r.messages@[0].role@ == "system"@,
        r.messages@[0].content@ == system@,
        user@.len() > 0 ==> r.messages@[1].role@ == "user"@ && r.messages@[1].content@ == user@,
        r.use_tools == use_tools,
        r.rounds == 0,
{
    let views = message_views(r.messages@);
    assert(views == call_spec(system@, user@, use_tools).messages);
    assert(views.len() == r.messages@.len());
    assert(views[0] == r.messages@[0]@);
    if user@.len() > 0 {
        assert(views[1] == r.messages@[1]@);
    }
}

/// A task is asked for first: the first call holds the instruction and last the task
/// itself, as the user's, and may use commands exactly if the task may.
pub proof fn a_task_is_asked_for(
    svc: SubagentService,
    run: SubRun,
    cancelled: bool,
    instruction: String,
    r: Option<SubCall>,
)
    requires
        call_ensures(sub_system, (run.use_tools,), instruction),
        call_ensures(SubagentService::next_call, (&svc, &run, cancelled), r),
        run.calls == 0,
        run.task@.len() > 0,
    ensures
        r is Some,
        r->0.messages@.len() == 2,
        r->0.messages@[0].role@ == "system"@,
        r->0.messages@[0].content@ == instruction@,
        r->0.messages@.last().role@ == "user"@,
        r->0.messages@.last().content@ == run.task@,
        r->0.use_tools == run.use_tools,
        r->0.rounds == 0,
        instruction@ == if run.use_tools {
            SUB_SYSTEM_TOOLS@
        } else {
            SUB_SYSTEM_PLAIN@
        },
{
    let views = message_views(r->0.messages@);
    assert(views == call_spec(sub_system_spec(run.use_tools), run.task@, run.use_tools).messages);
    assert(views.len() == r->0.messages@.len());
    assert(views[0] == r->0.messages@[0]@);
    assert(views[1] == r->0.messages@[1]@);
}

/// An answer is checked while rounds are left and nobody has cancelled: the call then
/// holds the task and the whole answer, and may use no command. Otherwise the task is
/// over.
pub proof fn an_answer_is_checked(
    svc: SubagentService,
    run: SubRun,
    cancelled: bool,
    r: Option<SubCall>,
)
    requires
        call_ensures(SubagentService::next_call, (&svc, &run, cancelled), r),
        run.calls > 0,
    ensures
        r is Some <==> run.calls < svc.max_rounds && !cancelled,
        r is Some ==> {
            let m = r->0.messages@[0];
            &&& r->0.messages@.len() == 1
            &&& m.role@ == "system"@
            &&& occurs_at(m.content@, run.task@, CHECK_HEAD@.len() as int)
            &&& run.answer@.is_suffix_of(m.content@)
            &&& m.content@.len() >= CHECK_HEAD@.len() + run.task@.len() + run.answer@.len()
            &&& !r->0.use_tools
        },
{
    if r is Some {
        let views = message_views(r->0.messages@);
        let check = check_system_spec(run.task@, run.answer@);
        assert(views == call_spec(check, Seq::empty(), false).messages);
        assert(views.len() == r->0.messages@.len());
        assert(views[0] == r->0.messages@[0]@);
        let n = CHECK_HEAD@.len() as int;
        assert(check.subrange(n, n + run.task@.len()) =~= run.task@);
        assert(run.answer@ =~= check.subrange(check.len() - run.answer@.len(), check.len() as int));
    }
}

/// Everything that was said in a call is sent, in order, to the model that is named.
pub proof fn a_call_is_sent_whole(c: SubCall, model: &str, r: ChatRequest, i: int)
    requires
        call_ensures(SubCall::request, (&c, model), r),
    ensures
        r.model@ == model@,
        !r.json,
        !r.enable_thinking,
        r.messages@.len() == c.messages@.len(),
        0 <= i < c.messages@.len() ==> r.messages@[i].role@ == c.messages@[i].role@
            && r.messages@[i].content@ == c.messages@[i].content@,
{
    let a = message_views(r.messages@);
    let b = message_views(c.messages@);
    assert(a == b);
    assert(a.len() == r.messages@.len());
    if 0 <= i < c.messages@.len() {
        assert(a[i] == r.messages@[i]@);
        assert(b[i] == c.messages@[i]@);
    }
}

// ---- commands ----

/// Whether all that was said before is still there, with one thing more at the end.
pub open spec fn said_more(before: SubCall, after: SubCall, role: Seq<char>, content: Seq<char>) -> bool {
    let n = before.messages@.len() as int;
    &&& after.messages@.len() == n + 1
    &&& forall|i: int| 0 <= i < n ==> (#[trigger] after.messages@[i])@ == before.messages@[i]@
    &&& after.messages@[n].role@ == role
    &&& after.messages@[n].content@ == content
    &&& after.use_tools == before.use_tools
}

proof fn pushed_is_said_more(before: SubCall, after: SubCall, role: Seq<char>, content: Seq<char>)
    requires
        after@.messages == before@.messages.push(said(role, content)),
        after.use_tools == before.use_tools,
    ensures
        said_more(before, after, role, content),
{
    let n = before.messages@.len() as int;
    assert(after@.messages.len() == after.messages@.len());
    assert(before@.messages.len() == n);
    assert forall|i: int| 0 <= i < n implies (#[trigger] after.messages@[i])@
        == before.messages@[i]@ by {
        assert(after@.messages[i] == after.messages@[i]@);
        assert(before@.messages[i] == before.messages@[i]@);
    }
    assert(after@.messages[n] == after.messages@[n]@);
}

/// A task without commands is answered by the whole reply. One with commands runs the
/// first command in a reply, of which the reply is kept; without one, or after three,
/// the reply ends it, without the lines that hold commands.
pub proof fn replies_end_or_run(reply: &str, cmd: Option<String>, plain: String, r: SubStep)
    requires
        call_ensures(first_cmd, (reply,), cmd),
        call_ensures(sanitize, (reply,), plain),
    ensures
        forall|c: &mut SubCall|
            #[trigger] call_ensures(SubCall::replied, (c, reply), r) ==> {
                &&& !c.use_tools ==> r is Done && r->Done_0@ == reply@
                &&& c.use_tools && (c.rounds >= 3 || cmd is None) ==> r is Done && r->Done_0@
                    == plain@
                &&& c.use_tools && c.rounds < 3 && cmd is Some ==> {
                    &&& r is Tool && r->Tool_0@ == cmd->0@
                    &&& said_more(*c, *final(c), "assistant"@, reply@)
                    &&& final(c).rounds == c.rounds
                }
                &&& r is Done ==> final(c)@ == c@
            },
{
    assert forall|c: &mut SubCall| #[trigger]
        call_ensures(SubCall::replied, (c, reply), r) implies {
        &&& !c.use_tools ==> r is Done && r->Done_0@ == reply@
        &&& c.use_tools && (c.rounds >= 3 || cmd is None) ==> r is Done && r->Done_0@ == plain@
        &&& c.use_tools && c.rounds < 3 && cmd is Some ==> {
            &&& r is Tool && r->Tool_0@ == cmd->0@
            &&& said_more(*c, *final(c), "assistant"@, reply@)
            &&& final(c).rounds == c.rounds
        }
        &&& r is Done ==> final(c)@ == c@
    } by {
        if r is Tool {
            pushed_is_said_more(*c, *final(c), "assistant"@, reply@);
        }
    }
}

/// What a command gave is told to the task, with the command, and counts as one of its
/// commands.
pub proof fn results_are_told(cmd: &str, out: Option<String>)
    ensures
        forall|c: &mut SubCall|
            #[trigger] call_ensures(SubCall::ran, (c, cmd, out), ()) && c.rounds < 3 ==> {
                let told = "[工具结果 /"@ + cmd@ + "]\n"@ + (if out is Some {
                    out->0@
                } else {
                    "(命令未注册)"@
                });
                &&& said_more(*c, *final(c), "user"@, told)
                &&& final(c).rounds == c.rounds + 1
            },
{
    assert forall|c: &mut SubCall|
        #[trigger] call_ensures(SubCall::ran, (c, cmd, out), ()) && c.rounds < 3 implies {
        let told = "[工具结果 /"@ + cmd@ + "]\n"@ + (if out is Some {
            out->0@
        } else {
            "(命令未注册)"@
        });
        &&& said_more(*c, *final(c), "user"@, told)
        &&& final(c).rounds == c.rounds + 1
    } by {
        let told = "[工具结果 /"@ + cmd@ + "]\n"@ + (if out is Some {
            out->0@
        } else {
            "(命令未注册)"@
        });
        pushed_is_said_more(*c, *final(c), "user"@, told);
    }
}

/// A line is a command exactly if, without the white space around it, it begins with a
/// slash and the name of one of the four commands that a task may use; the command is
/// what follows the slash.
pub proof fn a_command_begins_with_a_slash(line: Seq<char>, name: Seq<char>, c: char, rest: Seq<char>)
    requires
        name.len() > 0,
        forall|k: int| 0 <= k < name.len() ==> !is_white(#[trigger] name[k]),
        is_white(c),
    ensures
        trim_spec(line) == seq!['/'] + name + seq![c] + rest || trim_spec(line) == seq!['/'] + name
            ==> {
            let may = name == "fs"@ || name == "run"@ || name == "pwd"@ || name == "mode"@;
            &&& may ==> line_command(line) == Some(trim_spec(trim_spec(line).skip(1)))
            &&& !may ==> line_command(line) is None
        },
        trim_spec(line).len() == 0 || trim_spec(line)[0] != '/' ==> line_command(line) is None,
{
    reveal_strlit("/");
    let t = trim_spec(line);
    let slash = "/"@;
    assert(slash =~= seq!['/']);
    if t.len() > 0 && t[0] == '/' {
        assert(slash =~= t.subrange(0, 1));
        assert(slash.is_prefix_of(t));
        let tail = t.skip(1);
        words_are_parted_by_white_space(name, c, rest);
        first_words_come_first(tail);
        if t == seq!['/'] + name + seq![c] + rest {
            assert(tail =~= name + seq![c] + rest);
        } else if t == seq!['/'] + name {
            assert(tail =~= name);
        }
    } else if slash.is_prefix_of(t) {
        assert(slash[0] == t[0]);
    }
}

/// The command of what a model says is that of the first line that has one.
pub proof fn the_first_command_counts(a: Seq<Seq<char>>, x: Seq<char>, b: Seq<Seq<char>>)
    requires
        forall|i: int| 0 <= i < a.len() ==> line_command(#[trigger] a[i]) is None,
    ensures
        first_command(a) is None,
        line_command(x) is Some ==> first_command(a + seq![x] + b) == line_command(x),
    decreases a.len(),
{
    let all = a + seq![x] + b;
    if a.len() > 0 {
        let d = a.drop_first();
        assert(line_command(a[0]) is None);
        assert forall|i: int| 0 <= i < d.len() implies line_command(#[trigger] d[i]) is None by {
            assert(d[i] == a[i + 1]);
        }
        the_first_command_counts(d, x, b);
        assert(all[0] == a[0]);
        assert(all.drop_first() =~= d + seq![x] + b);
    } else {
        assert(all[0] == x);
    }
}

/// The lines that stay are all lines without a command, in order.
pub proof fn all_plain_lines_stay(lines: Seq<Seq<char>>)
    ensures
        plain_lines(lines) == lines.filter(|l: Seq<char>| first_cmd_spec(trim_spec(l)) is None),
    decreases lines.len(),
{
    reveal(Seq::filter);
    let f = |l: Seq<char>| first_cmd_spec(trim_spec(l)) is None;
    if lines.len() > 0 {
        all_plain_lines_stay(lines.drop_last());
        assert(f(lines.last()) == (first_cmd_spec(trim_spec(lines.last())) is None));
        assert(plain_lines(lines) =~= lines.filter(f));
    } else {
        assert(lines.filter(f) =~= Seq::empty());
    }
}

// ---- arguments ----

/// A word that is in no quotes ends at white space; what stands in quotes is one word,
/// white space and all; white space in front of a word does not count.
pub proof fn quotes_hold_words_together(w: Seq<char>, c: char, rest: Seq<char>)
    requires
        is_white(c),
        c != '"',
        w.len() > 0,
        !w.contains('"'),
    ensures
        tokens(Seq::empty(), Seq::empty(), false).len() == 0,
        tokens(seq![c] + rest, Seq::empty(), false) == tokens(rest, Seq::empty(), false),
        tokens(seq!['"'] + w + seq!['"'] + rest, Seq::empty(), false) == seq![w] + tokens(
            rest,
            Seq::empty(),
            false,
        ),
        (forall|k: int| 0 <= k < w.len() ==> !is_white(#[trigger] w[k])) ==> {
            &&& tokens(w + seq![c] + rest, Seq::empty(), false) == seq![w] + tokens(
                rest,
                Seq::empty(),
                false,
            )
            &&& tokens(w, Seq::empty(), false) == seq![w]
        },
{
    let none = Seq::<char>::empty();
    let s = seq![c] + rest;
    assert(s.drop_first() =~= rest);
    assert(tokens(s, none, false) =~= tokens(rest, none, false));
    let q = seq!['"'] + w + seq!['"'] + rest;
    let inner = w + (seq!['"'] + rest);
    assert(q[0] == '"');
    assert(q.drop_first() =~= inner);
    word_is_read(w, none, true, seq!['"'] + rest);
    assert(none + w =~= w);
    assert((seq!['"'] + rest).drop_first() =~= rest);
    assert(tokens(q, none, false) =~= seq![w] + tokens(rest, none, false));
    if forall|k: int| 0 <= k < w.len() ==> !is_white(#[trigger] w[k]) {
        word_is_read(w, none, false, s);
        assert(w + seq![c] + rest =~= w + s);
        assert(tokens(w + s, none, false) =~= seq![w] + tokens(rest, none, false));
        word_is_read(w, none, false, none);
        assert(w + none =~= w);
        assert(tokens(w, none, false) =~= seq![w]);
    }
}

proof fn word_is_read(w: Seq<char>, cur: Seq<char>, quoted: bool, rest: Seq<char>)
    requires
        !w.contains('"'),
        quoted || (forall|k: int| 0 <= k < w.len() ==> !is_white(#[trigger] w[k])),
    ensures
        tokens(w + rest, cur, quoted) == tokens(rest, cur + w, quoted),
    decreases w.len(),
{
    if w.len() > 0 {
        let s = w + rest;
        let d = w.drop_first();
        assert(s[0] == w[0]);
        assert(w[0] != '"');
        assert(s.drop_first() =~= d + rest);
        if d.contains('"') {
            let k = choose|k: int| 0 <= k < d.len() && d[k] == '"';
            assert(w[k + 1] == '"');
        }
        if !quoted {
            assert(!is_white(w[0]));
            assert forall|k: int| 0 <= k < d.len() implies !is_white(#[trigger] d[k]) by {
                assert(d[k] == w[k + 1]);
            }
        }
        word_is_read(d, cur.push(w[0]), quoted, rest);
        assert(cur.push(w[0]) + d =~= cur + w);
    } else {
        assert(w + rest =~= rest);
        assert(cur + w =~= cur);
    }
}

/// Whether a word of a line of arguments is a word like any other.
pub open spec fn ordinary(w: Seq<char>) -> bool {
    w != "--parallel"@ && w != "--model"@ && w != "--tools"@ && w != "|"@
}

proof fn ordinary_words_are_read(a: Seq<Seq<char>>, b: Seq<Seq<char>>, s: ArgsView)
    requires
        forall|i: int| 0 <= i < a.len() ==> ordinary(#[trigger] a[i]),
    ensures
        read_args(a + b, s) == read_args(
            b,
            if s.saw_parallel {
                ArgsView { parallel: s.parallel + a, ..s }
            } else {
                ArgsView { task: s.task + a, ..s }
            },
        ),
    decreases a.len(),
{
    if a.len() > 0 {
        let d = a.drop_first();
        let all = a + b;
        assert(all[0] == a[0]);
        assert(ordinary(a[0]));
        assert(all.drop_first() =~= d + b);
        assert forall|i: int| 0 <= i < d.len() implies ordinary(#[trigger] d[i]) by {
            assert(d[i] == a[i + 1]);
        }
        if s.saw_parallel {
            ordinary_words_are_read(d, b, ArgsView { parallel: s.parallel.push(a[0]), ..s });
            assert(s.parallel.push(a[0]) + d =~= s.parallel + a);
        } else {
            ordinary_words_are_read(d, b, ArgsView { task: s.task.push(a[0]), ..s });
            assert(s.task.push(a[0]) + d =~= s.task + a);
        }
    } else {
        assert(a + b =~= b);
        assert(s.parallel + a =~= s.parallel);
        assert(s.task + a =~= s.task);
    }
}

proof fn words_differ()
    ensures
        "--parallel"@ != "--model"@,
        "--parallel"@ != "--tools"@,
        "--model"@ != "--tools"@,
{
    reveal_strlit("--parallel");
    reveal_strlit("--model");
    reveal_strlit("--tools");
    assert("--model"@[2] == 'm');
    assert("--tools"@[2] == 't');
    assert("--parallel"@[2] == 'p');
}

/// The task is what stands on the line besides the switches, all of it, in order. A
/// model that is named, and the use of commands where it is asked for, are taken down
/// wherever they stand.
pub proof fn a_line_is_read_whole(
    args: &str,
    t: Vec<String>,
    r: SubagentArgs,
    a: Seq<Seq<char>>,
    b: Seq<Seq<char>>,
    m: Seq<char>,
)
    requires
        call_ensures(tokenize, (args,), t),
        call_ensures(parse_args, (args,), r),
        forall|i: int| 0 <= i < a.len() ==> ordinary(#[trigger] a[i]),
        forall|i: int| 0 <= i < b.len() ==> ordinary(#[trigger] b[i]),
    ensures
        texts(t@) == a ==> r.task@ == join_spec(a, " "@) && r.model is None && !r.tools
            && r.parallel@.len() == 0,
        texts(t@) == a + seq!["--model"@, m] + b ==> r.task@ == join_spec(a + b, " "@)
            && r.model is Some && r.model->0@ == m && !r.tools && r.parallel@.len() == 0,
        texts(t@) == a + seq!["--tools"@] + b ==> r.task@ == join_spec(a + b, " "@)
            && r.model is None && r.tools && r.parallel@.len() == 0,
{
    let none = Seq::<Seq<char>>::empty();
    let s = no_args();
    words_differ();
    assert(texts(r.parallel@).len() == r.parallel@.len());
    let all = texts(t@);
    assert(none + a =~= a);
    if all == a {
        ordinary_words_are_read(a, none, s);
        assert(a + none =~= a);
    }
    let s1 = ArgsView { task: a, ..s };
    assert(b + none =~= b);
    if all == a + seq!["--model"@, m] + b {
        let tail = seq!["--model"@, m] + b;
        assert(all =~= a + tail);
        ordinary_words_are_read(a, tail, s);
        assert(tail.drop_first()[0] == m);
        assert(tail.drop_first().drop_first() =~= b);
        ordinary_words_are_read(b, none, ArgsView { model: Some(m), ..s1 });
    }
    if all == a + seq!["--tools"@] + b {
        let tail = seq!["--tools"@] + b;
        assert(all =~= a + tail);
        ordinary_words_are_read(a, tail, s);
        assert(tail.drop_first() =~= b);
        ordinary_words_are_read(b, none, ArgsView { tools: true, ..s1 });
    }
}

proof fn bars_are_passed_over(b: Seq<Seq<char>>, s: ArgsView, f: spec_fn(Seq<char>) -> bool)
    requires
        s.saw_parallel,
        forall|i: int| 0 <= i < b.len() ==> ordinary(#[trigger] b[i]) || b[i] == "|"@,
        forall|w: Seq<char>| #[trigger] f(w) == (w != "|"@),
    ensures
        read_args(b, s) == (ArgsView { parallel: s.parallel + b.filter(f), ..s }),
    decreases b.len(),
{
    reveal_strlit("|");
    reveal_strlit("--parallel");
    reveal_strlit("--model");
    reveal_strlit("--tools");
    assert("|"@.len() == 1);
    if b.len() > 0 {
        let d = b.drop_first();
        let x = b[0];
        assert(ordinary(b[0]) || b[0] == "|"@);
        assert forall|i: int| 0 <= i < d.len() implies ordinary(#[trigger] d[i]) || d[i] == "|"@ by {
            assert(d[i] == b[i + 1]);
        }
        assert(b =~= seq![x] + d);
        filter_first(x, d, f);
        if x == "|"@ {
            bars_are_passed_over(d, s, f);
        } else {
            bars_are_passed_over(d, ArgsView { parallel: s.parallel.push(x), ..s }, f);
            assert(s.parallel.push(x) + d.filter(f) =~= s.parallel + b.filter(f));
        }
    } else {
        reveal(Seq::filter);
        assert(s.parallel + b.filter(f) =~= s.parallel);
    }
}

proof fn filter_first(x: Seq<char>, d: Seq<Seq<char>>, f: spec_fn(Seq<char>) -> bool)
    ensures
        (seq![x] + d).filter(f) == (if f(x) {
            seq![x] + d.filter(f)
        } else {
            d.filter(f)
        }),
    decreases d.len(),
{
    reveal(Seq::filter);
    let all = seq![x] + d;
    if d.len() > 0 {
        filter_first(x, d.drop_last(), f);
        assert(all.drop_last() =~= seq![x] + d.drop_last());
        assert(all.last() == d.last());
        assert(all.filter(f) =~= if f(x) {
            seq![x] + d.filter(f)
        } else {
            d.filter(f)
        });
    } else {
        assert(all =~= seq![x]);
        assert(all.drop_last() =~= Seq::empty());
        assert(all.drop_last().filter(f) =~= Seq::empty());
        assert(d.filter(f) =~= Seq::empty());
        assert(all.filter(f) =~= if f(x) {
            seq![x]
        } else {
            Seq::empty()
        });
    }
}

/// Behind the switch for tasks at once every word but the bars is a task, in order.
pub proof fn every_task_is_read(args: &str, t: Vec<String>, r: SubagentArgs, b: Seq<Seq<char>>)
    requires
        call_ensures(tokenize, (args,), t),
        call_ensures(parse_args, (args,), r),
        forall|i: int| 0 <= i < b.len() ==> ordinary(#[trigger] b[i]) || b[i] == "|"@,
        texts(t@) == seq!["--parallel"@] + b,
    ensures
        texts(r.parallel@) == b.filter(|w: Seq<char>| w != "|"@),
        r.task@.len() == 0,
        r.model is None,
        !r.tools,
{
    let f = |w: Seq<char>| w != "|"@;
    let all = texts(t@);
    assert(all.drop_first() =~= b);
    bars_are_passed_over(b, ArgsView { saw_parallel: true, ..no_args() }, f);
    assert(Seq::<Seq<char>>::empty() + b.filter(f) =~= b.filter(f));
}

proof fn real_tasks_are_filtered(v: Seq<Seq<char>>)
    ensures
        real_tasks(v) == v.filter(|t: Seq<char>| trim_spec(t).len() > 0),
    decreases v.len(),
{
    reveal(Seq::filter);
    let f = |t: Seq<char>| trim_spec(t).len() > 0;
    if v.len() > 0 {
        real_tasks_are_filtered(v.drop_last());
        assert(f(v.last()) == (trim_spec(v.last()).len() > 0));
        assert(real_tasks(v) =~= v.filter(f));
    } else {
        assert(v.filter(f) =~= Seq::empty());
    }
}

/// What a line asks for is run as it is: the one task, or every task that is not blank,
/// in order, as many as may run at once; by the model that is named, else the one that
/// is set, else the one in force; with commands exactly if that is asked for or set.
pub proof fn what_is_asked_for_is_run(
    svc: SubagentService,
    args: &str,
    current: &str,
    p: SubagentArgs,
    r: SubagentPlan,
)
    requires
        call_ensures(parse_args, (args,), p),
        call_ensures(SubagentService::handle_subagent, (&svc, args, current), r),
    ensures
        ({
            let model = if p.model is Some {
                p.model->0@
            } else if svc.default_model is Some {
                svc.default_model->0@
            } else {
                current@
            };
            let tools = p.tools || svc.tools_default;
            let tasks = texts(p.parallel@).filter(|t: Seq<char>| trim_spec(t).len() > 0);
            let n = if tasks.len() > svc.parallel_limit {
                svc.parallel_limit as int
            } else {
                tasks.len() as int
            };
            &&& p.parallel@.len() == 0 && p.task@.len() > 0 ==> r is Single && r->Single_0@ == p.task@
                && r->Single_1@ == model && r->Single_2 == tools
            &&& p.parallel@.len() == 0 && p.task@.len() == 0 ==> r is Usage && r->Usage_0@
                == USAGE_SUBAGENT@
            &&& p.parallel@.len() > 0 && n > 0 ==> r is Parallel && texts(r->Parallel_0@)
                == tasks.take(n) && r->Parallel_1@ == model && r->Parallel_2 == tools
            &&& p.parallel@.len() > 0 && n == 0 ==> r is Usage && r->Usage_0@ == USAGE_PARALLEL@
        }),
{
    let all = texts(p.parallel@);
    assert(all.len() == p.parallel@.len());
    real_tasks_are_filtered(all);
    let tasks = all.filter(|t: Seq<char>| trim_spec(t).len() > 0);
    assert(tasks.take(tasks.len() as int) =~= tasks);
}

// ---- a task from its beginning to its end ----

/// A task is begun as it was given, under a number of its own that is running from then
/// on, and its status line tells both.
pub proof fn a_task_is_begun(task: &str, use_tools: bool, r: (SubRun, String))
    ensures
        forall|s: &mut SubagentService|
            #[trigger] call_ensures(SubagentService::begin, (s, task, use_tools), r) ==> {
                &&& r.0.task@ == task@
                &&& r.0.use_tools == use_tools
                &&& r.0.calls == 0
                &&& r.0.answer@.len() == 0
                &&& r.0.id == s.next_id
                &&& s.next_id < u64::MAX ==> final(s).next_id == s.next_id + 1
                &&& final(s).active@.len() == s.active@.len() + 1
                &&& final(s).active@.last() == r.0.id
                &&& s.active@.is_prefix_of(final(s).active@)
                &&& task@.is_suffix_of(r.1@)
                &&& ("[subagent#"@ + decimal_spec(r.0.id as nat) + "]"@).is_prefix_of(r.1@)
            },
{
    assert forall|s: &mut SubagentService| #[trigger]
        call_ensures(SubagentService::begin, (s, task, use_tools), r) implies {
        &&& r.0.task@ == task@
        &&& r.0.use_tools == use_tools
        &&& r.0.calls == 0
        &&& r.0.answer@.len() == 0
        &&& r.0.id == s.next_id
        &&& s.next_id < u64::MAX ==> final(s).next_id == s.next_id + 1
        &&& final(s).active@.len() == s.active@.len() + 1
        &&& final(s).active@.last() == r.0.id
        &&& s.active@.is_prefix_of(final(s).active@)
        &&& task@.is_suffix_of(r.1@)
        &&& ("[subagent#"@ + decimal_spec(r.0.id as nat) + "]"@).is_prefix_of(r.1@)
    } by {
        reveal_strlit("]");
        reveal_strlit("] 开始: ");
        let m = r.1@;
        assert(s.active@ =~= final(s).active@.subrange(0, s.active@.len() as int));
        assert(task@ =~= m.subrange(m.len() - task@.len(), m.len() as int));
        let head = "[subagent#"@ + decimal_spec(r.0.id as nat) + "]"@;
        assert(head =~= m.subrange(0, head.len() as int));
    }
}

/// The answer to a call is the task's answer from then on, and the task stays the same.
pub proof fn an_answer_is_taken(svc: SubagentService, run: SubRun, answer: String, r: SubRun)
    requires
        call_ensures(SubagentService::called, (&svc, run, answer), r),
    ensures
        r.answer@ == answer@,
        r.calls == run.calls + 1,
        r.id == run.id,
        r.task@ == run.task@,
        r.use_tools == run.use_tools,
{
}

proof fn the_others_stay(ids: Seq<u64>, id: u64)
    ensures
        without_id(ids, id) == ids.filter(|x: u64| x != id),
    decreases ids.len(),
{
    reveal(Seq::filter);
    let f = |x: u64| x != id;
    if ids.len() > 0 {
        the_others_stay(ids.drop_last(), id);
        assert(f(ids.last()) == (ids.last() != id));
        assert(without_id(ids, id) =~= ids.filter(f));
    } else {
        assert(ids.filter(f) =~= Seq::empty());
    }
}

/// A task that ends gives its last answer, unless it was cancelled; it runs no more, and
/// all other tasks run on. Its status line tells its number and how long it took.
pub proof fn a_task_ends_with_its_answer(run: SubRun, elapsed: &str, r: (String, String), q: (String, String))
    ensures
        forall|s: &mut SubagentService|
            #[trigger] call_ensures(SubagentService::finish, (s, run, false, elapsed), r) ==> {
                &&& r.0@ == run.answer@
                &&& ("[subagent#"@ + decimal_spec(run.id as nat) + "]"@).is_prefix_of(r.1@)
                &&& exists|i: int| occurs_at(r.1@, elapsed@, i)
                &&& final(s).active@ == s.active@.filter(|x: u64| x != run.id)
                &&& final(s).next_id == s.next_id
            },
        forall|s: &mut SubagentService|
            #[trigger] call_ensures(SubagentService::finish, (s, run, true, elapsed), q) ==> {
                &&& q.0@ == "(已取消)"@
                &&& ("[subagent#"@ + decimal_spec(run.id as nat) + "]"@).is_prefix_of(q.1@)
                &&& final(s).active@ == s.active@.filter(|x: u64| x != run.id)
                &&& final(s).next_id == s.next_id
            },
{
    reveal_strlit("]");
    reveal_strlit("] 完成 (");
    reveal_strlit("] 已取消");
    let head = "[subagent#"@ + decimal_spec(run.id as nat) + "]"@;
    assert forall|s: &mut SubagentService| #[trigger]
        call_ensures(SubagentService::finish, (s, run, false, elapsed), r) implies {
        &&& r.0@ == run.answer@
        &&& ("[subagent#"@ + decimal_spec(run.id as nat) + "]"@).is_prefix_of(r.1@)
        &&& exists|i: int| occurs_at(r.1@, elapsed@, i)
        &&& final(s).active@ == s.active@.filter(|x: u64| x != run.id)
        &&& final(s).next_id == s.next_id
    } by {
        the_others_stay(s.active@, run.id);
        assert(head =~= r.1@.subrange(0, head.len() as int));
        let n = ("[subagent#"@ + decimal_spec(run.id as nat) + "] 完成 ("@).len() as int;
        assert(r.1@.subrange(n, n + elapsed@.len()) =~= elapsed@);
        assert(occurs_at(r.1@, elapsed@, n));
    }
    assert forall|s: &mut SubagentService| #[trigger]
        call_ensures(SubagentService::finish, (s, run, true, elapsed), q) implies {
        &&& q.0@ == "(已取消)"@
        &&& ("[subagent#"@ + decimal_spec(run.id as nat) + "]"@).is_prefix_of(q.1@)
        &&& final(s).active@ == s.active@.filter(|x: u64| x != run.id)
        &&& final(s).next_id == s.next_id
    } by {
        the_others_stay(s.active@, run.id);
        assert(head =~= q.1@.subrange(0, head.len() as int));
    }
}

/// What a model replied is what a task is told; a failure is told with its cause.
pub proof fn replies_are_told(resp: ChatResponse, e: String, a: String, b: String, c: String)
    requires
        call_ensures(reply_text, (Some(Ok(resp)),), a),
        call_ensures(reply_text, (Some(Err(e)),), b),
        call_ensures(reply_text, (None,), c),
    ensures
        a@ == resp.content@,
        exists|i: int| occurs_at(b@, e@, i),
        c@.len() == 0,
{
    let n = "(子任务调用失败: "@.len() as int;
    assert(b@.subrange(n, n + e@.len()) =~= e@);
    assert(occurs_at(b@, e@, n));
}

/// Results of tasks that ran at once are handed back together, each whole and under its
/// number.
pub proof fn every_result_is_handed_back(results: Vec<String>, r: String, i: int)
    requires
        call_ensures(combine, (&results,), r),
    ensures
        0 <= i < results@.len() ==> contains_spec(
            r@,
            "[子任务"@ + decimal_spec((i + 1) as nat) + "]\n"@ + results@[i]@,
        ),
        results@.len() == 1 ==> r@ == "[子任务"@ + decimal_spec(1) + "]\n"@ + results@[0]@,
        results@.len() == 0 ==> r@.len() == 0,
{
    let all = texts(results@);
    let parts = Seq::new(
        all.len(),
        |i: int| "[子任务"@ + decimal_spec((i + 1) as nat) + "]\n"@ + all[i],
    );
    assert(r@ == join_spec(parts, "\n\n"@));
    if 0 <= i < results@.len() {
        assert(all[i] == results@[i]@);
        let at = joined_texts_stand(parts, "\n\n"@, i);
        assert(parts[i] == "[子任务"@ + decimal_spec((i + 1) as nat) + "]\n"@ + results@[i]@);
    }
    if results@.len() == 1 {
        assert(all[0] == results@[0]@);
        assert(parts =~= seq![parts[0]]);
        joining_is_concatenation(parts, parts, parts[0], "\n\n"@);
    }
}

proof fn single_results_follow_their_head(x: String, a: Vec<String>, r: String)
    requires
        a@ == seq![x],
        call_ensures(combine, (&a,), r),
    ensures
        r@ == "[子任务"@ + decimal_spec(1) + "]\n"@ + x@,
{
    every_result_is_handed_back(a, r, 0);
}

/// The results of single tasks are told apart: two that differ do not read the same.
pub proof fn results_are_told_apart(x: String, y: String, a: Vec<String>, b: Vec<String>, r: String, s: String)
    requires
        a@ == seq![x],
        b@ == seq![y],
        call_ensures(combine, (&a,), r),
        call_ensures(combine, (&b,), s),
    ensures
        x@ != y@ ==> r@ != s@,
{
    single_results_follow_their_head(x, a, r);
    single_results_follow_their_head(y, b, s);
    let n = ("[子任务"@ + decimal_spec(1) + "]\n"@).len() as int;
    assert(r@.skip(n) =~= x@);
    assert(s@.skip(n) =~= y@);
}

// ---- the models ----

proof fn line_in_table(v: Seq<ProfileView>, i: int) -> (at: int)
    requires
        0 <= i < v.len(),
    ensures
        occurs_at(profile_lines(v), profile_line(v[i]), at),
    decreases v.len(),
{
    let all = profile_lines(v);
    let x = profile_line(v[i]);
    let d = v.drop_last();
    if i == v.len() - 1 {
        let at = profile_lines(d).len() as int;
        assert(all.subrange(at, at + x.len()) =~= x);
        at
    } else {
        let at = line_in_table(d, i);
        assert(all.subrange(at, at + x.len()) =~= profile_lines(d).subrange(at, at + x.len()));
        at
    }
}

/// The table of models has a line for every model, with all that is known of it, and
/// says of which day it is.
pub proof fn every_model_is_in_the_table(ps: Vec<ModelProfile>, r: String, i: int)
    requires
        call_ensures(builtin_profiles, (), ps),
        call_ensures(routing_table, (), r),
    ensures
        ps@.len() == 6,
        0 <= i < ps@.len() ==> exists|at: int|
            occurs_at(
                r@,
                "- "@ + ps@[i].id@ + ": 能力["@ + ps@[i].capability@ + "] 擅长["@ + ps@[i].strengths@
                    + "] 不擅长["@ + ps@[i].weaknesses@ + "] 速度["@ + ps@[i].speed@ + "] 上下文["@
                    + ps@[i].context@ + "] 建议["@ + ps@[i].usage@ + "]\n"@,
                at,
            ),
        exists|at: int| occurs_at(r@, REGISTRY_VERSION@, at),
{
    let v = profile_views(ps@);
    assert(v == profiles_spec());
    assert(v.len() == ps@.len());
    let head = "# 模型路由表(档案 "@ + REGISTRY_VERSION@ + ")\n"@;
    let n = "# 模型路由表(档案 "@.len() as int;
    assert(r@.subrange(n, n + REGISTRY_VERSION@.len()) =~= REGISTRY_VERSION@);
    assert(occurs_at(r@, REGISTRY_VERSION@, n));
    if 0 <= i < ps@.len() {
        assert(v[i] == ps@[i]@);
        let at = line_in_table(v, i);
        let x = profile_line(v[i]);
        let j = head.len() + at;
        assert(r@.subrange(j, j + x.len()) =~= profile_lines(v).subrange(at, at + x.len()));
        assert(occurs_at(r@, x, j));
    }
}

}  // verus!
