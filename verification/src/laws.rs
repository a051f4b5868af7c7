//! What holds of the surroundings of the shell: what it is started with, what it is told
//! of the machine, and how programs are run.

use crate::config::{
    default_timeout, plugin_line, resolve_key, run_mode, self_test_line, RunMode, ServerCfg,
};
use crate::cordis::context::{
    put_service_lookup, service_at, Context, ContextView, KindView, ProvidedView,
};
use crate::cordis::event::Event;
use crate::cordis::loader::{LoaderService, PluginStatus};
use crate::cordis::plugin::Plugin;
use crate::cordis::service::Service;
use crate::events::{SessionInput, SessionReply, SessionStatus};
use crate::fs::policy::FsPath;
use crate::fs::service::FsService;
use crate::llm::{LlmClient, LlmService};
use crate::plugins::chat::{ChatOptions, ChatPlugin, ChatService, CHAT_SYSTEM};
use crate::plugins::memory::{ChatSnapshot, MemoryOptions, MemoryPlugin, MemoryService};
use crate::plugins::microtask::{MicroOptions, MicroService, MicroTaskPlugin};
use crate::plugins::subagent::{
    SubagentOptions, SubagentPlugin, SubagentService,
};
use crate::plugins::tools::{ToolsOptions, ToolsPlugin};
use crate::plugins::tui::{TuiBackend, TuiPlugin};
use crate::plugins::{builtin, Builtin, BuiltinOptions};
use crate::subprocess::{
    finished, output_failure, poll, spawn_failure, variables, PollStep, RunOptions, RunOutput,
    RunPlan, SubprocessService,
};
use crate::system::{common_lines, optional_line, Environment, SystemInfo, SHELL_POLICY};
use crate::text::laws::{standing_is_passed_on, what_is_between_stands};
use crate::text::number::decimal_spec;
use crate::text::search::{contains_spec, occurs_at};
use crate::text::split::words;
use crate::text::texts;
use vstd::prelude::*;
use vstd::string::*;

verus! {

// ---- what the shell is started with ----

/// The key is that of the variable that is named, where it is set; else the configured
/// one; and where there is neither, the variable to set is named.
pub proof fn the_key_is_found(server: ServerCfg, variable: Option<String>, r: Result<String, String>)
    requires
        call_ensures(resolve_key, (&server, variable), r),
    ensures
        ({
            let set = server.api_key_env is Some && variable is Some && variable->0@.len() > 0;
            let written = server.api_key is Some && server.api_key->0@.len() > 0;
            &&& set ==> r is Ok && r->Ok_0@ == variable->0@
            &&& !set && written ==> r is Ok && r->Ok_0@ == server.api_key->0@
            &&& !set && !written ==> r is Err
            &&& r is Err && server.api_key_env is Some ==> contains_spec(
                r->Err_0@,
                server.api_key_env->0@,
            )
        }),
{
    if r is Err && server.api_key_env is Some {
        what_is_between_stands(
            "未配置 API key:请设置环境变量 "@,
            server.api_key_env->0@,
            " 或在 localai.yml server.api_key 中配置"@,
        );
    }
}

/// What the arguments ask for is done: with the text that follows, where one does, and
/// the terminal is started where they ask for nothing else.
pub proof fn arguments_are_followed(args: Vec<String>, r: RunMode)
    requires
        call_ensures(run_mode, (&args,), r),
    ensures
        args@.len() < 2 ==> r is Terminal,
        args@.len() >= 2 ==> {
            let first = args@[1]@;
            &&& first == "--list-plugins"@ ==> r is ListPlugins
            &&& first == "--self-test"@ ==> r is SelfTest
            &&& first == "--once"@ && args@.len() > 2 ==> r is Once && r->Once_0@ == args@[2]@
            &&& first == "--micro"@ && args@.len() > 2 ==> r is Micro && r->Micro_0@ == args@[2]@
            &&& first == "--once"@ ==> r is Once
            &&& first == "--micro"@ ==> r is Micro
            &&& first != "--list-plugins"@ && first != "--self-test"@ && first != "--once"@ && first
                != "--micro"@ ==> r is Terminal
        },
{
    reveal_strlit("--list-plugins");
    reveal_strlit("--self-test");
    reveal_strlit("--once");
    reveal_strlit("--micro");
    assert("--list-plugins"@[2] == 'l');
    assert("--self-test"@[2] == 's');
    assert("--once"@[2] == 'o');
    assert("--micro"@[2] == 'm');
    let t = texts(args@);
    assert(t.len() == args@.len());
    if args@.len() >= 2 {
        assert(t[1] == args@[1]@);
    }
    if args@.len() > 2 {
        assert(t[2] == args@[2]@);
    }
}

/// A plugin is listed by its name, and by whether it is loaded: the lines of one that is
/// and one that is not differ.
pub proof fn plugins_are_shown(name: String, a: String, b: String, c: String, d: String)
    requires
        call_ensures(plugin_line, (&PluginStatus { name, loaded: true },), a),
        call_ensures(plugin_line, (&PluginStatus { name, loaded: false },), b),
        call_ensures(self_test_line, (&PluginStatus { name, loaded: true },), c),
        call_ensures(self_test_line, (&PluginStatus { name, loaded: false },), d),
    ensures
        name@.is_prefix_of(a@) && name@.is_prefix_of(b@),
        "已加载"@.is_suffix_of(a@) && "未加载"@.is_suffix_of(b@),
        contains_spec(c@, name@) && contains_spec(d@, name@),
        a@ != b@,
        c@ != d@,
{
    reveal_strlit("已加载");
    reveal_strlit("未加载");
    reveal_strlit("已加载 ✓");
    reveal_strlit(" ");
    let x = "已加载"@;
    let y = "未加载"@;
    assert(name@ =~= a@.subrange(0, name@.len() as int));
    assert(name@ =~= b@.subrange(0, name@.len() as int));
    assert(x =~= a@.subrange(a@.len() - x.len(), a@.len() as int));
    assert(y =~= b@.subrange(b@.len() - y.len(), b@.len() as int));
    assert(a@[a@.len() - 3] == '已');
    assert(b@[b@.len() - 3] == '未');
    let p = "插件 "@.len() as int;
    assert(c@.subrange(p, p + name@.len()) =~= name@);
    assert(occurs_at(c@, name@, p));
    assert(d@.subrange(p, p + name@.len()) =~= name@);
    assert(occurs_at(d@, name@, p));
    assert(c@.len() != d@.len());
}

// ---- the machine ----

/// What is known of the system is what the environment says: of two variables the first
/// that is set.
pub proof fn the_environment_is_read(env: Environment, r: SystemInfo)
    requires
        call_ensures(SystemInfo::collect, (env,), r),
    ensures
        r.os@ == env.os@ && r.os_family@ == env.os_family@ && r.arch@ == env.arch@,
        env.hostname is Some ==> r.host@ == env.hostname->0@,
        env.hostname is None && env.computer_name is Some ==> r.host@ == env.computer_name->0@,
        env.user is Some ==> r.user@ == env.user->0@,
        env.user is None && env.user_name is Some ==> r.user@ == env.user_name->0@,
        env.current_dir is Some ==> r.cwd@ == env.current_dir->0@,
        env.shell is Some ==> r.shell@ == env.shell->0@,
        env.shell is None && env.comspec is Some ==> r.shell@ == env.comspec->0@,
        env.cpus is Some ==> r.cpus == env.cpus->0,
        env.lang is Some ==> r.lang@ == env.lang->0@,
        env.lang is None && env.lc_all is Some ==> r.lang@ == env.lc_all->0@,
        env.lang is None && env.lc_all is None && env.language is Some ==> r.lang@
            == env.language->0@,
        env.term_program is Some ==> r.term@ == env.term_program->0@,
        env.term_program is None && env.term is Some ==> r.term@ == env.term->0@,
        r.windows == env.windows,
{
}

/// The model is told everything that is known of the system, each fact under its name.
pub proof fn every_fact_is_told(s: SystemInfo, r: String)
    requires
        call_ensures(SystemInfo::to_prompt, (&s,), r),
    ensures
        ("- 操作系统: "@ + s.os@ + " (family "@ + s.os_family@ + ", "@ + s.arch@ + ")"@).is_prefix_of(
            r@,
        ),
        contains_spec(r@, "\n- 主机名: "@ + s.host@ + "\n- 用户: "@),
        contains_spec(r@, "\n- 用户: "@ + s.user@ + "\n- 当前工作目录: "@),
        contains_spec(r@, "\n- 当前工作目录: "@ + s.cwd@ + "\n- 默认 shell: "@),
        contains_spec(r@, "\n- 默认 shell: "@ + s.shell@ + "\n- CPU 逻辑核数: "@),
        contains_spec(r@, "\n- CPU 逻辑核数: "@ + decimal_spec(s.cpus as nat) + "\n"@),
        s.lang@.len() > 0 ==> contains_spec(r@, "- 语言环境: "@ + s.lang@ + "\n"@),
        s.term@.len() > 0 ==> contains_spec(r@, "- 终端: "@ + s.term@ + "\n"@),
        s.windows ==> SHELL_POLICY@.is_suffix_of(r@),
{
    let m = r@;
    let l = optional_line("- 语言环境: "@, s.lang@);
    let t = optional_line("- 终端: "@, s.term@);
    let p = if s.windows {
        SHELL_POLICY@
    } else {
        Seq::empty()
    };
    let c = common_lines(s);
    assert(m == c + l + t + p);
    common_facts_stand(s);
    let none = Seq::<char>::empty();
    let rest = l + t + p;
    assert(m =~= none + c + rest);
    what_is_between_stands(none, c, rest);
    standing_is_passed_on(m, c, "\n- 主机名: "@ + s.host@ + "\n- 用户: "@);
    standing_is_passed_on(m, c, "\n- 用户: "@ + s.user@ + "\n- 当前工作目录: "@);
    standing_is_passed_on(m, c, "\n- 当前工作目录: "@ + s.cwd@ + "\n- 默认 shell: "@);
    standing_is_passed_on(m, c, "\n- 默认 shell: "@ + s.shell@ + "\n- CPU 逻辑核数: "@);
    standing_is_passed_on(m, c, "\n- CPU 逻辑核数: "@ + decimal_spec(s.cpus as nat) + "\n"@);
    let head = "- 操作系统: "@ + s.os@ + " (family "@ + s.os_family@ + ", "@ + s.arch@ + ")"@;
    assert(head =~= c.subrange(0, head.len() as int));
    assert(head =~= m.subrange(0, head.len() as int));
    if s.lang@.len() > 0 {
        what_is_between_stands(c, l, t + p);
        assert(m =~= c + l + (t + p));
    }
    if s.term@.len() > 0 {
        what_is_between_stands(c + l, t, p);
    }
    if s.windows {
        assert(p =~= m.subrange(m.len() - p.len(), m.len() as int));
    }
}

proof fn common_facts_stand(s: SystemInfo)
    ensures
        ({
            let c = common_lines(s);
            let head = "- 操作系统: "@ + s.os@ + " (family "@ + s.os_family@ + ", "@ + s.arch@ + ")"@;
            &&& head.is_prefix_of(c)
            &&& contains_spec(c, "\n- 主机名: "@ + s.host@ + "\n- 用户: "@)
            &&& contains_spec(c, "\n- 用户: "@ + s.user@ + "\n- 当前工作目录: "@)
            &&& contains_spec(c, "\n- 当前工作目录: "@ + s.cwd@ + "\n- 默认 shell: "@)
            &&& contains_spec(c, "\n- 默认 shell: "@ + s.shell@ + "\n- CPU 逻辑核数: "@)
            &&& contains_spec(c, "\n- CPU 逻辑核数: "@ + decimal_spec(s.cpus as nat) + "\n"@)
        }),
{
    reveal_strlit(")");
    reveal_strlit(")\n- 主机名: ");
    reveal_strlit("\n- 主机名: ");
    let c = common_lines(s);
    let n = decimal_spec(s.cpus as nat);
    let head = "- 操作系统: "@ + s.os@ + " (family "@ + s.os_family@ + ", "@ + s.arch@ + ")"@;
    assert(head =~= c.subrange(0, head.len() as int));
    let host = "\n- 主机名: "@ + s.host@ + "\n- 用户: "@;
    let user = "\n- 用户: "@ + s.user@ + "\n- 当前工作目录: "@;
    let cwd = "\n- 当前工作目录: "@ + s.cwd@ + "\n- 默认 shell: "@;
    let shell = "\n- 默认 shell: "@ + s.shell@ + "\n- CPU 逻辑核数: "@;
    let cpus = "\n- CPU 逻辑核数: "@ + n + "\n"@;
    let a = head.len() as int;
    assert(c.subrange(a, a + host.len()) =~= host);
    assert(occurs_at(c, host, a));
    let b = a + ("\n- 主机名: "@ + s.host@).len();
    assert(c.subrange(b, b + user.len()) =~= user);
    assert(occurs_at(c, user, b));
    let d = b + ("\n- 用户: "@ + s.user@).len();
    assert(c.subrange(d, d + cwd.len()) =~= cwd);
    assert(occurs_at(c, cwd, d));
    let e = d + ("\n- 当前工作目录: "@ + s.cwd@).len();
    assert(c.subrange(e, e + shell.len()) =~= shell);
    assert(occurs_at(c, shell, e));
    let f = e + ("\n- 默认 shell: "@ + s.shell@).len();
    assert(c.subrange(f, f + cpus.len()) =~= cpus);
    assert(occurs_at(c, cpus, f));
}

// ---- programs ----

/// A command line is run whole: its first word is the program and all other words are
/// its arguments, in order; under Windows the interpreter is given the line as it is. It
/// is run where, for how long and with the variables that the options say.
pub proof fn a_line_is_run_whole(
    svc: SubprocessService,
    line: &str,
    opts: RunOptions,
    all: Vec<String>,
    u: Result<RunPlan, String>,
    w: Result<RunPlan, String>,
    i: int,
)
    requires
        call_ensures(words, (line,), all),
        call_ensures(SubprocessService::run, (&svc, line, &opts, false), u),
        call_ensures(SubprocessService::run, (&svc, line, &opts, true), w),
    ensures
        opts.cwd is None && all@.len() > 0 ==> u is Ok,
        all@.len() == 0 ==> u is Err,
        u is Ok ==> {
            &&& u->Ok_0.program@ == all@[0]@
            &&& u->Ok_0.args@.len() == all@.len() - 1
            &&& 0 <= i < u->Ok_0.args@.len() ==> u->Ok_0.args@[i]@ == all@[i + 1]@
            &&& u->Ok_0.cwd@ == if opts.cwd is Some {
                opts.cwd->0@
            } else {
                svc.cwd@
            }
            &&& u->Ok_0.timeout == if opts.timeout == 0 {
                svc.default_timeout
            } else {
                opts.timeout
            }
            &&& u->Ok_0.env@.len() == opts.env@.len()
            &&& 0 <= i < opts.env@.len() ==> u->Ok_0.env@[i].0@ == opts.env@[i].0@
                && u->Ok_0.env@[i].1@ == opts.env@[i].1@
        },
        w is Ok ==> w->Ok_0.program@ == "cmd"@ && w->Ok_0.args@.len() == 2 && w->Ok_0.args@[0]@
            == "/C"@ && w->Ok_0.args@[1]@ == line@,
{
    let parts = texts(all@);
    assert(parts.len() == all@.len());
    assert(svc.cwd@.parts =~= svc.cwd@.parts.take(svc.cwd@.parts.len() as int));
    if u is Ok {
        let p = u->Ok_0;
        assert(parts[0] == all@[0]@);
        let t = texts(p.args@);
        assert(t == parts.skip(1));
        assert(t.len() == p.args@.len());
        if 0 <= i < p.args@.len() {
            assert(t[i] == p.args@[i]@);
            assert(parts[i + 1] == all@[i + 1]@);
        }
        let v = variables(p.env@);
        assert(v == variables(opts.env@));
        assert(v.len() == p.env@.len());
        assert(variables(opts.env@).len() == opts.env@.len());
        if 0 <= i < opts.env@.len() {
            assert(v[i] == (p.env@[i].0@, p.env@[i].1@));
            assert(variables(opts.env@)[i] == (opts.env@[i].0@, opts.env@[i].1@));
        }
    }
    if w is Ok {
        let t = texts(w->Ok_0.args@);
        assert(t == seq!["/C"@, line@]);
        assert(t.len() == w->Ok_0.args@.len());
        assert(t[0] == w->Ok_0.args@[0]@);
        assert(t[1] == w->Ok_0.args@[1]@);
    }
}

/// A command is not run outside the workspace, and the directory is named in the refusal.
pub proof fn programs_stay_inside(svc: SubprocessService, line: &str, opts: RunOptions, windows: bool, r: Result<RunPlan, String>, inside: bool)
    requires
        call_ensures(SubprocessService::run, (&svc, line, &opts, windows), r),
        opts.cwd is Some,
        call_ensures(FsPath::lies_below, (&opts.cwd->0, &svc.cwd), inside),
        !inside,
    ensures
        r is Err,
        opts.cwd->0.display@.is_suffix_of(r->Err_0@),
{
    let m = r->Err_0@;
    let d = opts.cwd->0.display@;
    assert(d =~= m.subrange(m.len() - d.len(), m.len() as int));
}

/// A running program is waited for as long as it may run, and is ended after that, with
/// its time and its line in the message; its code is taken as it is.
pub proof fn programs_are_waited_for(
    code: Option<i32>,
    e: String,
    elapsed: u128,
    timeout: u128,
    shown: &str,
    line: &str,
    a: PollStep,
    b: PollStep,
    c: PollStep,
)
    requires
        call_ensures(poll, (Ok(Some(code)), elapsed, timeout, shown, line), a),
        call_ensures(poll, (Ok(None), elapsed, timeout, shown, line), b),
        call_ensures(poll, (Err(e), elapsed, timeout, shown, line), c),
    ensures
        a is Exited && a->Exited_0 == code,
        elapsed <= timeout ==> b is Wait,
        elapsed > timeout ==> b is Kill && contains_spec(b->Kill_0@, shown@) && contains_spec(
            b->Kill_0@,
            line@,
        ),
        c is Failed && e@.is_suffix_of(c->Failed_0@),
{
    if elapsed > timeout {
        let m = b->Kill_0@;
        let tail = ")已 kill: `"@ + line@ + "`"@;
        assert(m =~= "命令超时("@ + shown@ + tail);
        what_is_between_stands("命令超时("@, shown@, tail);
        what_is_between_stands("命令超时("@ + shown@ + ")已 kill: `"@, line@, "`"@);
    }
    let m = c->Failed_0@;
    assert(e@ =~= m.subrange(m.len() - e@.len(), m.len() as int));
}

/// What a program gave is taken as it is: its code, what it wrote, what it wrote as
/// errors, and how long it ran.
pub proof fn what_a_program_gave_is_taken(
    code: Option<i32>,
    out: Vec<u8>,
    err: Vec<u8>,
    ms: u128,
    r: RunOutput,
)
    requires
        call_ensures(finished, (code, &out, &err, ms), r),
    ensures
        code is Some ==> r.status == code->0,
        code is None ==> r.status == -1,
        vstd::utf8::valid_utf8(out@) ==> r.stdout@ == vstd::utf8::decode_utf8(out@),
        vstd::utf8::valid_utf8(err@) ==> r.stderr@ == vstd::utf8::decode_utf8(err@),
        r.duration_ms == ms,
{
}

/// A program that did not start, and output that could not be read, are told with the
/// cause.
pub proof fn failed_programs_are_told(line: &str, e: &str, a: String, b: String)
    requires
        call_ensures(spawn_failure, (line, e), a),
        call_ensures(output_failure, (e,), b),
    ensures
        contains_spec(a@, line@),
        e@.is_suffix_of(a@),
        e@.is_suffix_of(b@),
{
    let tail = "`: "@ + e@;
    assert(a@ =~= "启动命令失败 `"@ + line@ + tail);
    what_is_between_stands("启动命令失败 `"@, line@, tail);
    assert(e@ =~= a@.subrange(a@.len() - e@.len(), a@.len() as int));
    assert(e@ =~= b@.subrange(b@.len() - e@.len(), b@.len() as int));
}

// ---- what comes with the shell ----

/// Whether a command has a handler that a scope registered, and none of what was
/// registered before is gone.
pub open spec fn offers(before: ContextView, after: ContextView, scope: u64, name: Seq<char>) -> bool {
    &&& before.registrations.is_prefix_of(after.registrations)
    &&& exists|i: int|
        before.registrations.len() <= i < after.registrations.len() && (
        #[trigger] after.registrations[i]).kind == KindView::Command(name)
            && after.registrations[i].scope == scope
}

/// Whether an event has a listener that a scope registered.
pub open spec fn listens(before: ContextView, after: ContextView, scope: u64, event: u64) -> bool {
    exists|i: int|
        before.registrations.len() <= i < after.registrations.len() && (
        #[trigger] after.registrations[i]).kind == KindView::Listener(event)
            && after.registrations[i].scope == scope
}

/// The memory plugin, where it is switched on and there is a model, provides the memory
/// and handles the command for a new session; switched off it registers nothing; without
/// a model, or with options that mean nothing, it fails.
pub proof fn the_memory_plugin_offers_its_command(p: MemoryPlugin, scope: u64, o: MemoryOptions, e: String, r: Result<(), String>, q: Result<(), String>)
    ensures
        forall|c: &mut Context|
            #[trigger] call_ensures(<MemoryPlugin as Plugin>::apply, (&p, c, scope, Ok(o)), r)
                && c@.wf() ==> {
                let model = service_at(c@.services, LlmService::key_spec()) is Some;
                &&& !o.enabled ==> r is Ok && final(c)@ == c@
                &&& o.enabled && model ==> {
                    &&& r is Ok
                    &&& offers(c@, final(c)@, scope, "new"@)
                    &&& service_at(final(c)@.services, MemoryService::key_spec()) is Some
                    &&& service_at(final(c)@.services, MemoryService::key_spec())->0.instance
                        == c@.next
                }
                &&& o.enabled && !model ==> r is Err && final(c)@ == c@
            },
        forall|c: &mut Context|
            #[trigger] call_ensures(<MemoryPlugin as Plugin>::apply, (&p, c, scope, Err(e)), q)
                ==> q is Err && q->Err_0@ == e@ && final(c)@ == c@,
{
    assert forall|c: &mut Context|
        #[trigger] call_ensures(<MemoryPlugin as Plugin>::apply, (&p, c, scope, Ok(o)), r)
            && c@.wf() implies {
        let model = service_at(c@.services, LlmService::key_spec()) is Some;
        &&& !o.enabled ==> r is Ok && final(c)@ == c@
        &&& o.enabled && model ==> {
            &&& r is Ok
            &&& offers(c@, final(c)@, scope, "new"@)
            &&& service_at(final(c)@.services, MemoryService::key_spec()) is Some
            &&& service_at(final(c)@.services, MemoryService::key_spec())->0.instance == c@.next
        }
        &&& o.enabled && !model ==> r is Err && final(c)@ == c@
    } by {
        let a = c@;
        let z = final(c)@;
        if o.enabled && service_at(c@.services, LlmService::key_spec()) is Some {
            put_service_lookup(
                a.services,
                ProvidedView {
                    key: MemoryService::key_spec(),
                    name: MemoryService::title(),
                    instance: a.next,
                },
                MemoryService::key_spec(),
            );
            let n = a.registrations.len() as int;
            assert(z.registrations[n].kind == KindView::Command("new"@));
            assert(a.registrations =~= z.registrations.subrange(0, n));
        }
    }
}

/// The chat plugin, where there is a model, provides the chat, listens to what the user
/// says and handles its command; otherwise it fails and registers nothing.
pub proof fn the_chat_plugin_listens(p: ChatPlugin, scope: u64, o: ChatOptions, e: String, r: Result<(), String>, q: Result<(), String>)
    ensures
        forall|c: &mut Context|
            #[trigger] call_ensures(<ChatPlugin as Plugin>::apply, (&p, c, scope, Ok(o)), r)
                && c@.wf() ==> {
                let model = service_at(c@.services, LlmService::key_spec()) is Some;
                &&& model ==> {
                    &&& r is Ok
                    &&& listens(c@, final(c)@, scope, SessionInput::key_spec())
                    &&& offers(c@, final(c)@, scope, "chat"@)
                    &&& service_at(final(c)@.services, ChatService::key_spec()) is Some
                    &&& service_at(final(c)@.services, ChatService::key_spec())->0.instance == c@.next
                }
                &&& !model ==> r is Err && final(c)@ == c@
            },
        forall|c: &mut Context|
            #[trigger] call_ensures(<ChatPlugin as Plugin>::apply, (&p, c, scope, Err(e)), q)
                ==> q is Err && final(c)@ == c@,
{
    assert forall|c: &mut Context|
        #[trigger] call_ensures(<ChatPlugin as Plugin>::apply, (&p, c, scope, Ok(o)), r)
            && c@.wf() implies {
        let model = service_at(c@.services, LlmService::key_spec()) is Some;
        &&& model ==> {
            &&& r is Ok
            &&& listens(c@, final(c)@, scope, SessionInput::key_spec())
            &&& offers(c@, final(c)@, scope, "chat"@)
            &&& service_at(final(c)@.services, ChatService::key_spec()) is Some
            &&& service_at(final(c)@.services, ChatService::key_spec())->0.instance == c@.next
        }
        &&& !model ==> r is Err && final(c)@ == c@
    } by {
        let a = c@;
        let z = final(c)@;
        if service_at(c@.services, LlmService::key_spec()) is Some {
            put_service_lookup(
                a.services,
                ProvidedView {
                    key: ChatService::key_spec(),
                    name: ChatService::title(),
                    instance: a.next,
                },
                ChatService::key_spec(),
            );
            let n = a.registrations.len() as int;
            assert(z.registrations[n].kind == KindView::Listener(SessionInput::key_spec()));
            assert(z.registrations[n + 1].kind == KindView::Command("chat"@));
            assert(a.registrations =~= z.registrations.subrange(0, n));
        }
    }
}

/// The microtask plugin, where there is a model, provides the small questions, listens to
/// answers and handles its command; otherwise it fails and registers nothing.
pub proof fn the_microtask_plugin_listens(p: MicroTaskPlugin, scope: u64, o: MicroOptions, e: String, r: Result<(), String>, q: Result<(), String>)
    ensures
        forall|c: &mut Context|
            #[trigger] call_ensures(<MicroTaskPlugin as Plugin>::apply, (&p, c, scope, Ok(o)), r)
                && c@.wf() ==> {
                let model = service_at(c@.services, LlmService::key_spec()) is Some;
                &&& model ==> {
                    &&& r is Ok
                    &&& listens(c@, final(c)@, scope, SessionReply::key_spec())
                    &&& offers(c@, final(c)@, scope, "micro"@)
                    &&& service_at(final(c)@.services, MicroService::key_spec()) is Some
                    &&& service_at(final(c)@.services, MicroService::key_spec())->0.instance
                        == c@.next
                }
                &&& !model ==> r is Err && final(c)@ == c@
            },
        forall|c: &mut Context|
            #[trigger] call_ensures(<MicroTaskPlugin as Plugin>::apply, (&p, c, scope, Err(e)), q)
                ==> q is Err && final(c)@ == c@,
{
    assert forall|c: &mut Context|
        #[trigger] call_ensures(<MicroTaskPlugin as Plugin>::apply, (&p, c, scope, Ok(o)), r)
            && c@.wf() implies {
        let model = service_at(c@.services, LlmService::key_spec()) is Some;
        &&& model ==> {
            &&& r is Ok
            &&& listens(c@, final(c)@, scope, SessionReply::key_spec())
            &&& offers(c@, final(c)@, scope, "micro"@)
            &&& service_at(final(c)@.services, MicroService::key_spec()) is Some
            &&& service_at(final(c)@.services, MicroService::key_spec())->0.instance == c@.next
        }
        &&& !model ==> r is Err && final(c)@ == c@
    } by {
        let a = c@;
        let z = final(c)@;
        if service_at(c@.services, LlmService::key_spec()) is Some {
            put_service_lookup(
                a.services,
                ProvidedView {
                    key: MicroService::key_spec(),
                    name: MicroService::title(),
                    instance: a.next,
                },
                MicroService::key_spec(),
            );
            let n = a.registrations.len() as int;
            assert(z.registrations[n].kind == KindView::Listener(SessionReply::key_spec()));
            assert(z.registrations[n + 1].kind == KindView::Command("micro"@));
            assert(a.registrations =~= z.registrations.subrange(0, n));
        }
    }
}

/// The subagent plugin, where there is a model, provides the tasks and handles the
/// commands that hand one on and show the models; otherwise it fails and registers
/// nothing.
pub proof fn the_subagent_plugin_offers_its_commands(p: SubagentPlugin, scope: u64, o: SubagentOptions, e: String, r: Result<(), String>, q: Result<(), String>)
    ensures
        forall|c: &mut Context|
            #[trigger] call_ensures(<SubagentPlugin as Plugin>::apply, (&p, c, scope, Ok(o)), r)
                && c@.wf() ==> {
                let model = service_at(c@.services, LlmService::key_spec()) is Some;
                &&& model ==> {
                    &&& r is Ok
                    &&& offers(c@, final(c)@, scope, "subagent"@)
                    &&& offers(c@, final(c)@, scope, "models"@)
                    &&& service_at(final(c)@.services, SubagentService::key_spec()) is Some
                    &&& service_at(final(c)@.services, SubagentService::key_spec())->0.instance
                        == c@.next
                }
                &&& !model ==> r is Err && final(c)@ == c@
            },
        forall|c: &mut Context|
            #[trigger] call_ensures(<SubagentPlugin as Plugin>::apply, (&p, c, scope, Err(e)), q)
                ==> q is Err && final(c)@ == c@,
{
    assert forall|c: &mut Context|
        #[trigger] call_ensures(<SubagentPlugin as Plugin>::apply, (&p, c, scope, Ok(o)), r)
            && c@.wf() implies {
        let model = service_at(c@.services, LlmService::key_spec()) is Some;
        &&& model ==> {
            &&& r is Ok
            &&& offers(c@, final(c)@, scope, "subagent"@)
            &&& offers(c@, final(c)@, scope, "models"@)
            &&& service_at(final(c)@.services, SubagentService::key_spec()) is Some
            &&& service_at(final(c)@.services, SubagentService::key_spec())->0.instance == c@.next
        }
        &&& !model ==> r is Err && final(c)@ == c@
    } by {
        let a = c@;
        let z = final(c)@;
        if service_at(c@.services, LlmService::key_spec()) is Some {
            put_service_lookup(
                a.services,
                ProvidedView {
                    key: SubagentService::key_spec(),
                    name: SubagentService::title(),
                    instance: a.next,
                },
                SubagentService::key_spec(),
            );
            let n = a.registrations.len() as int;
            assert(z.registrations[n].kind == KindView::Command("subagent"@));
            assert(z.registrations[n + 1].kind == KindView::Command("models"@));
            assert(a.registrations =~= z.registrations.subrange(0, n));
        }
    }
}

/// The tools plugin, where files and programs can be used, handles the commands for
/// them; otherwise it fails and registers nothing.
pub proof fn the_tools_plugin_offers_its_commands(p: ToolsPlugin, scope: u64, o: ToolsOptions, e: String, r: Result<(), String>, q: Result<(), String>)
    ensures
        forall|c: &mut Context|
            #[trigger] call_ensures(<ToolsPlugin as Plugin>::apply, (&p, c, scope, Ok(o)), r)
                && c@.wf() ==> {
                let able = service_at(c@.services, FsService::key_spec()) is Some && service_at(
                    c@.services,
                    SubprocessService::key_spec(),
                ) is Some;
                &&& able ==> {
                    &&& r is Ok
                    &&& offers(c@, final(c)@, scope, "fs"@)
                    &&& offers(c@, final(c)@, scope, "pwd"@)
                    &&& offers(c@, final(c)@, scope, "mode"@)
                    &&& offers(c@, final(c)@, scope, "run"@)
                    &&& final(c)@.services == c@.services
                }
                &&& !able ==> r is Err && final(c)@ == c@
            },
        forall|c: &mut Context|
            #[trigger] call_ensures(<ToolsPlugin as Plugin>::apply, (&p, c, scope, Err(e)), q)
                ==> q is Err && final(c)@ == c@,
{
    assert forall|c: &mut Context|
        #[trigger] call_ensures(<ToolsPlugin as Plugin>::apply, (&p, c, scope, Ok(o)), r)
            && c@.wf() implies {
        let able = service_at(c@.services, FsService::key_spec()) is Some && service_at(
            c@.services,
            SubprocessService::key_spec(),
        ) is Some;
        &&& able ==> {
            &&& r is Ok
            &&& offers(c@, final(c)@, scope, "fs"@)
            &&& offers(c@, final(c)@, scope, "pwd"@)
            &&& offers(c@, final(c)@, scope, "mode"@)
            &&& offers(c@, final(c)@, scope, "run"@)
            &&& final(c)@.services == c@.services
        }
        &&& !able ==> r is Err && final(c)@ == c@
    } by {
        let a = c@;
        let z = final(c)@;
        let able = service_at(c@.services, FsService::key_spec()) is Some && service_at(
            c@.services,
            SubprocessService::key_spec(),
        ) is Some;
        if able {
            let n = a.registrations.len() as int;
            assert(z.registrations[n].kind == KindView::Command("fs"@));
            assert(z.registrations[n + 1].kind == KindView::Command("pwd"@));
            assert(z.registrations[n + 2].kind == KindView::Command("mode"@));
            assert(z.registrations[n + 3].kind == KindView::Command("run"@));
            assert(a.registrations =~= z.registrations.subrange(0, n));
        }
    }
}

/// The terminal plugin, where there are a loader and a model, listens to what is to be
/// shown and handles the commands that steer the shell; otherwise it fails and registers
/// nothing.
pub proof fn the_terminal_plugin_offers_its_commands(p: TuiPlugin, scope: u64, r: Result<(), String>)
    ensures
        forall|c: &mut Context|
            #[trigger] call_ensures(<TuiPlugin as Plugin>::apply, (&p, c, scope, ()), r) && c@.wf() ==> {
                let able = service_at(c@.services, LoaderService::key_spec()) is Some
                    && service_at(c@.services, LlmService::key_spec()) is Some;
                &&& able ==> {
                    &&& r is Ok
                    &&& listens(c@, final(c)@, scope, SessionReply::key_spec())
                    &&& listens(c@, final(c)@, scope, SessionStatus::key_spec())
                    &&& offers(c@, final(c)@, scope, "help"@)
                    &&& offers(c@, final(c)@, scope, "plugins"@)
                    &&& offers(c@, final(c)@, scope, "load"@)
                    &&& offers(c@, final(c)@, scope, "unload"@)
                    &&& offers(c@, final(c)@, scope, "model"@)
                    &&& offers(c@, final(c)@, scope, "clear"@)
                    &&& offers(c@, final(c)@, scope, "quit"@)
                    &&& service_at(final(c)@.services, TuiBackend::key_spec()) is Some
                }
                &&& !able ==> r is Err && final(c)@ == c@
            },
{
    assert forall|c: &mut Context|
        #[trigger] call_ensures(<TuiPlugin as Plugin>::apply, (&p, c, scope, ()), r) && c@.wf() implies {
        let able = service_at(c@.services, LoaderService::key_spec()) is Some && service_at(
            c@.services,
            LlmService::key_spec(),
        ) is Some;
        &&& able ==> {
            &&& r is Ok
            &&& listens(c@, final(c)@, scope, SessionReply::key_spec())
            &&& listens(c@, final(c)@, scope, SessionStatus::key_spec())
            &&& offers(c@, final(c)@, scope, "help"@)
            &&& offers(c@, final(c)@, scope, "plugins"@)
            &&& offers(c@, final(c)@, scope, "load"@)
            &&& offers(c@, final(c)@, scope, "unload"@)
            &&& offers(c@, final(c)@, scope, "model"@)
            &&& offers(c@, final(c)@, scope, "clear"@)
            &&& offers(c@, final(c)@, scope, "quit"@)
            &&& service_at(final(c)@.services, TuiBackend::key_spec()) is Some
        }
        &&& !able ==> r is Err && final(c)@ == c@
    } by {
        let a = c@;
        let z = final(c)@;
        let able = service_at(c@.services, LoaderService::key_spec()) is Some && service_at(
            c@.services,
            LlmService::key_spec(),
        ) is Some;
        if able {
            let n = a.registrations.len() as int;
            assert(z.registrations[n].kind == KindView::Listener(SessionReply::key_spec()));
            assert(z.registrations[n + 1].kind == KindView::Listener(SessionStatus::key_spec()));
            assert(z.registrations[n + 2].kind == KindView::Command("help"@));
            assert(z.registrations[n + 3].kind == KindView::Command("plugins"@));
            assert(z.registrations[n + 4].kind == KindView::Command("load"@));
            assert(z.registrations[n + 5].kind == KindView::Command("unload"@));
            assert(z.registrations[n + 6].kind == KindView::Command("model"@));
            assert(z.registrations[n + 7].kind == KindView::Command("clear"@));
            assert(z.registrations[n + 8].kind == KindView::Command("quit"@));
            assert(a.registrations =~= z.registrations.subrange(0, n));
            put_service_lookup(
                a.services,
                ProvidedView {
                    key: TuiBackend::key_spec(),
                    name: TuiBackend::title(),
                    instance: (a.next + 9) as u64,
                },
                TuiBackend::key_spec(),
            );
        }
    }
}

/// The plugins that come with the shell are the memory, the chat, the small questions,
/// the tools and the terminal.
pub proof fn five_plugins_come_with_the_shell(r: Vec<Builtin>)
    requires
        call_ensures(builtin, (), r),
    ensures
        r@.len() == 5,
        r@[0].title() == "memory"@,
        r@[1].title() == "chat"@,
        r@[2].title() == "microtask"@,
        r@[3].title() == "tools"@,
        r@[4].title() == "tui"@,
{
}

/// What the options ask for is set up by them: the memory where it is switched on, the
/// chat with its prompt, the tries of the small questions, and the time for programs.
pub proof fn options_are_followed(o: BuiltinOptions, m: Option<MemoryService>, c: Option<ChatService>, k: Option<MicroService>, t: Option<u128>)
    requires
        call_ensures(BuiltinOptions::memory_service, (&o, None::<ChatSnapshot>), m),
        call_ensures(BuiltinOptions::run_timeout, (&o,), t),
    ensures
        m is Some <==> o.memory is Ok && o.memory->Ok_0.enabled,
        m is Some ==> m->0.history@.len() == 0 && m->0.seq == 1
            && m->0.settings.history_turns == o.memory->Ok_0.history_turns
            && m->0.settings.trigger_turns == o.memory->Ok_0.trigger_turns
            && m->0.settings.grace_turns == o.memory->Ok_0.grace_turns && m->0.settings.persist,
        t is Some <==> o.tools is Ok,
        t is Some && o.tools->Ok_0.run_timeout_secs is Some ==> t->0
            == o.tools->Ok_0.run_timeout_secs->0 * 1_000_000_000,
        forall|l: &mut LlmClient|
            #[trigger] call_ensures(BuiltinOptions::chat_service, (&o, l), c) ==> {
                &&& c is Some <==> o.chat is Ok
                &&& c is Some ==> {
                    &&& c->0.history@.len() == 1
                    &&& c->0.history@[0].role@ == "system"@
                    &&& c->0.history@[0].content@ == CHAT_SYSTEM@
                    &&& c->0.history_turns == o.chat->Ok_0.history_turns
                    &&& c->0.enable_thinking == o.chat->Ok_0.enable_thinking
                    &&& o.chat->Ok_0.model is Some ==> final(l).model_spec()
                        == o.chat->Ok_0.model->0@
                    &&& o.chat->Ok_0.model is None ==> final(l).model_spec() == l.model_spec()
                }
            },
        forall|l: &mut LlmClient|
            #[trigger] call_ensures(BuiltinOptions::micro_service, (&o, l), k) ==> {
                &&& k is Some <==> o.microtask is Ok
                &&& k is Some ==> {
                    &&& k->0.engine.max_retries == o.microtask->Ok_0.max_retries
                    &&& o.microtask->Ok_0.model is Some ==> final(l).model_spec()
                        == o.microtask->Ok_0.model->0@
                    &&& o.microtask->Ok_0.model is None ==> final(l).model_spec() == l.model_spec()
                }
            },
{
    if m is Some {
        assert(m->0@.history.len() == m->0.history@.len());
    }
    assert forall|l: &mut LlmClient| #[trigger]
        call_ensures(BuiltinOptions::chat_service, (&o, l), c) implies {
        &&& c is Some <==> o.chat is Ok
        &&& c is Some ==> {
            &&& c->0.history@.len() == 1
            &&& c->0.history@[0].role@ == "system"@
            &&& c->0.history@[0].content@ == CHAT_SYSTEM@
            &&& c->0.history_turns == o.chat->Ok_0.history_turns
            &&& c->0.enable_thinking == o.chat->Ok_0.enable_thinking
            &&& o.chat->Ok_0.model is Some ==> final(l).model_spec() == o.chat->Ok_0.model->0@
            &&& o.chat->Ok_0.model is None ==> final(l).model_spec() == l.model_spec()
        }
    } by {
        if c is Some {
            assert(c->0@.history.len() == c->0.history@.len());
            assert(c->0@.history[0] == c->0.history@[0]@);
        }
    }
}

/// Each service has a name of its own, and no two are kept in one place.
pub proof fn services_are_told_apart()
    ensures
        ({
            let places = seq![
                LlmService::key_spec(),
                FsService::key_spec(),
                SubprocessService::key_spec(),
                LoaderService::key_spec(),
                ChatService::key_spec(),
                MemoryService::key_spec(),
                MicroService::key_spec(),
                SubagentService::key_spec(),
                TuiBackend::key_spec(),
            ];
            places.no_duplicates()
        }),
        LlmService::title() == "llm"@,
        FsService::title() == "fs"@,
        SubprocessService::title() == "subprocess"@,
        LoaderService::title() == "loader"@,
        ChatService::title() == "chat"@,
        MemoryService::title() == "memory"@,
        MicroService::title() == "micro"@,
        SubagentService::title() == "subagent"@,
        TuiBackend::title() == "tui"@,
{
}

}  // verus!
