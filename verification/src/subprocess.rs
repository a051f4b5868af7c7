//! Running a command: where, with which words and for how long, and what is made
//! of its end. The process itself is run by the caller.

use crate::cordis::service::Service;
use crate::fs::policy::{is_step, FsPath, PathView};
use crate::text::outside::{from_utf8_lossy, lossy};
use crate::text::split::{words, words_spec};
use crate::text::texts;
use crate::text::trim::{trim, trim_spec};
use vstd::prelude::*;
use vstd::string::*;
use vstd::utf8::{decode_utf8, valid_utf8};

verus! {

/// Thirty seconds, in nanoseconds.
pub const DEFAULT_TIMEOUT: u128 = 30_000_000_000;

pub struct RunOptions {
    /// Where to run; the directory of the service where none is given.
    pub cwd: Option<FsPath>,
    /// How long the command may run, in nanoseconds; the limit of the service
    /// where it is nought.
    pub timeout: u128,
    /// Further environment variables.
    pub env: Vec<(String, String)>,
}

impl Default for RunOptions {
    fn default() -> (r: RunOptions)
        ensures
            r.cwd is None,
            r.timeout == DEFAULT_TIMEOUT,
            r.env@.len() == 0,
    {
        RunOptions { cwd: None, timeout: DEFAULT_TIMEOUT, env: Vec::new() }
    }
}

#[derive(Debug)]
pub struct RunOutput {
    pub status: i32,
    pub stdout: String,
    pub stderr: String,
    pub duration_ms: u128,
}

/// A process to start.
pub struct RunPlan {
    pub program: String,
    pub args: Vec<String>,
    pub cwd: FsPath,
    pub timeout: u128,
    /// Further environment variables.
    pub env: Vec<(String, String)>,
}

#[verifier::ext_equal]
pub struct PlanView {
    pub program: Seq<char>,
    pub args: Seq<Seq<char>>,
    pub cwd: PathView,
    pub timeout: u128,
    pub env: Seq<(Seq<char>, Seq<char>)>,
}

impl View for RunPlan {
    type V = PlanView;

    open spec fn view(&self) -> PlanView {
        PlanView {
            program: self.program@,
            args: texts(self.args@),
            cwd: self.cwd@,
            timeout: self.timeout,
            env: variables(self.env@),
        }
    }
}

/// Names and values of variables.
pub open spec fn variables(v: Seq<(String, String)>) -> Seq<(Seq<char>, Seq<char>)> {
    v.map_values(|p: (String, String)| (p.0@, p.1@))
}

fn copy_variables(v: &Vec<(String, String)>) -> (r: Vec<(String, String)>)
    ensures
        variables(r@) == variables(v@),
{
    let mut out: Vec<(String, String)> = Vec::new();
    let mut i: usize = 0;
    while i < v.len()
        invariant
            i <= v@.len(),
            out@.len() == i,
            forall|k: int|
                0 <= k < i ==> (#[trigger] out@[k]).0@ == v@[k].0@ && out@[k].1@ == v@[k].1@,
        decreases v@.len() - i,
    {
        out.push((v[i].0.clone(), v[i].1.clone()));
        i += 1;
    }
    assert(variables(out@) =~= variables(v@));
    out
}

/// What the caller has to do after it has looked at a running process.
pub enum PollStep {
    /// The process has ended; its code, if it has one.
    Exited(Option<i32>),
    /// Look again a little later.
    Wait,
    /// End the process, and report this.
    Kill(String),
    /// Report this.
    Failed(String),
}

pub struct SubprocessService {
    /// The workspace: the default directory, and the border.
    pub cwd: FsPath,
    pub default_timeout: u128,
}

impl Service for SubprocessService {
    open spec fn key_spec() -> u64 {
        3
    }

    open spec fn title() -> Seq<char> {
        "subprocess"@
    }

    fn key() -> (r: u64) {
        3
    }

    fn service_name_static() -> (r: &'static str) {
        "subprocess"
    }
}

/// The program of a command line and its arguments; none where the line is
/// empty. Under Windows the line goes to the command interpreter as it is.
pub open spec fn command_spec(cmdline: Seq<char>, windows: bool) -> Option<
    (Seq<char>, Seq<Seq<char>>),
> {
    if windows {
        if trim_spec(cmdline).len() == 0 {
            None
        } else {
            Some(("cmd"@, seq!["/C"@, cmdline]))
        }
    } else {
        let parts = words_spec(cmdline);
        if parts.len() == 0 {
            None
        } else {
            Some((parts[0], parts.skip(1)))
        }
    }
}

impl SubprocessService {
    pub fn new(cwd: FsPath) -> (r: SubprocessService)
        ensures
            r.cwd == cwd,
            r.default_timeout == DEFAULT_TIMEOUT,
    {
        SubprocessService { cwd, default_timeout: DEFAULT_TIMEOUT }
    }

    /// The directory that a command is to run in.
    pub open spec fn cwd_spec(&self, opts: RunOptions) -> PathView {
        match opts.cwd {
            Some(c) => c@,
            None => self.cwd@,
        }
    }

    /// How a command line is run, or why it is not: it is not run outside the
    /// workspace, and not where it is empty.
    pub open spec fn plan_spec(&self, cmdline: Seq<char>, opts: RunOptions, windows: bool) -> Result<
        PlanView,
        Seq<char>,
    > {
        let cwd = self.cwd_spec(opts);
        if !cwd.below(self.cwd@) {
            Err("拒绝执行:工作目录越界 "@ + cwd.display)
        } else {
            match command_spec(cmdline, windows) {
                None => Err("空命令"@),
                Some((program, args)) => Ok(
                    PlanView {
                        program,
                        args,
                        cwd,
                        timeout: if opts.timeout == 0 {
                            self.default_timeout
                        } else {
                            opts.timeout
                        },
                        env: variables(opts.env@),
                    },
                ),
            }
        }
    }

    /// Decides how a command line is run.
    pub fn run(&self, cmdline: &str, opts: &RunOptions, windows: bool) -> (r: Result<
        RunPlan,
        String,
    >)
        ensures
            match self.plan_spec(cmdline@, *opts, windows) {
                Ok(p) => r is Ok && r->Ok_0@ == p,
                Err(e) => r is Err && r->Err_0@ == e,
            },
    {
        let cwd = match &opts.cwd {
            Some(c) => c.copy(),
            None => self.cwd.copy(),
        };
        if !cwd.lies_below(&self.cwd) {
            let mut m = "拒绝执行:工作目录越界 ".to_string();
            m.append(cwd.display.as_str());
            return Err(m);
        }
        let timeout: u128 = if opts.timeout == 0 {
            self.default_timeout
        } else {
            opts.timeout
        };
        let env = copy_variables(&opts.env);
        if windows {
            if trim(cmdline).as_str().unicode_len() == 0 {
                return Err("空命令".to_string());
            }
            let mut args: Vec<String> = Vec::new();
            args.push("/C".to_string());
            args.push(cmdline.to_string());
            assert(texts(args@) =~= seq!["/C"@, cmdline@]);
            Ok(RunPlan { program: "cmd".to_string(), args, cwd, timeout, env })
        } else {
            let mut parts = words(cmdline);
            if parts.len() == 0 {
                return Err("空命令".to_string());
            }
            let ghost all = texts(parts@);
            let program = parts.remove(0);
            assert(texts(parts@) =~= all.skip(1));
            Ok(RunPlan { program, args: parts, cwd, timeout, env })
        }
    }
}

/// The message for a process that did not start.
pub fn spawn_failure(cmdline: &str, e: &str) -> (r: String)
    ensures
        r@ == "启动命令失败 `"@ + cmdline@ + "`: "@ + e@,
{
    let mut m = "启动命令失败 `".to_string();
    m.append(cmdline);
    m.append("`: ");
    m.append(e);
    m
}

/// The message for an output that could not be read.
pub fn output_failure(e: &str) -> (r: String)
    ensures
        r@ == "读取输出失败: "@ + e@,
{
    let mut m = "读取输出失败: ".to_string();
    m.append(e);
    m
}

/// Decides what follows a look at a running process: `state` is what was seen,
/// `elapsed` how long it has been running, `shown` the same for a message.
pub fn poll(
    state: Result<Option<Option<i32>>, String>,
    elapsed: u128,
    timeout: u128,
    shown: &str,
    cmdline: &str,
) -> (r: PollStep)
    ensures
        match state {
            Ok(Some(code)) => r matches PollStep::Exited(c) && c == code,
            Ok(None) => if elapsed > timeout {
                r matches PollStep::Kill(m) && m@ == "命令超时("@ + shown@ + ")已 kill: `"@
                    + cmdline@ + "`"@
            } else {
                r is Wait
            },
            Err(e) => r matches PollStep::Failed(m) && m@ == "wait 失败: "@ + e@,
        },
{
    match state {
        Ok(Some(code)) => PollStep::Exited(code),
        Ok(None) => {
            if elapsed > timeout {
                let mut m = "命令超时(".to_string();
                m.append(shown);
                m.append(")已 kill: `");
                m.append(cmdline);
                m.append("`");
                PollStep::Kill(m)
            } else {
                PollStep::Wait
            }
        },
        Err(e) => {
            let mut m = "wait 失败: ".to_string();
            m.append(e.as_str());
            PollStep::Failed(m)
        },
    }
}

/// What a process that has ended gave; -1 where it has no code.
pub fn finished(code: Option<i32>, stdout: &Vec<u8>, stderr: &Vec<u8>, duration_ms: u128) -> (r:
    RunOutput)
    ensures
        r.status == (match code {
            Some(c) => c,
            None => -1i32,
        }),
        r.stdout@ == lossy(stdout@),
        r.stderr@ == lossy(stderr@),
        valid_utf8(stdout@) ==> r.stdout@ == decode_utf8(stdout@),
        valid_utf8(stderr@) ==> r.stderr@ == decode_utf8(stderr@),
        r.duration_ms == duration_ms,
{
    RunOutput {
        status: match code {
            Some(c) => c,
            None => -1,
        },
        stdout: from_utf8_lossy(stdout),
        stderr: from_utf8_lossy(stderr),
        duration_ms,
    }
}

/// No command is run outside the workspace: the directory is that of the workspace
/// or lies below it, and no step in it leads out again; where the workspace itself
/// is named without steps, so is the directory. A directory with a step below the
/// workspace is refused, whatever is to be run in it. By default a command is run
/// in the workspace.
pub proof fn commands_stay_in_the_workspace(
    svc: SubprocessService,
    cmdline: Seq<char>,
    opts: RunOptions,
    windows: bool,
    i: int,
)
    ensures
        match svc.plan_spec(cmdline, opts, windows) {
            Ok(p) => p.cwd == svc.cwd_spec(opts) && p.cwd.below(svc.cwd@) && (0 <= i
                < p.cwd.parts.len() && (i < svc.cwd@.parts.len() ==> !is_step(
                svc.cwd@.parts[i],
            )) ==> !is_step(p.cwd.parts[i])),
            Err(_) => true,
        },
        svc.cwd@.parts.len() <= i < svc.cwd_spec(opts).parts.len() && is_step(
            svc.cwd_spec(opts).parts[i],
        ) ==> svc.plan_spec(cmdline, opts, windows) == Err::<PlanView, Seq<char>>(
            "拒绝执行:工作目录越界 "@ + svc.cwd_spec(opts).display,
        ),
        opts.cwd is None && command_spec(cmdline, windows) is Some ==> svc.plan_spec(
            cmdline,
            opts,
            windows,
        ) is Ok,
{
    assert(svc.cwd@.parts =~= svc.cwd@.parts.take(svc.cwd@.parts.len() as int));
    let cwd = svc.cwd_spec(opts);
    if cwd.below(svc.cwd@) && 0 <= i < svc.cwd@.parts.len() {
        assert(cwd.parts[i] == svc.cwd@.parts[i]);
    }
}

}  // verus!
