//! The tools plugin: commands for files and for running programs.

use crate::cordis::context::{service_at, Context, ContextView, KindView};
use crate::cordis::plugin::{grows_reflexive, grows_registered, names, Plugin};
use crate::cordis::service::Service;
use crate::fs::policy::FsPath;
use crate::fs::service::{
    child_entries, entry_facts, entry_names, list_refused, log_views, read_outcome, read_state,
    stat_outcome, AccessLog, EntryFacts, FsService, FsView, LogView, MetaFailure, ReadProbe,
};
use crate::fs::{
    error_text, mode_spec, FileFacts, FsChild, FsEntry, FsErrorView, FsInfo, FsKind, SandboxMode,
};
use crate::subprocess::{RunOutput, SubprocessService};
use crate::text::number::{decimal, decimal_spec, parse_usize, signed, signed_spec, unsigned_spec};
use crate::text::order::in_order;
use crate::text::split::{split_once, split_once_spec};
use crate::text::trim::{trim, trim_spec};
use crate::text::{
    join, join_spec, pad_left, pad_left_spec, pad_right, pad_right_spec, same, texts,
};
use vstd::prelude::*;
use vstd::string::*;

verus! {

#[derive(Debug)]
pub struct ToolsOptions {
    pub run_timeout_secs: Option<u64>,
}

impl Default for ToolsOptions {
    fn default() -> (r: ToolsOptions)
        ensures
            r.run_timeout_secs is None,
    {
        ToolsOptions { run_timeout_secs: None }
    }
}

impl ToolsOptions {
    /// How long a program may run, in nanoseconds.
    pub fn run_timeout(&self) -> (r: u128)
        ensures
            r == (match self.run_timeout_secs {
                Some(s) => s,
                None => 30,
            }) * 1_000_000_000,
    {
        let secs: u64 = match self.run_timeout_secs {
            Some(s) => s,
            None => 30,
        };
        secs as u128 * 1_000_000_000
    }
}

// ---- the command for files ----

/// What the command for files is to do.
pub enum FsCommand {
    List(String),
    Read(String),
    Write(String, String),
    Stat(String),
    /// The path, what is replaced, and by what.
    Edit(String, String, String),
    Log(usize),
    /// How the command is used.
    Usage(&'static str),
}

#[verifier::ext_equal]
pub enum FsCommandView {
    List(Seq<char>),
    Read(Seq<char>),
    Write(Seq<char>, Seq<char>),
    Stat(Seq<char>),
    Edit(Seq<char>, Seq<char>, Seq<char>),
    Log(usize),
    Usage(Seq<char>),
}

impl View for FsCommand {
    type V = FsCommandView;

    open spec fn view(&self) -> FsCommandView {
        match self {
            FsCommand::List(p) => FsCommandView::List(p@),
            FsCommand::Read(p) => FsCommandView::Read(p@),
            FsCommand::Write(p, c) => FsCommandView::Write(p@, c@),
            FsCommand::Stat(p) => FsCommandView::Stat(p@),
            FsCommand::Edit(p, f, t) => FsCommandView::Edit(p@, f@, t@),
            FsCommand::Log(n) => FsCommandView::Log(*n),
            FsCommand::Usage(u) => FsCommandView::Usage(u@),
        }
    }
}

pub const USAGE_CAT: &'static str = "用法: /fs cat <path>";

pub const USAGE_WRITE: &'static str = "用法: /fs write <path> <content>";

pub const USAGE_STAT: &'static str = "用法: /fs stat <path>";

pub const USAGE_EDIT: &'static str = "用法: /fs edit <path> <from> <to>(先 /fs cat 读过该文件)";

pub const USAGE_FS: &'static str = "用法: /fs ls [path] | /fs cat <path> | /fs write <path> <content> | /fs edit <path> <from> <to> | /fs stat <path> | /fs log [n]";

/// A line as three parts at its first two blanks; what is not there is empty.
pub open spec fn three_parts(s: Seq<char>) -> (Seq<char>, Seq<char>, Seq<char>) {
    match split_once_spec(s, ' ') {
        None => (s, Seq::empty(), Seq::empty()),
        Some((a, b)) => match split_once_spec(b, ' ') {
            None => (a, b, Seq::empty()),
            Some((c, d)) => (a, c, d),
        },
    }
}

fn into_parts(s: &str) -> (r: (String, String, String))
    ensures
        (r.0@, r.1@, r.2@) == three_parts(s@),
{
    match split_once(s, ' ') {
        None => {
            let r = (s.to_string(), String::new(), String::new());
            assert(r.1@ =~= Seq::empty());
            r
        },
        Some((a, b)) => {
            match split_once(b.as_str(), ' ') {
                None => {
                    let r = (a, b, String::new());
                    assert(r.2@ =~= Seq::empty());
                    r
                },
                Some((c, d)) => (a, c, d),
            }
        },
    }
}

/// What a line of the command for files means.
pub open spec fn fs_command_spec(args: Seq<char>) -> FsCommandView {
    let parts = three_parts(args);
    let sub = trim_spec(parts.0);
    let path = trim_spec(parts.1);
    let rest = trim_spec(parts.2);
    if sub == "ls"@ {
        FsCommandView::List(
            if path.len() == 0 {
                "."@
            } else {
                path
            },
        )
    } else if sub == "cat"@ {
        if path.len() == 0 {
            FsCommandView::Usage(USAGE_CAT@)
        } else {
            FsCommandView::Read(path)
        }
    } else if sub == "write"@ {
        if path.len() == 0 {
            FsCommandView::Usage(USAGE_WRITE@)
        } else {
            FsCommandView::Write(path, rest)
        }
    } else if sub == "stat"@ {
        if path.len() == 0 {
            FsCommandView::Usage(USAGE_STAT@)
        } else {
            FsCommandView::Stat(path)
        }
    } else if sub == "edit"@ {
        let words = three_parts(rest);
        if path.len() == 0 || words.0.len() == 0 {
            FsCommandView::Usage(USAGE_EDIT@)
        } else {
            FsCommandView::Edit(path, words.0, words.1)
        }
    } else if sub == "log"@ {
        FsCommandView::Log(
            match unsigned_spec(path) {
                Some(n) => if n <= usize::MAX {
                    n as usize
                } else {
                    20
                },
                None => 20,
            },
        )
    } else {
        FsCommandView::Usage(USAGE_FS@)
    }
}

/// What a line of the command for files means.
pub fn fs_cmd(args: &str) -> (r: FsCommand)
    ensures
        r@ == fs_command_spec(args@),
{
    let (a, b, c) = into_parts(args);
    let sub = trim(a.as_str());
    let sub = sub.as_str();
    let path = trim(b.as_str());
    let rest = trim(c.as_str());
    let no_path = path.as_str().unicode_len() == 0;
    if same(sub, "ls") {
        if no_path {
            FsCommand::List(".".to_string())
        } else {
            FsCommand::List(path)
        }
    } else if same(sub, "cat") {
        if no_path {
            FsCommand::Usage(USAGE_CAT)
        } else {
            FsCommand::Read(path)
        }
    } else if same(sub, "write") {
        if no_path {
            FsCommand::Usage(USAGE_WRITE)
        } else {
            FsCommand::Write(path, rest)
        }
    } else if same(sub, "stat") {
        if no_path {
            FsCommand::Usage(USAGE_STAT)
        } else {
            FsCommand::Stat(path)
        }
    } else if same(sub, "edit") {
        let (from, to, _) = into_parts(rest.as_str());
        if no_path || from.as_str().unicode_len() == 0 {
            FsCommand::Usage(USAGE_EDIT)
        } else {
            FsCommand::Edit(path, from, to)
        }
    } else if same(sub, "log") {
        FsCommand::Log(
            match parse_usize(path.as_str()) {
                Some(n) => n,
                None => 20,
            },
        )
    } else {
        FsCommand::Usage(USAGE_FS)
    }
}

// ---- what the command for files shows ----

pub open spec fn icon_spec(k: FsKind) -> Seq<char> {
    match k {
        FsKind::Dir => "d"@,
        FsKind::Symlink => "l"@,
        _ => "-"@,
    }
}

/// One entry of a directory.
pub open spec fn entry_line(e: EntryFacts) -> Seq<char> {
    "\n"@ + icon_spec(e.kind) + " "@ + pad_left_spec(
        match e.size {
            Some(n) => decimal_spec(n as nat),
            None => "-"@,
        },
        10,
    ) + " "@ + e.name
}

pub open spec fn entry_lines(entries: Seq<EntryFacts>) -> Seq<char>
    decreases entries.len(),
{
    if entries.len() == 0 {
        Seq::empty()
    } else {
        entry_lines(entries.drop_last()) + entry_line(entries.last())
    }
}

/// A directory.
pub open spec fn listing(display: Seq<char>, entries: Seq<EntryFacts>) -> Seq<char> {
    if entries.len() == 0 {
        "(空目录) "@ + display
    } else {
        display + ":"@ + entry_lines(entries)
    }
}

fn show_listing(display: &str, entries: &Vec<FsEntry>) -> (r: String)
    ensures
        r@ == listing(display@, entry_facts(entries@)),
{
    let ghost all = entry_facts(entries@);
    if entries.len() == 0 {
        let mut m = "(空目录) ".to_string();
        m.append(display);
        return m;
    }
    let mut lines = display.to_string();
    lines.append(":");
    let ghost head = lines@;
    let mut i: usize = 0;
    assert(all.take(0).len() == 0);
    assert(lines@ =~= head + entry_lines(all.take(0)));
    while i < entries.len()
        invariant
            i <= entries@.len(),
            all == entry_facts(entries@),
            lines@ == head + entry_lines(all.take(i as int)),
        decreases entries@.len() - i,
    {
        let e = &entries[i];
        assert(all[i as int] == e@);
        assert(all.take(i as int + 1).drop_last() =~= all.take(i as int));
        let icon = match e.kind {
            FsKind::Dir => "d",
            FsKind::Symlink => "l",
            _ => "-",
        };
        let size = match e.size {
            Some(n) => decimal(n as u128),
            None => "-".to_string(),
        };
        let mut line = "\n".to_string();
        line.append(icon);
        line.append(" ");
        line.append(pad_left(size.as_str(), 10).as_str());
        line.append(" ");
        line.append(e.name.as_str());
        lines.append(line.as_str());
        assert(lines@ =~= head + entry_lines(all.take(i as int + 1)));
        i += 1;
    }
    assert(all.take(i as int) =~= all);
    lines
}

pub open spec fn kind_name(k: FsKind) -> Seq<char> {
    match k {
        FsKind::File => "File"@,
        FsKind::Dir => "Dir"@,
        FsKind::Symlink => "Symlink"@,
        FsKind::Other => "Other"@,
    }
}

/// What is known of a file.
pub open spec fn stat_text(display: Seq<char>, info: Option<FsInfo>) -> Seq<char> {
    match info {
        Some(i) => display + " kind="@ + kind_name(i.kind) + " size="@ + decimal_spec(
            match i.size {
                Some(n) => n as nat,
                None => 0,
            },
        ) + " version=v"@ + decimal_spec(i.version as nat),
        None => "FS_NOT_FOUND: "@ + display,
    }
}

fn show_stat(display: &str, info: Option<FsInfo>) -> (r: String)
    ensures
        r@ == stat_text(display@, info),
{
    match info {
        Some(i) => {
            let mut m = display.to_string();
            m.append(" kind=");
            m.append(
                match i.kind {
                    FsKind::File => "File",
                    FsKind::Dir => "Dir",
                    FsKind::Symlink => "Symlink",
                    FsKind::Other => "Other",
                },
            );
            m.append(" size=");
            let size: u64 = match i.size {
                Some(n) => n,
                None => 0,
            };
            m.append(decimal(size as u128).as_str());
            m.append(" version=v");
            m.append(decimal(i.version as u128).as_str());
            m
        },
        None => {
            let mut m = "FS_NOT_FOUND: ".to_string();
            m.append(display);
            m
        },
    }
}

/// One line of the ledger.
pub open spec fn log_line(l: LogView) -> Seq<char> {
    l.time + " "@ + pad_right_spec(l.op, 6) + " "@ + (if l.ok {
        "OK  "@
    } else {
        "DENY"@
    }) + " "@ + l.path
}

/// The ledger.
pub open spec fn log_text(log: Seq<LogView>) -> Seq<char> {
    if log.len() == 0 {
        "(暂无访问记录)"@
    } else {
        join_spec(log.map_values(|l: LogView| log_line(l)), "\n"@)
    }
}

fn show_log(log: &Vec<AccessLog>) -> (r: String)
    ensures
        r@ == log_text(log_views(log@)),
{
    if log.len() == 0 {
        return "(暂无访问记录)".to_string();
    }
    let ghost all = log_views(log@);
    let mut lines: Vec<String> = Vec::new();
    let mut i: usize = 0;
    while i < log.len()
        invariant
            i <= log@.len(),
            all == log_views(log@),
            lines@.len() == i,
            forall|k: int| 0 <= k < i ==> (#[trigger] lines@[k])@ == log_line(all[k]),
        decreases log@.len() - i,
    {
        let l = &log[i];
        assert(all[i as int] == l@);
        let mut m = l.time.clone();
        m.append(" ");
        m.append(pad_right(l.op.as_str(), 6).as_str());
        m.append(" ");
        m.append(
            if l.ok {
                "OK  "
            } else {
                "DENY"
            },
        );
        m.append(" ");
        m.append(l.path.as_str());
        lines.push(m);
        i += 1;
    }
    assert(texts(lines@) =~= all.map_values(|l: LogView| log_line(l)));
    join(&lines, "\n")
}

// ---- running the command for files ----

/// Lists a directory.
pub fn fs_ls(
    fs: &mut FsService,
    path: &FsPath,
    meta: Result<FileFacts, MetaFailure>,
    children: Result<Vec<FsChild>, String>,
    time: &str,
) -> (r: String)
    ensures
        match list_refused(old(fs)@, path@, meta) {
            Some(e) => r@ == error_text(e) && final(fs)@ == old(fs)@.logged(
                "ls"@,
                path.display@,
                false,
                time@,
            ),
            None => match children {
                Err(e) => r@ == error_text(FsErrorView::Io(e@)) && final(fs)@
                    == old(fs)@.logged("ls"@, path.display@, false, time@),
                Ok(all) => final(fs)@ == old(fs)@.logged("ls"@, path.display@, true, time@)
                    && exists|sorted: Seq<EntryFacts>|
                    #![trigger listing(path.display@, sorted)]
                    r@ == listing(path.display@, sorted) && in_order(entry_names(sorted))
                        && sorted.to_multiset() == child_entries(all@).to_multiset(),
            },
        },
{
    match fs.list_dir(path, meta, children, time) {
        Ok(sorted) => show_listing(path.display.as_str(), &sorted),
        Err(e) => e.message(),
    }
}

/// Shows a file.
pub fn fs_cat(fs: &mut FsService, path: &FsPath, disk: ReadProbe, time: &str) -> (r: String)
    ensures
        r@ == (match read_outcome(old(fs)@, path@, disk) {
            Ok(t) => t,
            Err(e) => error_text(e),
        }),
        final(fs)@ == read_state(old(fs)@, path@, disk, time@),
{
    match fs.read_text(path, disk, time) {
        Ok(t) => t,
        Err(e) => e.message(),
    }
}

/// Shows what is known of a file.
pub fn fs_stat(fs: &mut FsService, path: &FsPath, meta: Result<FileFacts, MetaFailure>, time: &str) -> (r:
    String)
    ensures
        r@ == (match stat_outcome(old(fs)@, path@, meta) {
            Ok(info) => stat_text(path.display@, info),
            Err(e) => error_text(e),
        }),
        final(fs)@ == old(fs)@.logged(
            "stat"@,
            path.display@,
            stat_outcome(old(fs)@, path@, meta) is Ok,
            time@,
        ),
{
    match fs.stat(path, meta, time) {
        Ok(info) => show_stat(path.display.as_str(), info),
        Err(e) => e.message(),
    }
}

/// Takes note of a file that was written, and says so.
pub fn fs_written(fs: &mut FsService, path: &FsPath, outcome: Result<(), String>, time: &str) -> (r:
    String)
    ensures
        r@ == (match outcome {
            Ok(_) => "已写入 "@ + path.display@,
            Err(e) => error_text(FsErrorView::Io(e@)),
        }),
        final(fs)@ == old(fs)@.logged("write"@, path.display@, outcome is Ok, time@),
{
    match fs.done("write", path, outcome, time) {
        Ok(_) => {
            let mut m = "已写入 ".to_string();
            m.append(path.display.as_str());
            m
        },
        Err(e) => e.message(),
    }
}

/// Takes note of a file that was edited, and says so.
pub fn fs_edited(fs: &mut FsService, path: &FsPath, outcome: Result<(), String>, time: &str) -> (r:
    String)
    ensures
        r@ == (match outcome {
            Ok(_) => "已编辑 "@ + path.display@,
            Err(e) => error_text(FsErrorView::Io(e@)),
        }),
        final(fs)@ == old(fs)@.logged("edit"@, path.display@, outcome is Ok, time@),
{
    match fs.done("edit", path, outcome, time) {
        Ok(_) => {
            let mut m = "已编辑 ".to_string();
            m.append(path.display.as_str());
            m
        },
        Err(e) => e.message(),
    }
}

/// Shows the last lines of the ledger.
pub fn fs_log(fs: &FsService, n: usize) -> (r: String)
    ensures
        r@ == log_text(
            fs@.ledger.reverse().take(
                if n < fs@.ledger.len() {
                    n as int
                } else {
                    fs@.ledger.len() as int
                },
            ),
        ),
{
    show_log(&fs.access_log(n))
}

// ---- the other commands ----

/// Shows the mode of the session, or changes it.
pub fn mode_cmd(fs: &mut FsService, args: &str) -> (r: String)
    ensures
        ({
            let name = trim_spec(args@);
            if name.len() == 0 {
                r@ == "当前模式: "@ + old(fs)@.mode.label_spec() + "(默认 workspace-write)"@
                    && final(fs)@ == old(fs)@
            } else {
                match mode_spec(name) {
                    Some(m) => r@ == "模式已切换: "@ + m.label_spec() && final(fs)@ == (FsView {
                        mode: m,
                        ..old(fs)@
                    }),
                    None => r@ == "错误: "@ + ("未知模式 `"@ + name
                        + "`(可选:read-only / workspace-write / full)"@) && final(fs)@ == old(
                        fs,
                    )@,
                }
            }
        }),
{
    let name = trim(args);
    if name.as_str().unicode_len() == 0 {
        let mut m = "当前模式: ".to_string();
        m.append(fs.mode().label());
        m.append("(默认 workspace-write)");
        return m;
    }
    match SandboxMode::from_str(name.as_str()) {
        Ok(mode) => {
            fs.set_mode(mode);
            let mut m = "模式已切换: ".to_string();
            m.append(mode.label());
            m
        },
        Err(e) => {
            let mut m = "错误: ".to_string();
            m.append(e.as_str());
            m
        },
    }
}

/// Shows the workspace.
pub fn pwd_cmd(fs: &FsService) -> (r: String)
    ensures
        r@ == fs@.policy.root.display,
{
    fs.workspace().display.clone()
}

pub const USAGE_RUN: &'static str = "用法: /run <命令行>";

/// What the command for programs is to run; none where nothing is given.
pub fn run_cmd(args: &str) -> (r: Option<String>)
    ensures
        match r {
            Some(line) => trim_spec(args@).len() > 0 && line@ == trim_spec(args@),
            None => trim_spec(args@).len() == 0,
        },
{
    let line = trim(args);
    if line.as_str().unicode_len() == 0 {
        None
    } else {
        Some(line)
    }
}

/// What a program gave.
pub open spec fn run_text(out: RunOutput) -> Seq<char> {
    "exit="@ + signed_spec(out.status as int) + " ("@ + decimal_spec(out.duration_ms as nat)
        + ")\n--- stdout ---\n"@ + out.stdout@ + "\n--- stderr ---\n"@ + out.stderr@
}

/// Shows what a program gave, or why it did not run.
pub fn run_report(out: Result<RunOutput, String>) -> (r: String)
    ensures
        r@ == (match out {
            Ok(o) => run_text(o),
            Err(e) => "错误: "@ + e@,
        }),
{
    match out {
        Ok(o) => {
            let mut m = "exit=".to_string();
            m.append(signed(o.status).as_str());
            m.append(" (");
            m.append(decimal(o.duration_ms).as_str());
            m.append(")\n--- stdout ---\n");
            m.append(o.stdout.as_str());
            m.append("\n--- stderr ---\n");
            m.append(o.stderr.as_str());
            m
        },
        Err(e) => {
            let mut m = "错误: ".to_string();
            m.append(e.as_str());
            m
        },
    }
}

// ---- the plugin ----

pub struct ToolsPlugin;

pub fn factory() -> (r: ToolsPlugin)
    ensures
        r == ToolsPlugin,
{
    ToolsPlugin
}

/// The context with what the tools plugin registers.
pub open spec fn tools_applied(c: ContextView, scope: u64) -> ContextView {
    c.registered(scope, KindView::Command("fs"@)).registered(
        scope,
        KindView::Command("pwd"@),
    ).registered(scope, KindView::Command("mode"@)).registered(scope, KindView::Command("run"@))
}

/// What comes of applying the plugin: the context after it, and whether it was
/// done.
pub open spec fn tools_outcome(c: ContextView, scope: u64, options: Result<ToolsOptions, String>) -> (
    ContextView,
    Result<(), Seq<char>>,
) {
    if service_at(c.services, FsService::key_spec()) is None {
        (c, Err("缺少 fs 服务"@))
    } else if service_at(c.services, SubprocessService::key_spec()) is None {
        (c, Err("缺少 subprocess 服务"@))
    } else {
        match options {
            Err(e) => (c, Err(e@)),
            Ok(_) => (tools_applied(c, scope), Ok(())),
        }
    }
}

impl Plugin for ToolsPlugin {
    type Options = Result<ToolsOptions, String>;

    open spec fn title(&self) -> Seq<char> {
        "tools"@
    }

    open spec fn needs(&self) -> Seq<Seq<char>> {
        seq!["fs"@, "subprocess"@]
    }

    open spec fn demand(&self) -> nat {
        4
    }

    open spec fn may_come_to(
        &self,
        before: ContextView,
        scope: u64,
        options: Result<ToolsOptions, String>,
        after: ContextView,
        r: Result<(), Seq<char>>,
    ) -> bool {
        (after, r) == tools_outcome(before, scope, options)
    }

    fn name(&self) -> (r: &'static str) {
        "tools"
    }

    fn inject(&self) -> (r: Vec<&'static str>) {
        let mut v: Vec<&'static str> = Vec::new();
        v.push("fs");
        v.push("subprocess");
        assert(names(v@) =~= seq!["fs"@, "subprocess"@]);
        v
    }

    /// Registers the commands.
    fn apply(&self, ctx: &mut Context, scope: u64, options: Result<ToolsOptions, String>) -> (r:
        Result<(), String>)
    {
        let ghost before = ctx@;
        proof {
            grows_reflexive(before, scope);
        }
        if !ctx.has_service::<FsService>() {
            return Err("缺少 fs 服务".to_string());
        }
        if !ctx.has_service::<SubprocessService>() {
            return Err("缺少 subprocess 服务".to_string());
        }
        if let Err(e) = options {
            return Err(e);
        }
        let ghost c0 = ctx@;
        ctx.on_command(scope, "fs");
        let ghost c1 = ctx@;
        ctx.on_command(scope, "pwd");
        let ghost c2 = ctx@;
        ctx.on_command(scope, "mode");
        let ghost c3 = ctx@;
        ctx.on_command(scope, "run");
        proof {
            grows_registered(before, c0, scope, KindView::Command("fs"@));
            grows_registered(before, c1, scope, KindView::Command("pwd"@));
            grows_registered(before, c2, scope, KindView::Command("mode"@));
            grows_registered(before, c3, scope, KindView::Command("run"@));
        }
        Ok(())
    }
}

}  // verus!
