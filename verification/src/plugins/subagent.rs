//! The subagent plugin: tasks that are handed on. A task runs in a context of its
//! own, may use a few commands, and is checked before it is handed back.

use crate::cordis::context::{
    provided_spec, service_at, Context, ContextView, KindView, ProvidedView,
};
use crate::cordis::plugin::{
    grows_counted, grows_provided, grows_reflexive, grows_registered, names, Plugin,
};
use crate::cordis::service::Service;
use crate::llm::client::{
    copy_messages, message_views, said, ChatMessage, ChatRequest, ChatResponse, MessageView,
    RequestView,
};
use crate::llm::LlmService;
use crate::text::number::{decimal, decimal_spec};
use crate::text::search::{opt_text, strip_prefix, strip_prefix_spec};
use crate::text::split::{first_word, first_word_spec, lines, lines_spec};
use crate::text::trim::{is_white, trim, trim_spec, white};
use crate::text::{chars_of, join, join_spec, same, texts};
use vstd::prelude::*;
use vstd::string::*;

verus! {

// ---- what is known of the models ----

pub const REGISTRY_VERSION: &'static str = "2026-08-16";

pub struct ModelProfile {
    pub id: &'static str,
    pub capability: &'static str,
    pub strengths: &'static str,
    pub weaknesses: &'static str,
    pub speed: &'static str,
    pub context: &'static str,
    pub usage: &'static str,
}

#[verifier::ext_equal]
pub struct ProfileView {
    pub id: Seq<char>,
    pub capability: Seq<char>,
    pub strengths: Seq<char>,
    pub weaknesses: Seq<char>,
    pub speed: Seq<char>,
    pub context: Seq<char>,
    pub usage: Seq<char>,
}

impl View for ModelProfile {
    type V = ProfileView;

    open spec fn view(&self) -> ProfileView {
        ProfileView {
            id: self.id@,
            capability: self.capability@,
            strengths: self.strengths@,
            weaknesses: self.weaknesses@,
            speed: self.speed@,
            context: self.context@,
            usage: self.usage@,
        }
    }
}

pub open spec fn profile_views(v: Seq<ModelProfile>) -> Seq<ProfileView> {
    v.map_values(|p: ModelProfile| p@)
}

/// The models that there are.
pub open spec fn profiles_spec() -> Seq<ProfileView> {
    seq![
        ProfileView {
            id: "Qwen3.6-35b"@,
            capability: "文本"@,
            strengths: "中文对话/JSON 微调用/审计(memory 密度高、丢弃精准)/推理代码全对/指令遵循"@,
            weaknesses: "工具纪律:会编造不存在的命令(/fs pwd、/fs find)"@,
            speed: "平均 1.35s;审计重任务 4.8~5.7s"@,
            context: "262144"@,
            usage: "主对话默认;快任务、通用委派"@,
        },
        ProfileView {
            id: "Qwen3.8-27B-4bit"@,
            capability: "视觉 + 文本"@,
            strengths: "多模态识图/critical 提取保真/工具纪律好"@,
            weaknesses: "慢(生成速度低)/memory 压缩偏简"@,
            speed: "平均 3.47s(慢 2.5x);审计 10.6~14.1s"@,
            context: "262144"@,
            usage: "视觉任务;需严格工具纪律的探索;critical 保真的记忆审计"@,
        },
        ProfileView {
            id: "Fun-ASR-Nano-2512-8bit"@,
            capability: "音频→文本"@,
            strengths: "语音识别"@,
            weaknesses: "非 ASR 任务"@,
            speed: "未测"@,
            context: "131072"@,
            usage: "语音输入转写"@,
        },
        ProfileView {
            id: "bge"@,
            capability: "嵌入"@,
            strengths: "文本向量化(检索/聚类)"@,
            weaknesses: "非嵌入任务"@,
            speed: "未测"@,
            context: "8194"@,
            usage: "语义检索、去重"@,
        },
        ProfileView {
            id: "mlx-community--snac_24khz"@,
            capability: "音频"@,
            strengths: "音频 token 化"@,
            weaknesses: "非音频任务"@,
            speed: "未测"@,
            context: "252144"@,
            usage: "音频模型链路内部"@,
        },
        ProfileView {
            id: "MarkItDown"@,
            capability: "文档"@,
            strengths: "文档→Markdown"@,
            weaknesses: "非文档任务"@,
            speed: "未测"@,
            context: "—"@,
            usage: "文档内容提取"@,
        },
    ]
}

/// The models that there are.
pub fn builtin_profiles() -> (r: Vec<ModelProfile>)
    ensures
        profile_views(r@) == profiles_spec(),
{
    let mut v: Vec<ModelProfile> = Vec::new();
    v.push(
        ModelProfile {
            id: "Qwen3.6-35b",
            capability: "文本",
            strengths: "中文对话/JSON 微调用/审计(memory 密度高、丢弃精准)/推理代码全对/指令遵循",
            weaknesses: "工具纪律:会编造不存在的命令(/fs pwd、/fs find)",
            speed: "平均 1.35s;审计重任务 4.8~5.7s",
            context: "262144",
            usage: "主对话默认;快任务、通用委派",
        },
    );
    v.push(
        ModelProfile {
            id: "Qwen3.8-27B-4bit",
            capability: "视觉 + 文本",
            strengths: "多模态识图/critical 提取保真/工具纪律好",
            weaknesses: "慢(生成速度低)/memory 压缩偏简",
            speed: "平均 3.47s(慢 2.5x);审计 10.6~14.1s",
            context: "262144",
            usage: "视觉任务;需严格工具纪律的探索;critical 保真的记忆审计",
        },
    );
    v.push(
        ModelProfile {
            id: "Fun-ASR-Nano-2512-8bit",
            capability: "音频→文本",
            strengths: "语音识别",
            weaknesses: "非 ASR 任务",
            speed: "未测",
            context: "131072",
            usage: "语音输入转写",
        },
    );
    v.push(
        ModelProfile {
            id: "bge",
            capability: "嵌入",
            strengths: "文本向量化(检索/聚类)",
            weaknesses: "非嵌入任务",
            speed: "未测",
            context: "8194",
            usage: "语义检索、去重",
        },
    );
    v.push(
        ModelProfile {
            id: "mlx-community--snac_24khz",
            capability: "音频",
            strengths: "音频 token 化",
            weaknesses: "非音频任务",
            speed: "未测",
            context: "252144",
            usage: "音频模型链路内部",
        },
    );
    v.push(
        ModelProfile {
            id: "MarkItDown",
            capability: "文档",
            strengths: "文档→Markdown",
            weaknesses: "非文档任务",
            speed: "未测",
            context: "—",
            usage: "文档内容提取",
        },
    );
    assert(profile_views(v@) =~= profiles_spec());
    v
}

/// One line of the table of models.
pub open spec fn profile_line(p: ProfileView) -> Seq<char> {
    "- "@ + p.id + ": 能力["@ + p.capability + "] 擅长["@ + p.strengths + "] 不擅长["@
        + p.weaknesses + "] 速度["@ + p.speed + "] 上下文["@ + p.context + "] 建议["@ + p.usage
        + "]\n"@
}

pub open spec fn profile_lines(v: Seq<ProfileView>) -> Seq<char>
    decreases v.len(),
{
    if v.len() == 0 {
        Seq::empty()
    } else {
        profile_lines(v.drop_last()) + profile_line(v.last())
    }
}

/// When to hand a task on, and to whom.
pub const DELEGATION_RULES: &'static str = "\n# 委派准则\n\
- 能直接答的问题不要委派;\n\
- 需要其他模型能力(看图/转写/文档)→ 用 /subagent --model <模型> 委派;\n\
- 可分解为多个独立子任务 → 用 /subagent --parallel \"任务A\" | \"任务B\" 并发(≤3);\n\
- 探索型任务(翻文件/长调研)→ 用 /subagent --tools 委派,隔离试错过程;\n\
- 收到子任务结果先审查:与已知事实矛盾/不合常识/没回答任务 → 不整合,\n\
指出问题,必要时带审查意见重委派一次;\n\
- 委派有成本(每次约 1~7 秒),优先用最快的模型完成。";

/// The table of models, and when to hand a task on.
pub fn routing_table() -> (r: String)
    ensures
        r@ == "# 模型路由表(档案 "@ + REGISTRY_VERSION@ + ")\n"@ + profile_lines(profiles_spec())
            + DELEGATION_RULES@,
{
    let mut s = "# 模型路由表(档案 ".to_string();
    s.append(REGISTRY_VERSION);
    s.append(")\n");
    let ghost head = s@;
    let profiles = builtin_profiles();
    let ghost all = profile_views(profiles@);
    let mut i: usize = 0;
    assert(all.take(0).len() == 0);
    assert(s@ =~= head + profile_lines(all.take(0)));
    while i < profiles.len()
        invariant
            i <= profiles@.len(),
            all == profile_views(profiles@),
            s@ == head + profile_lines(all.take(i as int)),
        decreases profiles@.len() - i,
    {
        let p = &profiles[i];
        assert(all[i as int] == p@);
        assert(all.take(i as int + 1).drop_last() =~= all.take(i as int));
        let mut line = "- ".to_string();
        line.append(p.id);
        line.append(": 能力[");
        line.append(p.capability);
        line.append("] 擅长[");
        line.append(p.strengths);
        line.append("] 不擅长[");
        line.append(p.weaknesses);
        line.append("] 速度[");
        line.append(p.speed);
        line.append("] 上下文[");
        line.append(p.context);
        line.append("] 建议[");
        line.append(p.usage);
        line.append("]\n");
        s.append(line.as_str());
        assert(s@ =~= head + profile_lines(all.take(i as int + 1)));
        i += 1;
    }
    assert(all.take(i as int) =~= all);
    s.append(DELEGATION_RULES);
    s
}

/// What the main agent is told of handing on.
pub const LEAN_HINT: &'static str = "你有委派工具 /subagent 与模型查询 /models。可用模型:文本 Qwen3.6-35b(快)、视觉 Qwen3.8-27B-4bit、语音 Fun-ASR-Nano、文档 MarkItDown。详细档案与委派准则:/models 查询。收到子任务结果先审查:与已知事实矛盾/没答任务 → 不整合、指出问题。";

// ---- commands in what a model says ----

/// Whether a task may use a command. It may not hand itself on.
pub open spec fn whitelisted(name: Seq<char>) -> bool {
    name == "fs"@ || name == "run"@ || name == "pwd"@ || name == "mode"@
}

fn in_whitelist(name: &str) -> (r: bool)
    ensures
        r == whitelisted(name@),
{
    same(name, "fs") || same(name, "run") || same(name, "pwd") || same(name, "mode")
}

/// How many commands a task may use one after the other.
pub const MAX_SUB_TOOL_ROUNDS: usize = 3;

/// The command on a line, if it is one that a task may use.
pub open spec fn line_command(line: Seq<char>) -> Option<Seq<char>> {
    match strip_prefix_spec(trim_spec(line), "/"@) {
        None => None,
        Some(rest) => match first_word_spec(rest) {
            None => None,
            Some(name) => if whitelisted(name) {
                Some(trim_spec(rest))
            } else {
                None
            },
        },
    }
}

/// The command on the first line that has one.
pub open spec fn first_command(lines: Seq<Seq<char>>) -> Option<Seq<char>>
    decreases lines.len(),
{
    if lines.len() == 0 {
        None
    } else {
        match line_command(lines[0]) {
            Some(c) => Some(c),
            None => first_command(lines.drop_first()),
        }
    }
}

/// The first command in a text.
pub open spec fn first_cmd_spec(text: Seq<char>) -> Option<Seq<char>> {
    first_command(lines_spec(text))
}

fn command_on(line: &str) -> (r: Option<String>)
    ensures
        opt_text(r) == line_command(line@),
{
    let l = trim(line);
    match strip_prefix(l.as_str(), "/") {
        None => None,
        Some(rest) => match first_word(rest.as_str()) {
            None => None,
            Some(name) => if in_whitelist(name.as_str()) {
                Some(trim(rest.as_str()))
            } else {
                None
            },
        },
    }
}

/// The first command in what a model says.
pub fn first_cmd(text: &str) -> (r: Option<String>)
    ensures
        opt_text(r) == first_cmd_spec(text@),
{
    let all = lines(text);
    let ghost t = texts(all@);
    let mut i: usize = 0;
    assert(t.skip(0) =~= t);
    while i < all.len()
        invariant
            i <= all@.len(),
            t == texts(all@),
            t == lines_spec(text@),
            first_command(t) == first_command(t.skip(i as int)),
        decreases all@.len() - i,
    {
        let ghost rest = t.skip(i as int);
        assert(rest[0] == all@[i as int]@);
        assert(rest.drop_first() =~= t.skip(i as int + 1));
        if let Some(c) = command_on(all[i].as_str()) {
            return Some(c);
        }
        i += 1;
    }
    assert(t.skip(i as int).len() == 0);
    None
}

/// The lines that hold no command.
pub open spec fn plain_lines(lines: Seq<Seq<char>>) -> Seq<Seq<char>>
    decreases lines.len(),
{
    if lines.len() == 0 {
        Seq::empty()
    } else {
        let rest = plain_lines(lines.drop_last());
        if first_cmd_spec(trim_spec(lines.last())) is None {
            rest.push(lines.last())
        } else {
            rest
        }
    }
}

/// A text without the lines that hold a command.
pub open spec fn sanitized(text: Seq<char>) -> Seq<char> {
    trim_spec(join_spec(plain_lines(lines_spec(text)), "\n"@))
}

/// What a model says, without the lines that hold a command.
pub fn sanitize(text: &str) -> (r: String)
    ensures
        r@ == sanitized(text@),
{
    let all = lines(text);
    let ghost t = texts(all@);
    let mut kept: Vec<String> = Vec::new();
    let mut i: usize = 0;
    assert(t.take(0).len() == 0);
    while i < all.len()
        invariant
            i <= all@.len(),
            t == texts(all@),
            texts(kept@) =~= plain_lines(t.take(i as int)),
        decreases all@.len() - i,
    {
        assert(t.take(i as int + 1).drop_last() =~= t.take(i as int));
        assert(t[i as int] == all@[i as int]@);
        if first_cmd(trim(all[i].as_str()).as_str()).is_none() {
            kept.push(all[i].clone());
        }
        i += 1;
    }
    assert(t.take(i as int) =~= t);
    trim(join(&kept, "\n").as_str())
}

// ---- arguments ----

pub struct SubagentArgs {
    /// The tasks that run at once; none where there is one task alone.
    pub parallel: Vec<String>,
    pub model: Option<String>,
    pub tools: bool,
    pub task: String,
}

/// The words of a line: what stands in quotes is one word, and the rest is parted
/// by white space. `cur` is the word that is being read, `quoted` whether it
/// stands in quotes.
pub open spec fn tokens(s: Seq<char>, cur: Seq<char>, quoted: bool) -> Seq<Seq<char>>
    decreases s.len(),
{
    let done = if cur.len() > 0 {
        seq![cur]
    } else {
        Seq::empty()
    };
    if s.len() == 0 {
        done
    } else {
        let c = s[0];
        let rest = s.drop_first();
        if c == '"' {
            if quoted {
                done + tokens(rest, Seq::empty(), false)
            } else {
                tokens(rest, cur, true)
            }
        } else if quoted {
            tokens(rest, cur.push(c), true)
        } else if is_white(c) {
            done + tokens(rest, Seq::empty(), false)
        } else {
            tokens(rest, cur.push(c), false)
        }
    }
}

/// The words of a line.
pub fn tokenize(s: &str) -> (r: Vec<String>)
    ensures
        texts(r@) == tokens(s@, Seq::empty(), false),
{
    let v = chars_of(s);
    let mut toks: Vec<String> = Vec::new();
    let mut cur = String::new();
    let mut quoted = false;
    let ghost all = tokens(s@, Seq::empty(), false);
    let mut i: usize = 0;
    assert(v@.skip(0) =~= s@);
    assert(cur@ =~= Seq::empty());
    assert(texts(toks@) + tokens(v@.skip(0), cur@, quoted) =~= all);
    while i < v.len()
        invariant
            i <= v@.len(),
            texts(toks@) + tokens(v@.skip(i as int), cur@, quoted) == all,
        decreases v@.len() - i,
    {
        let c = v[i];
        let ghost rest = v@.skip(i as int);
        let ghost before = texts(toks@);
        let ghost word = cur@;
        assert(rest[0] == c);
        assert(rest.drop_first() =~= v@.skip(i as int + 1));
        let ends = if c == '"' {
            quoted
        } else {
            !quoted && white(c)
        };
        if ends {
            if cur.as_str().unicode_len() > 0 {
                toks.push(cur);
                assert(texts(toks@) =~= before.push(word));
            }
            cur = String::new();
            quoted = false;
            assert(cur@ =~= Seq::empty());
            assert(texts(toks@) + tokens(v@.skip(i as int + 1), cur@, quoted) =~= before + tokens(
                rest,
                word,
                c == '"',
            ));
        } else if c == '"' {
            quoted = true;
        } else {
            cur.push(c);
        }
        i += 1;
    }
    assert(v@.skip(i as int).len() == 0);
    let ghost before = texts(toks@);
    let ghost word = cur@;
    if cur.as_str().unicode_len() > 0 {
        toks.push(cur);
        assert(texts(toks@) =~= before.push(word));
    }
    assert(texts(toks@) =~= all);
    toks
}

#[verifier::ext_equal]
pub struct ArgsView {
    pub parallel: Seq<Seq<char>>,
    pub model: Option<Seq<char>>,
    pub tools: bool,
    pub saw_parallel: bool,
    pub task: Seq<Seq<char>>,
}

pub open spec fn no_args() -> ArgsView {
    ArgsView {
        parallel: Seq::empty(),
        model: None,
        tools: false,
        saw_parallel: false,
        task: Seq::empty(),
    }
}

/// What some words mean, after others that meant `a`.
pub open spec fn read_args(toks: Seq<Seq<char>>, a: ArgsView) -> ArgsView
    decreases toks.len(),
{
    if toks.len() == 0 {
        a
    } else {
        let t = toks[0];
        let rest = toks.drop_first();
        if t == "--parallel"@ {
            read_args(rest, ArgsView { saw_parallel: true, ..a })
        } else if t == "--model"@ {
            if rest.len() > 0 {
                read_args(rest.drop_first(), ArgsView { model: Some(rest[0]), ..a })
            } else {
                a
            }
        } else if t == "--tools"@ {
            read_args(rest, ArgsView { tools: true, ..a })
        } else if t == "|"@ {
            read_args(rest, a)
        } else if a.saw_parallel {
            read_args(rest, ArgsView { parallel: a.parallel.push(t), ..a })
        } else {
            read_args(rest, ArgsView { task: a.task.push(t), ..a })
        }
    }
}

/// What a line of arguments means.
pub open spec fn args_spec(args: Seq<char>) -> ArgsView {
    read_args(tokens(args, Seq::empty(), false), no_args())
}

/// What a line of arguments means.
pub fn parse_args(args: &str) -> (r: SubagentArgs)
    ensures
        texts(r.parallel@) == args_spec(args@).parallel,
        opt_text(r.model) == args_spec(args@).model,
        r.tools == args_spec(args@).tools,
        r.task@ == join_spec(args_spec(args@).task, " "@),
{
    let toks = tokenize(args);
    let ghost t = texts(toks@);
    let ghost all = read_args(t, no_args());
    let mut parallel: Vec<String> = Vec::new();
    let mut model: Option<String> = None;
    let mut tools = false;
    let mut saw_parallel = false;
    let mut task: Vec<String> = Vec::new();
    let mut i: usize = 0;
    let n: usize = toks.len();
    let ghost mut a = no_args();
    assert(t.skip(0) =~= t);
    assert(texts(parallel@) =~= Seq::empty());
    assert(texts(task@) =~= Seq::empty());
    while i < n
        invariant
            i <= n,
            n == toks@.len(),
            t == texts(toks@),
            a == (ArgsView {
                parallel: texts(parallel@),
                model: opt_text(model),
                tools,
                saw_parallel,
                task: texts(task@),
            }),
            all == read_args(t.skip(i as int), a),
        decreases n - i,
    {
        let ghost rest = t.skip(i as int);
        let ghost had = a;
        assert(rest[0] == toks@[i as int]@);
        assert(rest.drop_first() =~= t.skip(i as int + 1));
        let w = toks[i].as_str();
        if same(w, "--parallel") {
            saw_parallel = true;
            proof {
                a = ArgsView { saw_parallel: true, ..had };
            }
            i += 1;
        } else if same(w, "--model") {
            if i + 1 < n {
                assert(rest.drop_first()[0] == toks@[i as int + 1]@);
                assert(rest.drop_first().drop_first() =~= t.skip(i as int + 2));
                model = Some(toks[i + 1].clone());
                proof {
                    a = ArgsView { model: Some(toks@[i as int + 1]@), ..had };
                }
                i += 2;
            } else {
                assert(t.skip(i as int + 1).len() == 0);
                i += 1;
            }
        } else if same(w, "--tools") {
            tools = true;
            proof {
                a = ArgsView { tools: true, ..had };
            }
            i += 1;
        } else if same(w, "|") {
            i += 1;
        } else if saw_parallel {
            parallel.push(toks[i].clone());
            assert(texts(parallel@) =~= had.parallel.push(rest[0]));
            proof {
                a = ArgsView { parallel: had.parallel.push(rest[0]), ..had };
            }
            i += 1;
        } else {
            task.push(toks[i].clone());
            assert(texts(task@) =~= had.task.push(rest[0]));
            proof {
                a = ArgsView { task: had.task.push(rest[0]), ..had };
            }
            i += 1;
        }
    }
    assert(t.skip(i as int).len() == 0);
    SubagentArgs { parallel, model, tools, task: join(&task, " ") }
}

// ---- instructions ----

pub const SUB_SYSTEM_TOOLS: &'static str = "你是 localai 的子任务执行 agent,由主 agent 委派。你在独立上下文中执行,不知道主对话的任何历史。\n\
要求:\n\
- 直接输出任务的最终结果(结论/代码/数据),不要复述任务、不要寒暄、不要输出思考过程;\n\
- 需要查看文件或执行命令时,单独输出一行以 / 开头的命令(/fs ls . /fs cat 文件 /run 命令),\
结果会回传,你再基于结果回答;\n\
- 仅使用:/fs ls|cat|write|edit|stat|log、/run、/pwd、/mode。";

pub const SUB_SYSTEM_PLAIN: &'static str = "你是 localai 的子任务执行 agent,由主 agent 委派。你在独立上下文中执行,不知道主对话的任何历史。\n\
要求:\n\
- 直接输出任务的最终结果(结论/代码/数据),不要复述任务、不要寒暄、不要输出思考过程;\n\
- 你没有工具,基于你的知识直接回答。";

pub const CHECK_HEAD: &'static str = "你是 localai 的子任务复核。下面是主 agent 委派的任务和你的一次回答。\n\
检查:① 是否回答了任务;② 有无明显错误或遗漏。\n\
若有需要补充修正的地方,直接输出修正后的最终回答;若已完整,原样返回。\n\
只输出最终回答,不要输出分析过程。\n\n\
任务:\n";

pub open spec fn sub_system_spec(use_tools: bool) -> Seq<char> {
    if use_tools {
        SUB_SYSTEM_TOOLS@
    } else {
        SUB_SYSTEM_PLAIN@
    }
}

/// The instruction for a task.
pub fn sub_system(use_tools: bool) -> (r: String)
    ensures
        r@ == sub_system_spec(use_tools),
{
    if use_tools {
        SUB_SYSTEM_TOOLS.to_string()
    } else {
        SUB_SYSTEM_PLAIN.to_string()
    }
}

pub open spec fn check_system_spec(task: Seq<char>, answer: Seq<char>) -> Seq<char> {
    CHECK_HEAD@ + task + "\n\n你的回答:\n"@ + answer
}

/// The instruction by which an answer is checked.
pub fn check_system(task: &str, answer: &str) -> (r: String)
    ensures
        r@ == check_system_spec(task@, answer@),
{
    let mut s = CHECK_HEAD.to_string();
    s.append(task);
    s.append("\n\n你的回答:\n");
    s.append(answer);
    s
}

// ---- the service ----

#[derive(Debug)]
pub struct SubagentOptions {
    /// The model for tasks; the model in force where none is given.
    pub model: Option<String>,
    /// How often a task is asked for: once, and then to be checked.
    pub max_rounds: usize,
    /// How many tasks run at once.
    pub parallel_limit: usize,
    /// Whether tasks may use commands unless they are told otherwise.
    pub tools: bool,
}

impl Default for SubagentOptions {
    fn default() -> (r: SubagentOptions)
        ensures
            r.model is None,
            r.max_rounds == 2,
            r.parallel_limit == 3,
            !r.tools,
    {
        SubagentOptions { model: None, max_rounds: 2, parallel_limit: 3, tools: false }
    }
}

pub struct SubagentService {
    pub default_model: Option<String>,
    pub max_rounds: usize,
    pub parallel_limit: usize,
    pub tools_default: bool,
    pub next_id: u64,
    /// The tasks that are running.
    pub active: Vec<u64>,
}

impl Service for SubagentService {
    open spec fn key_spec() -> u64 {
        7
    }

    open spec fn title() -> Seq<char> {
        "subagent"@
    }

    fn key() -> (r: u64) {
        7
    }

    fn service_name_static() -> (r: &'static str) {
        "subagent"
    }
}

/// What a line of arguments asks for.
pub enum SubagentPlan {
    /// How the command is used.
    Usage(&'static str),
    /// One task: what, by which model, and whether it may use commands.
    Single(String, String, bool),
    /// Some tasks at once.
    Parallel(Vec<String>, String, bool),
}

pub const USAGE_SUBAGENT: &'static str = "用法: /subagent <任务> [--model <模型>] [--parallel \"A\" | \"B\"] [--tools]";

pub const USAGE_PARALLEL: &'static str = "用法: /subagent --parallel \"任务A\" | \"任务B\"";

/// The tasks that are not blank.
pub open spec fn real_tasks(v: Seq<Seq<char>>) -> Seq<Seq<char>>
    decreases v.len(),
{
    if v.len() == 0 {
        Seq::empty()
    } else {
        let rest = real_tasks(v.drop_last());
        if trim_spec(v.last()).len() > 0 {
            rest.push(v.last())
        } else {
            rest
        }
    }
}

/// The first tasks, as many as may run at once.
pub open spec fn admitted(v: Seq<Seq<char>>, limit: usize) -> Seq<Seq<char>> {
    let named = real_tasks(v);
    if named.len() > limit {
        named.take(limit as int)
    } else {
        named
    }
}

/// What is handed back of some tasks: each result under its number.
pub open spec fn combined_spec(results: Seq<Seq<char>>) -> Seq<char> {
    join_spec(
        Seq::new(
            results.len(),
            |i: int| "[子任务"@ + decimal_spec((i + 1) as nat) + "]\n"@ + results[i],
        ),
        "\n\n"@,
    )
}

/// A task that is running: how often it was asked for, and the last answer.
pub struct SubRun {
    pub id: u64,
    pub task: String,
    pub use_tools: bool,
    pub calls: usize,
    pub answer: String,
}

/// One call of a running task.
pub struct SubCall {
    pub messages: Vec<ChatMessage>,
    pub use_tools: bool,
    /// How many commands it has used.
    pub rounds: usize,
}

#[verifier::ext_equal]
pub struct SubCallView {
    pub messages: Seq<MessageView>,
    pub use_tools: bool,
    pub rounds: usize,
}

impl View for SubCall {
    type V = SubCallView;

    open spec fn view(&self) -> SubCallView {
        SubCallView {
            messages: message_views(self.messages@),
            use_tools: self.use_tools,
            rounds: self.rounds,
        }
    }
}

/// What follows a reply within a call.
pub enum SubStep {
    /// The call is over, with this result.
    Done(String),
    /// This command is to be run.
    Tool(String),
}

/// The beginning of a call: the instruction, and the task where there is one.
pub open spec fn call_spec(system: Seq<char>, user: Seq<char>, use_tools: bool) -> SubCallView {
    SubCallView {
        messages: if user.len() > 0 {
            seq![said("system"@, system), said("user"@, user)]
        } else {
            seq![said("system"@, system)]
        },
        use_tools,
        rounds: 0,
    }
}

/// The call that a running task makes next; none where it is over.
pub open spec fn next_call_spec(run: SubRun, max_rounds: usize, cancelled: bool) -> Option<
    SubCallView,
> {
    if run.calls == 0 {
        Some(call_spec(sub_system_spec(run.use_tools), run.task@, run.use_tools))
    } else if run.calls < max_rounds && !cancelled {
        Some(call_spec(check_system_spec(run.task@, run.answer@), Seq::empty(), false))
    } else {
        None
    }
}

/// What follows a reply: without commands it is the result; otherwise a command
/// in it is run, unless enough have been, and the result holds no command.
pub open spec fn step_spec(call: SubCallView, reply: Seq<char>) -> Result<Seq<char>, Seq<char>> {
    if !call.use_tools {
        Ok(reply)
    } else if call.rounds >= MAX_SUB_TOOL_ROUNDS {
        Ok(sanitized(reply))
    } else {
        match first_cmd_spec(reply) {
            None => Ok(sanitized(reply)),
            Some(cmd) => Err(cmd),
        }
    }
}

/// Results as one text, each under its number.
pub fn combine(results: &Vec<String>) -> (r: String)
    ensures
        r@ == combined_spec(texts(results@)),
{
    let ghost all = texts(results@);
    let mut parts: Vec<String> = Vec::new();
    let mut i: usize = 0;
    while i < results.len()
        invariant
            i <= results@.len(),
            all == texts(results@),
            parts@.len() == i,
            forall|k: int|
                0 <= k < i ==> (#[trigger] parts@[k])@ == "[子任务"@ + decimal_spec(
                    (k + 1) as nat,
                ) + "]\n"@ + all[k],
        decreases results@.len() - i,
    {
        let mut m = "[子任务".to_string();
        m.append(decimal(i as u128 + 1).as_str());
        m.append("]\n");
        m.append(results[i].as_str());
        parts.push(m);
        i += 1;
    }
    assert(texts(parts@) =~= Seq::new(
        all.len(),
        |i: int| "[子任务"@ + decimal_spec((i + 1) as nat) + "]\n"@ + all[i],
    ));
    join(&parts, "\n\n")
}

/// What a call is told of a reply: its content, or that the call failed. A task
/// that is cancelled asks no more, and is told nothing.
pub fn reply_text(reply: Option<Result<ChatResponse, String>>) -> (r: String)
    ensures
        r@ == (match reply {
            Some(Ok(resp)) => resp.content@,
            Some(Err(e)) => "(子任务调用失败: "@ + e@ + ")"@,
            None => Seq::empty(),
        }),
{
    match reply {
        Some(Ok(resp)) => resp.content,
        Some(Err(e)) => {
            let mut m = "(子任务调用失败: ".to_string();
            m.append(e.as_str());
            m.append(")");
            m
        },
        None => {
            let m = String::new();
            assert(m@ =~= Seq::empty());
            m
        },
    }
}

impl SubCall {
    /// Begins a call.
    pub fn start(system: &str, user: &str, use_tools: bool) -> (r: SubCall)
        ensures
            r@ == call_spec(system@, user@, use_tools),
    {
        let mut messages: Vec<ChatMessage> = Vec::new();
        messages.push(ChatMessage::new("system", system));
        if user.unicode_len() > 0 {
            messages.push(ChatMessage::new("user", user));
        }
        let r = SubCall { messages, use_tools, rounds: 0 };
        assert(r@.messages =~= call_spec(system@, user@, use_tools).messages);
        r
    }

    /// What is sent to the model.
    pub fn request(&self, model: &str) -> (r: ChatRequest)
        ensures
            r@ == (RequestView {
                model: model@,
                messages: self@.messages,
                max_tokens: 900,
                json: false,
                enable_thinking: false,
            }),
    {
        ChatRequest {
            model: model.to_string(),
            messages: copy_messages(&self.messages),
            max_tokens: 900,
            json: false,
            enable_thinking: false,
        }
    }

    /// Decides what follows a reply.
    pub fn replied(&mut self, reply: &str) -> (r: SubStep)
        ensures
            match step_spec(old(self)@, reply@) {
                Ok(t) => final(self)@ == old(self)@ && (r matches SubStep::Done(x) && x@ == t),
                Err(cmd) => final(self)@ == (SubCallView {
                    messages: old(self)@.messages.push(said("assistant"@, reply@)),
                    ..old(self)@
                }) && (r matches SubStep::Tool(x) && x@ == cmd),
            },
    {
        if !self.use_tools {
            return SubStep::Done(reply.to_string());
        }
        if self.rounds >= MAX_SUB_TOOL_ROUNDS {
            return SubStep::Done(sanitize(reply));
        }
        match first_cmd(reply) {
            None => SubStep::Done(sanitize(reply)),
            Some(cmd) => {
                let ghost before = self@;
                self.messages.push(ChatMessage::new("assistant", reply));
                assert(self@.messages =~= before.messages.push(said("assistant"@, reply@)));
                SubStep::Tool(cmd)
            },
        }
    }

    /// Takes what a command gave; none where there is no such command.
    pub fn ran(&mut self, cmd: &str, out: Option<String>)
        requires
            old(self)@.rounds < MAX_SUB_TOOL_ROUNDS,
        ensures
            final(self)@ == (SubCallView {
                messages: old(self)@.messages.push(
                    said(
                        "user"@,
                        "[工具结果 /"@ + cmd@ + "]\n"@ + (match out {
                            Some(o) => o@,
                            None => "(命令未注册)"@,
                        }),
                    ),
                ),
                rounds: (old(self)@.rounds + 1) as usize,
                ..old(self)@
            }),
    {
        let ghost before = self@;
        let mut m = "[工具结果 /".to_string();
        m.append(cmd);
        m.append("]\n");
        match out {
            Some(o) => {
                m.append(o.as_str());
            },
            None => {
                m.append("(命令未注册)");
            },
        }
        self.messages.push(ChatMessage::new("user", m.as_str()));
        self.rounds = self.rounds + 1;
        assert(self@.messages =~= before.messages.push(said("user"@, m@)));
    }
}

impl SubagentService {
    /// The service for some options.
    pub fn new(opts: SubagentOptions) -> (r: SubagentService)
        ensures
            r.default_model == opts.model,
            r.max_rounds == (if opts.max_rounds < 1 {
                1
            } else {
                opts.max_rounds
            }),
            r.parallel_limit == (if opts.parallel_limit < 1 {
                1
            } else {
                opts.parallel_limit
            }),
            r.tools_default == opts.tools,
            r.next_id == 1,
            r.active@.len() == 0,
    {
        SubagentService {
            default_model: opts.model,
            max_rounds: if opts.max_rounds < 1 {
                1
            } else {
                opts.max_rounds
            },
            parallel_limit: if opts.parallel_limit < 1 {
                1
            } else {
                opts.parallel_limit
            },
            tools_default: opts.tools,
            next_id: 1,
            active: Vec::new(),
        }
    }

    /// The table of models.
    pub fn handle_models(&self) -> (r: String)
        ensures
            r@ == "# 模型路由表(档案 "@ + REGISTRY_VERSION@ + ")\n"@ + profile_lines(
                profiles_spec(),
            ) + DELEGATION_RULES@,
    {
        routing_table()
    }

    /// The model for some arguments: the one that they name, the one of the
    /// options, or the one in force.
    pub open spec fn model_spec(&self, a: ArgsView, current: Seq<char>) -> Seq<char> {
        match a.model {
            Some(m) => m,
            None => match self.default_model {
                Some(m) => m@,
                None => current,
            },
        }
    }

    /// Decides what a line of arguments asks for.
    pub fn handle_subagent(&self, args: &str, current: &str) -> (r: SubagentPlan)
        ensures
            ({
                let a = args_spec(args@);
                let model = self.model_spec(a, current@);
                let tools = a.tools || self.tools_default;
                if a.parallel.len() == 0 {
                    let task = join_spec(a.task, " "@);
                    if task.len() == 0 {
                        r matches SubagentPlan::Usage(u) && u@ == USAGE_SUBAGENT@
                    } else {
                        r matches SubagentPlan::Single(t, m, b) && t@ == task && m@ == model && b
                            == tools
                    }
                } else {
                    let tasks = admitted(a.parallel, self.parallel_limit);
                    if tasks.len() == 0 {
                        r matches SubagentPlan::Usage(u) && u@ == USAGE_PARALLEL@
                    } else {
                        r matches SubagentPlan::Parallel(ts, m, b) && texts(ts@) == tasks && m@
                            == model && b == tools
                    }
                }
            }),
    {
        let parsed = parse_args(args);
        let model = match parsed.model {
            Some(m) => m,
            None => match &self.default_model {
                Some(m) => m.clone(),
                None => current.to_string(),
            },
        };
        let use_tools = parsed.tools || self.tools_default;
        if parsed.parallel.len() == 0 {
            if parsed.task.as_str().unicode_len() == 0 {
                return SubagentPlan::Usage(USAGE_SUBAGENT);
            }
            return SubagentPlan::Single(parsed.task, model, use_tools);
        }
        let ghost all = texts(parsed.parallel@);
        let mut tasks: Vec<String> = Vec::new();
        let mut i: usize = 0;
        assert(all.take(0).len() == 0);
        while i < parsed.parallel.len()
            invariant
                i <= parsed.parallel@.len(),
                all == texts(parsed.parallel@),
                texts(tasks@) =~= real_tasks(all.take(i as int)),
            decreases parsed.parallel@.len() - i,
        {
            assert(all.take(i as int + 1).drop_last() =~= all.take(i as int));
            assert(all[i as int] == parsed.parallel@[i as int]@);
            if trim(parsed.parallel[i].as_str()).as_str().unicode_len() > 0 {
                tasks.push(parsed.parallel[i].clone());
            }
            i += 1;
        }
        assert(all.take(i as int) =~= all);
        let ghost named = texts(tasks@);
        if tasks.len() > self.parallel_limit {
            tasks.truncate(self.parallel_limit);
            assert(texts(tasks@) =~= named.take(self.parallel_limit as int));
        }
        if tasks.len() == 0 {
            return SubagentPlan::Usage(USAGE_PARALLEL);
        }
        SubagentPlan::Parallel(tasks, model, use_tools)
    }

    /// Begins a task under a number of its own; what comes back is the task and a
    /// status line.
    pub fn begin(&mut self, task: &str, use_tools: bool) -> (r: (SubRun, String))
        ensures
            r.0.id == old(self).next_id,
            r.0.task@ == task@,
            r.0.use_tools == use_tools,
            r.0.calls == 0,
            r.0.answer@.len() == 0,
            r.1@ == "[subagent#"@ + decimal_spec(old(self).next_id as nat) + "] 开始: "@ + task@,
            final(self).next_id == old(self).next_id.wrapping_add(1),
            final(self).active@ == old(self).active@.push(old(self).next_id),
            final(self).default_model == old(self).default_model,
            final(self).max_rounds == old(self).max_rounds,
            final(self).parallel_limit == old(self).parallel_limit,
            final(self).tools_default == old(self).tools_default,
    {
        let id: u64 = self.next_id;
        self.next_id = id.wrapping_add(1);
        self.active.push(id);
        let mut m = "[subagent#".to_string();
        m.append(decimal(id as u128).as_str());
        m.append("] 开始: ");
        m.append(task);
        (
            SubRun {
                id,
                task: task.to_string(),
                use_tools,
                calls: 0,
                answer: String::new(),
            },
            m,
        )
    }

    /// The call that a task makes next; none where it is over.
    pub fn next_call(&self, run: &SubRun, cancelled: bool) -> (r: Option<SubCall>)
        ensures
            match next_call_spec(*run, self.max_rounds, cancelled) {
                Some(c) => r is Some && r->0@ == c,
                None => r is None,
            },
    {
        if run.calls == 0 {
            Some(
                SubCall::start(
                    sub_system(run.use_tools).as_str(),
                    run.task.as_str(),
                    run.use_tools,
                ),
            )
        } else if run.calls < self.max_rounds && !cancelled {
            let check = check_system(run.task.as_str(), run.answer.as_str());
            let empty = String::new();
            assert(empty@ =~= Seq::empty());
            Some(SubCall::start(check.as_str(), empty.as_str(), false))
        } else {
            None
        }
    }

    /// Takes the result of a call.
    pub fn called(&self, run: SubRun, answer: String) -> (r: SubRun)
        requires
            run.calls < self.max_rounds,
        ensures
            r.id == run.id,
            r.task == run.task,
            r.use_tools == run.use_tools,
            r.calls == run.calls + 1,
            r.answer == answer,
    {
        SubRun {
            id: run.id,
            task: run.task,
            use_tools: run.use_tools,
            calls: run.calls + 1,
            answer,
        }
    }

    /// Ends a task: what comes back is its result and a status line.
    pub fn finish(&mut self, run: SubRun, cancelled: bool, elapsed: &str) -> (r: (String, String))
        ensures
            r.0@ == (if cancelled {
                "(已取消)"@
            } else {
                run.answer@
            }),
            r.1@ == (if cancelled {
                "[subagent#"@ + decimal_spec(run.id as nat) + "] 已取消"@
            } else {
                "[subagent#"@ + decimal_spec(run.id as nat) + "] 完成 ("@ + elapsed@ + ")"@
            }),
            final(self).active@ == without_id(old(self).active@, run.id),
            final(self).next_id == old(self).next_id,
            final(self).default_model == old(self).default_model,
            final(self).max_rounds == old(self).max_rounds,
            final(self).parallel_limit == old(self).parallel_limit,
            final(self).tools_default == old(self).tools_default,
    {
        let ghost all = self.active@;
        let mut kept: Vec<u64> = Vec::new();
        let mut i: usize = 0;
        assert(all.take(0).len() == 0);
        while i < self.active.len()
            invariant
                i <= self.active@.len(),
                all == self.active@,
                kept@ =~= without_id(all.take(i as int), run.id),
            decreases self.active@.len() - i,
        {
            assert(all.take(i as int + 1).drop_last() =~= all.take(i as int));
            if self.active[i] != run.id {
                kept.push(self.active[i]);
            }
            i += 1;
        }
        assert(all.take(i as int) =~= all);
        self.active = kept;
        let mut m = "[subagent#".to_string();
        m.append(decimal(run.id as u128).as_str());
        if cancelled {
            m.append("] 已取消");
            ("(已取消)".to_string(), m)
        } else {
            m.append("] 完成 (");
            m.append(elapsed);
            m.append(")");
            (run.answer, m)
        }
    }
}

/// Numbers without one of them.
pub open spec fn without_id(ids: Seq<u64>, id: u64) -> Seq<u64>
    decreases ids.len(),
{
    if ids.len() == 0 {
        Seq::empty()
    } else {
        let rest = without_id(ids.drop_last(), id);
        if ids.last() == id {
            rest
        } else {
            rest.push(ids.last())
        }
    }
}

// ---- the plugin ----

pub struct SubagentPlugin;

pub fn factory() -> (r: SubagentPlugin)
    ensures
        r == SubagentPlugin,
{
    SubagentPlugin
}

/// The context with what the subagent plugin registers.
pub open spec fn subagent_applied(c: ContextView, scope: u64) -> ContextView {
    provided_spec(
        ContextView { next: (c.next + 1) as u64, ..c },
        scope,
        ProvidedView {
            key: SubagentService::key_spec(),
            name: SubagentService::title(),
            instance: c.next,
        },
    ).registered(scope, KindView::Command("subagent"@)).registered(
        scope,
        KindView::Command("models"@),
    )
}

/// What comes of applying the plugin: the context after it, and whether it was
/// done.
pub open spec fn subagent_outcome(c: ContextView, scope: u64, options: Result<SubagentOptions, String>) -> (
    ContextView,
    Result<(), Seq<char>>,
) {
    match options {
        Err(e) => (c, Err(e@)),
        Ok(_) => if service_at(c.services, LlmService::key_spec()) is None {
            (c, Err("缺少 llm 服务"@))
        } else {
            (subagent_applied(c, scope), Ok(()))
        },
    }
}

impl Plugin for SubagentPlugin {
    type Options = Result<SubagentOptions, String>;

    open spec fn title(&self) -> Seq<char> {
        "subagent"@
    }

    open spec fn needs(&self) -> Seq<Seq<char>> {
        seq!["llm"@]
    }

    open spec fn demand(&self) -> nat {
        3
    }

    open spec fn may_come_to(
        &self,
        before: ContextView,
        scope: u64,
        options: Result<SubagentOptions, String>,
        after: ContextView,
        r: Result<(), Seq<char>>,
    ) -> bool {
        (after, r) == subagent_outcome(before, scope, options)
    }

    fn name(&self) -> (r: &'static str) {
        "subagent"
    }

    fn inject(&self) -> (r: Vec<&'static str>) {
        let mut v: Vec<&'static str> = Vec::new();
        v.push("llm");
        assert(names(v@) =~= seq!["llm"@]);
        v
    }

    /// Provides the service and registers the commands.
    fn apply(&self, ctx: &mut Context, scope: u64, options: Result<SubagentOptions, String>) -> (r:
        Result<(), String>)
    {
        let ghost before = ctx@;
        proof {
            grows_reflexive(before, scope);
        }
        if let Err(e) = options {
            return Err(e);
        }
        if !ctx.has_service::<LlmService>() {
            return Err("缺少 llm 服务".to_string());
        }
        let instance: u64 = ctx.next_id();
        proof {
            grows_counted(before, before, scope);
        }
        let ghost counted = ctx@;
        ctx.provide::<SubagentService>(scope, instance);
        let ghost provided = ctx@;
        proof {
            grows_provided(
                before,
                counted,
                scope,
                ProvidedView {
                    key: SubagentService::key_spec(),
                    name: SubagentService::title(),
                    instance,
                },
            );
            grows_registered(before, provided, scope, KindView::Command("subagent"@));
        }
        ctx.on_command(scope, "subagent");
        let ghost one = ctx@;
        proof {
            grows_registered(before, one, scope, KindView::Command("models"@));
        }
        ctx.on_command(scope, "models");
        Ok(())
    }
}

}  // verus!
