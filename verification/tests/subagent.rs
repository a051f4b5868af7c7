use localai::cordis::Loader;
use localai::llm::client::{ChatResponse, ChatUsage};
use localai::plugins::subagent::{
    builtin_profiles, check_system, combine, factory, first_cmd, parse_args, reply_text,
    routing_table, sanitize, sub_system, tokenize, SubRun, SubStep, SubagentOptions, SubagentPlan,
    SubagentPlugin, SubagentService, MAX_SUB_TOOL_ROUNDS, REGISTRY_VERSION, USAGE_PARALLEL,
    USAGE_SUBAGENT,
};

fn options(max_rounds: usize) -> SubagentOptions {
    SubagentOptions { model: None, max_rounds, parallel_limit: 3, tools: false }
}

fn test_loader(max_rounds: usize) -> (Loader<SubagentPlugin>, SubagentService) {
    let mut l = Loader::new(vec![factory()]);
    assert!(l.load("subagent", None, Ok(options(max_rounds))).is_ok());
    (l, SubagentService::new(options(max_rounds)))
}

/// The arguments of a command that is handled.
fn args_of(l: &Loader<SubagentPlugin>, line: &str) -> String {
    l.root().run_command(line).unwrap().args
}

/// A model that answers in turn.
struct Model<'a> {
    contents: Vec<&'a str>,
    asked: Vec<String>,
}

impl Model<'_> {
    fn answer(&mut self, request: &localai::llm::ChatRequest) -> String {
        self.asked.push(request.messages[0].content.clone());
        self.contents.remove(0).to_string()
    }
}

/// Runs a task to its end.
fn drive(
    svc: &mut SubagentService,
    task: &str,
    use_tools: bool,
    model: &mut Model,
    tool: &mut dyn FnMut(&str) -> Option<String>,
) -> String {
    let (mut run, _) = svc.begin(task, use_tools);
    while let Some(mut call) = svc.next_call(&run, false) {
        let text = loop {
            let reply = model.answer(&call.request("m"));
            match call.replied(&reply) {
                SubStep::Done(t) => break t,
                SubStep::Tool(cmd) => {
                    let out = tool(&cmd);
                    call.ran(&cmd, out);
                }
            }
        };
        run = svc.called(run, text);
    }
    svc.finish(run, false, "1s").0
}

#[test]
fn routing_table_contains_profiles() {
    let t = routing_table();
    assert!(t.contains("Qwen3.6-35b") && t.contains("Qwen3.8-27B-4bit"));
    assert!(t.contains("委派准则"));
    assert!(t.contains(REGISTRY_VERSION));
}

#[test]
fn parse_args_variants() {
    let p = parse_args("--parallel \"任务A\" | \"任务B\" --model Qwen3.8-27B-4bit");
    assert_eq!(p.parallel, vec!["任务A", "任务B"]);
    assert_eq!(p.model.as_deref(), Some("Qwen3.8-27B-4bit"));
    assert!(!p.tools);

    let s = parse_args("--tools --model M 帮我统计文件行数");
    assert!(s.parallel.is_empty());
    assert!(s.tools);
    assert_eq!(s.task, "帮我统计文件行数");

    let plain = parse_args("写一个冒泡排序");
    assert!(plain.parallel.is_empty());
    assert_eq!(plain.task, "写一个冒泡排序");

    let quoted_single = parse_args("\"帮我查一下文档内容\"");
    assert!(quoted_single.parallel.is_empty(), "无 --parallel 时引号任务应保持单任务");
    assert_eq!(quoted_single.task, "帮我查一下文档内容");

    let quoted_model = parse_args("--model \"Qwen3.8-27B-4bit\" 看图描述");
    assert_eq!(quoted_model.model.as_deref(), Some("Qwen3.8-27B-4bit"));
    assert!(quoted_model.parallel.is_empty());
    assert_eq!(quoted_model.task, "看图描述");

    let p2 = parse_args("--parallel \"A\" --model M | \"B\"");
    assert_eq!(p2.parallel, vec!["A", "B"]);
    assert_eq!(p2.model.as_deref(), Some("M"));
}

#[test]
fn subagent_single_task_with_selfcheck() {
    let (l, mut svc) = test_loader(2);
    let mut model = Model {
        contents: vec!["子任务结果:排序算法 O(n²)", "子任务结果:排序算法 O(n²)"],
        asked: Vec::new(),
    };
    let args = args_of(&l, "subagent 写冒泡排序");
    let out = match svc.handle_subagent(&args, "m") {
        SubagentPlan::Single(task, _, tools) => {
            drive(&mut svc, &task, tools, &mut model, &mut |_| None)
        }
        _ => panic!("应为单任务"),
    };
    assert!(out.contains("排序算法"), "{out}");
    assert!(model.contents.is_empty());
    assert_eq!(model.asked[0], sub_system(false));
    assert_eq!(model.asked[1], check_system("写冒泡排序", "子任务结果:排序算法 O(n²)"));
    assert!(svc.active.is_empty());
}

#[test]
fn subagent_parallel_fanout() {
    let (l, mut svc) = test_loader(1);
    let mut model = Model { contents: vec!["A 的结果", "B 的结果"], asked: Vec::new() };
    let args = args_of(&l, "subagent --parallel \"任务A\" | \"任务B\"");
    let out = match svc.handle_subagent(&args, "m") {
        SubagentPlan::Parallel(tasks, _, tools) => {
            let results: Vec<String> = tasks
                .iter()
                .map(|t| drive(&mut svc, t, tools, &mut model, &mut |_| None))
                .collect();
            combine(&results)
        }
        _ => panic!("应为并行"),
    };
    assert!(out.contains("[子任务1]") && out.contains("[子任务2]"), "{out}");
    assert!(out.contains("A 的结果") && out.contains("B 的结果"), "{out}");
    assert_eq!(out, "[子任务1]\nA 的结果\n\n[子任务2]\nB 的结果");
}

#[test]
fn subagent_tools_runs_commands() {
    let (mut l, mut svc) = test_loader(1);
    let root = l.root().id();
    l.root_mut().on_command(root, "fs");
    let mut model = Model { contents: vec!["/fs ls .", "目录里有 2 个文件"], asked: Vec::new() };
    let args = args_of(&l, "subagent --tools 统计目录");
    let mut calls: Vec<String> = Vec::new();
    let out = match svc.handle_subagent(&args, "m") {
        SubagentPlan::Single(task, _, tools) => {
            drive(&mut svc, &task, tools, &mut model, &mut |cmd| {
                l.root().run_command(cmd).map(|c| {
                    calls.push(c.args);
                    "a.txt b.txt".to_string()
                })
            })
        }
        _ => panic!("应为单任务"),
    };
    assert!(out.contains("2 个文件"), "{out}");
    assert_eq!(calls, vec!["ls ."], "工具应被调用一次");
}

#[test]
fn models_command_outputs_table() {
    let (l, svc) = test_loader(1);
    assert!(l.root().run_command("models").is_some());
    let out = svc.handle_models();
    assert!(out.contains("Qwen3.8-27B-4bit"));
    assert_eq!(out, routing_table());
    assert_eq!(builtin_profiles().len(), 6);
}

#[test]
fn words_of_a_line() {
    assert_eq!(tokenize("a \"b c\" | d"), vec!["a", "b c", "|", "d"]);
    assert_eq!(tokenize("  "), Vec::<String>::new());
    assert_eq!(tokenize("\"\" x"), vec!["x"]);
}

#[test]
fn commands_are_found_on_a_line_of_their_own() {
    assert_eq!(first_cmd("好\n  /fs ls .\n"), Some("fs ls .".to_string()));
    assert_eq!(first_cmd("用 /fs ls"), None);
    assert_eq!(first_cmd("/rm -rf x"), None);
    assert_eq!(first_cmd("/subagent x"), None);
    assert_eq!(first_cmd("/run ls"), Some("run ls".to_string()));
    assert_eq!(sanitize("行一\n  /fs ls .\n行二\n/run ls"), "行一\n行二");
    assert_eq!(sanitize("行一\n/subagent x"), "行一\n/subagent x");
}

#[test]
fn a_call_uses_a_few_commands_only() {
    let svc = SubagentService::new(options(1));
    let run = SubRun {
        id: 1,
        task: "t".to_string(),
        use_tools: true,
        calls: 0,
        answer: String::new(),
    };
    let mut call = svc.next_call(&run, false).unwrap();
    for _ in 0..MAX_SUB_TOOL_ROUNDS {
        match call.replied("/run ls") {
            SubStep::Tool(c) => call.ran(&c, None),
            SubStep::Done(_) => panic!("应执行命令"),
        }
    }
    assert_eq!(call.messages.last().unwrap().content, "[工具结果 /run ls]\n(命令未注册)");
    match call.replied("/run ls") {
        SubStep::Done(t) => assert!(!t.contains("/run")),
        SubStep::Tool(_) => panic!("轮数已尽"),
    }
    assert_eq!(MAX_SUB_TOOL_ROUNDS, 3);
}

#[test]
fn plans_of_the_command() {
    let svc = SubagentService::new(SubagentOptions {
        model: Some("D".to_string()),
        parallel_limit: 1,
        tools: true,
        max_rounds: 0,
    });
    assert_eq!((svc.max_rounds, svc.parallel_limit), (1, 1));
    assert!(matches!(svc.handle_subagent("", "m"), SubagentPlan::Usage(u) if u == USAGE_SUBAGENT));
    assert!(matches!(
        svc.handle_subagent("--parallel \" \"", "m"),
        SubagentPlan::Usage(u) if u == USAGE_PARALLEL
    ));
    match svc.handle_subagent("--parallel \"A\" | \"B\"", "m") {
        SubagentPlan::Parallel(tasks, model, tools) => {
            assert_eq!(tasks, vec!["A"]);
            assert_eq!(model, "D");
            assert!(tools);
        }
        _ => panic!("应为并行"),
    }
    match svc.handle_subagent("--model M x y", "m") {
        SubagentPlan::Single(task, model, _) => assert_eq!((task.as_str(), model.as_str()), ("x y", "M")),
        _ => panic!("应为单任务"),
    }
}

#[test]
fn cancelled_tasks_end() {
    let mut svc = SubagentService::new(options(2));
    let (run, status) = svc.begin("t", false);
    assert_eq!(status, "[subagent#1] 开始: t");
    assert_eq!(svc.active, vec![1]);
    let run = svc.called(run, "答".to_string());
    assert!(svc.next_call(&run, true).is_none());
    let (out, status) = svc.finish(run, true, "1s");
    assert_eq!((out.as_str(), status.as_str()), ("(已取消)", "[subagent#1] 已取消"));
    assert!(svc.active.is_empty());
    assert_eq!(svc.begin("u", false).0.id, 2);
}

#[test]
fn failed_calls_are_told() {
    assert_eq!(reply_text(Some(Err("HTTP 500".to_string()))), "(子任务调用失败: HTTP 500)");
    let usage = ChatUsage {
        total_time: None,
        cached_tokens: None,
        prompt_tokens: None,
        completion_tokens: None,
        model_load_duration: None,
    };
    let r = ChatResponse {
        content: "答".to_string(),
        finish_reason: String::new(),
        usage,
        latency_ms: 0,
    };
    assert_eq!(reply_text(Some(Ok(r))), "答");
    assert_eq!(reply_text(None), "");
}

#[test]
fn results_hold_no_command() {
    for text in [
        "/fs ls .",
        "  /run x\r\n\n/pwd\nok /run y\n",
        "\n\n/mode full\r\n  结果 \r\n/fs cat a\r",
        "结果\u{2028}/run x",
        "",
    ] {
        assert_eq!(first_cmd(&sanitize(text)), None, "{text:?}");
    }
}

#[test]
fn results_keep_the_other_lines() {
    assert_eq!(sanitize("  一\n\n 二 \n/fs ls\n三\n"), "一\n\n 二 \n三");
    for text in ["", "\n", " a \n\tb\n", "一\n/subagent x\n/unknown", "a\rb", "x\n\n\ny\n\n"] {
        assert_eq!(first_cmd(text), None);
        assert_eq!(sanitize(text), text.trim(), "{text:?}");
        assert_eq!(sanitize(text).trim(), sanitize(text));
    }
    assert_eq!(sanitize("a\r\nb"), "a\nb");
}
