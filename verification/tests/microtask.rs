use localai::cordis::Loader;
use localai::json::Json;
use localai::llm::MicroOutcome;
use localai::plugins::microtask::{
    ambient_status, ambient_tasks, default_retries, factory, first_value_string, pipeline_first,
    pipeline_input, pipeline_report, pipeline_status, pipeline_tasks, MicroOptions, MicroService,
    CLASSIFY_SYSTEM, SAMPLE_INPUT,
};

fn outcome(task: &'static str, json: Option<&str>) -> Result<MicroOutcome, String> {
    Ok(MicroOutcome {
        task,
        json: json.map(|j| Json::parse(j).unwrap()),
        text: String::new(),
        latency_ms: 12,
        retries: 0,
    })
}

#[test]
fn a_value_is_shown() {
    let show = |t: &str| first_value_string(&Json::parse(t).unwrap());
    assert_eq!(show("\"x\""), "x");
    assert_eq!(show("[\"a\", 1, \"b\"]"), "a,b");
    assert_eq!(show("{\"k\": {\"m\": \"n\"}, \"z\": 1}"), "n");
    assert_eq!(show("{}"), "?");
    assert_eq!(show("null"), "null");
    assert_eq!(show("true"), "true");
    assert_eq!(show("-1.5"), "-1.5");
    assert_eq!(show("42"), "42");
}

#[test]
fn the_status_after_a_reply() {
    let classify = outcome("classify", Some("{\"intent\": \"question\"}"));
    let tags = outcome("tags", Some("{\"tags\": [\"rust\", \"http\"]}"));
    assert_eq!(
        ambient_status(&classify, &tags, "1s"),
        "[micro] 意图=question | 关键词=rust,http (1s)"
    );
    assert_eq!(
        ambient_status(&Err("x".to_string()), &tags, "1s"),
        "[micro] 关键词=rust,http (1s)"
    );
    assert_eq!(
        ambient_status(&Err("x".to_string()), &outcome("tags", None), "2s"),
        "[micro] 环境微调用失败 (2s)"
    );
}

#[test]
fn the_report_of_the_chain() {
    let classify = outcome("classify", Some("{\"intent\": \"command\"}"));
    let outs = vec![
        outcome("title", Some("{\"title\": \"T\"}")),
        Err("tags 失败".to_string()),
        outcome("summary", None),
    ];
    assert_eq!(
        pipeline_report(&classify, &outs, "1s", "2s", "3s"),
        vec![
            "[micro] 意图: command (阶段1 1s)",
            "[micro] title    T (12)",
            "[micro] tags 失败",
            "[micro] summary  ? (12)",
            "[micro] 阶段1=1s 阶段2(3 并行)=2s 总计=3s",
        ]
    );
    assert_eq!(
        pipeline_report(&Err("e".to_string()), &Vec::new(), "1s", "2s", "3s")[0],
        "[micro] 意图: 解析失败 (阶段1 1s)"
    );
}

#[test]
fn the_questions() {
    let ambient = ambient_tasks("你好", "答");
    assert_eq!(ambient.iter().map(|t| t.name).collect::<Vec<_>>(), vec!["classify", "tags"]);
    assert_eq!(ambient[0].input, "你好");
    assert_eq!(ambient[0].system, CLASSIFY_SYSTEM);
    assert_eq!(pipeline_input(""), SAMPLE_INPUT);
    assert_eq!(pipeline_input("x y"), "x y");
    assert_eq!(pipeline_first("x").name, "classify");
    let rest = pipeline_tasks("x");
    assert_eq!(
        rest.iter().map(|t| (t.name, t.max_tokens)).collect::<Vec<_>>(),
        vec![("title", 60), ("tags", 80), ("summary", 120)]
    );
    assert!(pipeline_status("x").contains('x'));
}

#[test]
fn micro_options_have_defaults() {
    assert_eq!(default_retries(), 2);
    assert_eq!(MicroOptions::default().max_retries, 2);
    let mut l = Loader::new(vec![factory()]);
    assert!(l.load("microtask", None, Err("bad".to_string())).is_err());
    assert!(!l.root().has_service::<MicroService>());
    assert!(l.load("microtask", None, Ok(MicroOptions::default())).is_ok());
    assert!(l.root().has_service::<MicroService>());
    assert!(l.root().run_command("micro x").is_some());
    l.unload("microtask").unwrap();
    assert!(l.root().run_command("micro x").is_none());
}
