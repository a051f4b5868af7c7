use localai::config::{
    default_concurrent, default_model, default_timeout, default_true, plugin_line, resolve_key,
    run_mode, self_test_line, RunMode, ServerCfg,
};
use localai::cordis::{Loader, Plugin, PluginStatus};
use localai::plugins::builtin;

fn server(key: Option<&str>, env: Option<&str>) -> ServerCfg {
    ServerCfg {
        base_url: "http://x".to_string(),
        api_key: key.map(String::from),
        api_key_env: env.map(String::from),
        default_model: default_model(),
        max_concurrent: default_concurrent(),
        timeout_secs: default_timeout(),
    }
}

#[test]
fn the_key_of_the_environment_comes_first() {
    let set = Some("env".to_string());
    let s = server(Some("file"), Some("K"));
    assert_eq!(resolve_key(&s, set.clone()).unwrap(), "env");
    assert_eq!(resolve_key(&s, Some(String::new())).unwrap(), "file");
    assert_eq!(resolve_key(&s, None).unwrap(), "file");
    assert_eq!(resolve_key(&server(Some("file"), None), set).unwrap(), "file");
    assert_eq!(
        resolve_key(&server(Some(""), Some("K")), None).err().unwrap(),
        "未配置 API key:请设置环境变量 K 或在 localai.yml server.api_key 中配置"
    );
    assert!(resolve_key(&server(None, None), None).err().unwrap().contains("LLM_API_KEY"));
}

fn mode(args: &[&str]) -> RunMode {
    run_mode(&args.iter().map(|s| s.to_string()).collect())
}

#[test]
fn the_arguments_choose_the_mode() {
    assert!(matches!(mode(&["localai"]), RunMode::Terminal));
    assert!(matches!(mode(&[]), RunMode::Terminal));
    assert!(matches!(mode(&["localai", "--list-plugins"]), RunMode::ListPlugins));
    assert!(matches!(mode(&["localai", "--once", "嗨"]), RunMode::Once(t) if t == "嗨"));
    assert!(matches!(mode(&["localai", "--once"]), RunMode::Once(t) if t == "你好"));
    assert!(matches!(mode(&["localai", "--micro"]), RunMode::Micro(t) if t.is_empty()));
    assert!(matches!(mode(&["localai", "--self-test"]), RunMode::SelfTest));
    assert!(matches!(mode(&["localai", "x"]), RunMode::Terminal));
}

#[test]
fn plugins_are_listed() {
    let on = PluginStatus { name: "chat".to_string(), loaded: true };
    let off = PluginStatus { name: "tui".to_string(), loaded: false };
    assert_eq!(plugin_line(&on), "chat         已加载");
    assert_eq!(plugin_line(&off), "tui          未加载");
    assert_eq!(self_test_line(&on), "插件 chat         已加载 ✓");
    assert!(self_test_line(&off).ends_with("未加载"));
    assert!(default_true());
    let l = Loader::new(builtin());
    let names: Vec<String> = l.list().into_iter().map(|p| p.name).collect();
    assert_eq!(names.len(), 5);
    assert!(names.contains(&"memory".to_string()) && !names.contains(&"subagent".to_string()));
}

#[test]
fn plugins_name_what_they_need() {
    let needs: Vec<(&str, Vec<&str>)> =
        builtin().iter().map(|p| (p.name(), p.inject())).collect();
    assert_eq!(
        needs,
        vec![
            ("memory", vec!["llm"]),
            ("chat", vec!["llm"]),
            ("microtask", vec!["llm"]),
            ("tools", vec!["fs", "subprocess"]),
            ("tui", vec!["loader", "llm"]),
        ]
    );
}
