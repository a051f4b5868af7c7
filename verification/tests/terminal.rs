use localai::cordis::{LoadError, Loader, LoaderService, PluginStatus};
use localai::llm::{LlmClient, LlmConfig};
use localai::plugins::tui::{
    apply, clear_cmd, factory, handle_command, help_cmd, load_report, model_cmd, on_key,
    plugin_named, plugins_cmd, refresh_status, unload_report, Key, KeyAction, TuiBackend,
    TuiPlugin, UiEvent, HELP_TEXT, QUIT_TEXT,
};
use localai::tui::app::App;
use localai::tui::style::{Color, Span};

fn test_loader() -> Loader<TuiPlugin> {
    let mut loader = Loader::new(vec![factory()]);
    let root = loader.root().id();
    let instance = loader.root_mut().next_id();
    loader.root_mut().provide::<LoaderService>(root, instance);
    assert!(loader.load("tui", None, ()).is_ok());
    loader
}

/// What the commands of the terminal answer.
fn run_command(l: &Loader<TuiPlugin>, line: &str) -> Option<String> {
    l.root().run_command(line)?;
    match line {
        "plugins" => Some(plugins_cmd(&l.list())),
        "help" => Some(help_cmd(&l.root().command_names())),
        "quit" => Some(QUIT_TEXT.to_string()),
        _ => None,
    }
}

#[test]
fn tui_plugin_registers_commands() {
    let root = test_loader();
    let plugins_out = run_command(&root, "plugins").unwrap();
    assert!(plugins_out.contains("tui"), "plugins 输出应含 tui: {plugins_out}");
    let help = run_command(&root, "help").unwrap();
    assert!(help.contains("/quit"), "help 应列内置命令: {help}");
    assert!(
        help.contains("插件命令: /clear") && help.contains("/quit"),
        "help 应列出插件注册的命令: {help}"
    );
    assert_eq!(run_command(&root, "quit").as_deref(), Some("退出"));
}

#[test]
fn tui_unload_reverts_commands_and_service() {
    let mut root = test_loader();
    root.unload("tui").unwrap();
    assert!(run_command(&root, "quit").is_none(), "卸载后 quit 命令应消失");
    assert!(run_command(&root, "plugins").is_none(), "卸载后 plugins 命令应消失");
    assert!(root.root().inject::<TuiBackend>().is_none(), "TuiBackend 服务应随卸载回收");
}

#[test]
fn tui_run_rejects_non_tty() {
    let root = test_loader();
    assert!(root.root().inject::<TuiBackend>().is_some());
    assert!(TuiBackend.run(false).is_err());
    assert!(TuiBackend.run(true).is_ok());
}

fn shown(app: &App) -> Vec<String> {
    app.lines
        .iter()
        .map(|l| l.spans.iter().map(|s| s.content.as_str()).collect::<String>())
        .collect()
}

fn type_in(app: &mut App, text: &str) {
    for c in text.chars() {
        assert!(matches!(on_key(app, Key::Char(c, false)), KeyAction::Nothing));
    }
}

#[test]
fn keys_edit_and_send_the_line() {
    let mut app = App::new();
    type_in(&mut app, " 你好x");
    on_key(&mut app, Key::Backspace);
    assert_eq!(app.input, " 你好");
    app.scroll = 7;
    assert!(matches!(on_key(&mut app, Key::Enter), KeyAction::Say(t) if t == "你好"));
    assert_eq!(shown(&app), vec!["你 你好"]);
    assert_eq!((app.input.as_str(), app.scroll), ("", 0));
    type_in(&mut app, "/fs ls");
    assert!(matches!(on_key(&mut app, Key::Enter), KeyAction::Command(c) if c == "fs ls"));
    assert!(matches!(on_key(&mut app, Key::Enter), KeyAction::Nothing));
    on_key(&mut app, Key::Backspace);
    assert_eq!(app.input, "");
}

#[test]
fn escape_clears_and_interrupts() {
    let mut app = App::new();
    type_in(&mut app, "abc");
    assert!(matches!(on_key(&mut app, Key::Esc), KeyAction::Interrupt));
    assert_eq!(app.input, "");
    assert!(matches!(on_key(&mut app, Key::Esc), KeyAction::Interrupt));
    assert!(matches!(on_key(&mut app, Key::Char('c', true)), KeyAction::Quit));
    on_key(&mut app, Key::Char('c', false));
    assert_eq!(app.input, "c");
}

#[test]
fn pages_are_turned() {
    let mut app = App::new();
    on_key(&mut app, Key::PageUp);
    on_key(&mut app, Key::PageUp);
    assert_eq!(app.scroll, 10);
    on_key(&mut app, Key::PageDown);
    assert_eq!(app.scroll, 5);
    on_key(&mut app, Key::PageDown);
    on_key(&mut app, Key::PageDown);
    assert_eq!(app.scroll, 0);
    app.scroll = u16::MAX - 2;
    on_key(&mut app, Key::PageUp);
    assert_eq!(app.scroll, u16::MAX);
    assert!(matches!(on_key(&mut app, Key::Other), KeyAction::Nothing));
}

#[test]
fn the_screen_is_a_window() {
    let mut app = App::default();
    for i in 0..10 {
        app.push_line(vec![Span::raw(format!("{i}"))]);
    }
    let drawn = |a: &App, h: u16| -> Vec<String> {
        a.draw(h).iter().map(|l| l.spans[0].content.clone()).collect()
    };
    assert_eq!(drawn(&app, 5), vec!["7", "8", "9"]);
    assert_eq!(drawn(&app, 0), vec!["9"]);
    app.scroll = 2;
    assert_eq!(drawn(&app, 5)[0], "5");
    app.scroll = 100;
    assert_eq!(drawn(&app, 5).len(), 10);
    assert_eq!(drawn(&App::new(), 5).len(), 0);
    clear_cmd(&mut app);
    assert_eq!((app.lines.len(), app.scroll), (0, 0));
}

#[test]
fn the_screen_forgets_its_beginning() {
    let mut app = App::new();
    for i in 0..4001 {
        app.push_status(format!("{i}"));
    }
    assert_eq!(app.lines.len(), 2000);
    assert_eq!(shown(&app)[0], "2001");
    assert_eq!(shown(&app)[1999], "4000");
    assert_eq!(app.lines[0].spans[0].style.fg, Some(Color::DarkGray));
}

#[test]
fn answers_are_shown() {
    let mut app = App::new();
    handle_command(&mut app, "fs x", Some("a\nb\n".to_string()));
    handle_command(&mut app, "nope 1", None);
    handle_command(&mut app, " ", None);
    apply(&mut app, UiEvent::Reply("答".to_string()));
    apply(&mut app, UiEvent::Status("s".to_string()));
    assert_eq!(
        shown(&app),
        vec!["a", "b", "未知命令: /nope(/help 查看)", "未知命令: / (/help 查看)", "AI 答", "s"]
    );
    let list = vec![
        PluginStatus { name: "chat".to_string(), loaded: true },
        PluginStatus { name: "tui".to_string(), loaded: false },
    ];
    refresh_status(&mut app, &list, None, false);
    assert_eq!(app.status, " 插件×1 | 模型 ? | 192.168.0.5:9870 (oMLX) | Ctrl-C 退出 ");
    refresh_status(&mut app, &list, Some("m".to_string()), true);
    assert_eq!(
        app.status,
        " 插件×1 | 模型 m | ● 调用中 | 192.168.0.5:9870 (oMLX) | Ctrl-C 退出 "
    );
    assert_eq!(plugins_cmd(&list), "插件: chat✓ tui✗ ");
}

#[test]
fn reports_of_the_commands() {
    assert_eq!(plugin_named("  chat "), Some("chat".to_string()));
    assert!(plugin_named(" ").is_none());
    assert_eq!(load_report("chat", &Ok(())), "/load chat OK");
    assert_eq!(
        load_report("chat", &Err(LoadError::AlreadyLoaded)),
        "/load chat 失败: 插件 `chat` 已加载"
    );
    assert_eq!(unload_report("chat", &Ok(vec![1])), "/unload chat OK");
    assert_eq!(unload_report("x", &Err("e".to_string())), "/unload x 失败: e");
    assert_eq!(help_cmd(&Vec::new()), HELP_TEXT);
    let mut client = LlmClient::new(LlmConfig {
        base_url: "http://x".to_string(),
        api_key: String::new(),
        model: "a".to_string(),
        timeout_secs: 1,
        max_concurrent: 1,
    });
    assert_eq!(model_cmd(&mut client, ""), "当前模型: a");
    assert_eq!(model_cmd(&mut client, " b "), "模型已切换: b");
    assert_eq!(client.model(), "b");
}
