use localai::cordis::{Context, Event, LoadError, Loader, Plugin, Service};
use localai::llm::LlmService;

struct DemoEv;
impl Event for DemoEv {
    fn key() -> u64 {
        301
    }
    fn name(&self) -> &'static str {
        "demo/ev"
    }
}

struct DemoService;
impl Service for DemoService {
    fn key() -> u64 {
        302
    }
    fn service_name_static() -> &'static str {
        "demo"
    }
}

enum TestPlugin {
    Demo,
    Bad,
    Named(&'static str),
}

impl Plugin for TestPlugin {
    type Options = ();

    fn name(&self) -> &'static str {
        match self {
            TestPlugin::Demo => "demo",
            TestPlugin::Bad => "bad",
            TestPlugin::Named(n) => n,
        }
    }

    fn inject(&self) -> Vec<&'static str> {
        Vec::new()
    }

    fn apply(&self, ctx: &mut Context, scope: u64, _options: ()) -> Result<(), String> {
        match self {
            TestPlugin::Demo => {
                let instance = ctx.next_id();
                ctx.provide::<DemoService>(scope, instance);
                ctx.on_command(scope, "demo");
                ctx.on::<DemoEv>(scope);
                Ok(())
            }
            TestPlugin::Bad => {
                ctx.on_command(scope, "half");
                ctx.effect(scope);
                Err("boom".to_string())
            }
            TestPlugin::Named(_) => Ok(()),
        }
    }
}

fn test_loader() -> Loader<TestPlugin> {
    Loader::new(vec![TestPlugin::Demo])
}

#[test]
fn load_unload_cycle_reverts_registrations() {
    let mut l = test_loader();
    assert!(l.load("demo", None, ()).is_ok());
    assert!(l.is_loaded("demo"));
    assert!(l.root().has_service::<DemoService>());
    assert!(l.root().run_command("demo").is_some());
    l.unload("demo").unwrap();
    assert!(!l.is_loaded("demo"));
    assert!(!l.root().has_service::<DemoService>(), "服务应随卸载回收");
    assert!(l.root().run_command("demo").is_none(), "命令应随卸载移除");
}

#[test]
fn double_load_fails() {
    let mut l = test_loader();
    assert!(l.load("demo", None, ()).is_ok());
    let again = l.load("demo", None, ());
    assert!(again.is_err());
    assert_eq!(again.err().unwrap().message("demo"), "插件 `demo` 已加载");
}

#[test]
fn unknown_plugin_fails() {
    let mut l = test_loader();
    let r = l.load("nope", None, ());
    assert!(r.is_err());
    assert_eq!(r.err().unwrap().message("nope"), "未知插件 `nope`;可用: demo");
}

#[test]
fn failing_apply_rolls_back_scope() {
    let mut l = Loader::new(vec![TestPlugin::Demo, TestPlugin::Bad]);
    match l.load("bad", None, ()) {
        Err(LoadError::Failed(cause, undo)) => {
            assert_eq!(cause, "boom");
            assert_eq!(undo.len(), 1);
        }
        _ => panic!("应启动失败"),
    }
    assert!(!l.is_loaded("bad"));
    assert!(l.root().run_command("half").is_none());
    assert!(l.load("bad", None, ()).err().unwrap().message("bad").contains("启动失败: boom"));
}

#[test]
fn the_model_client_is_a_service_of_the_root() {
    let l = test_loader();
    assert!(l.root().has_service::<LlmService>());
    assert_eq!(l.root().service_names(), vec!["llm"]);
}

#[test]
fn plugins_are_listed_by_name_and_the_later_of_two_counts() {
    let mut l = Loader::new(vec![
        TestPlugin::Named("zeta"),
        TestPlugin::Demo,
        TestPlugin::Named("alpha"),
        TestPlugin::Named("demo"),
    ]);
    assert!(l.load("demo", None, ()).is_ok());
    assert!(l.root().run_command("demo").is_none());
    let listed: Vec<(String, bool)> = l.list().into_iter().map(|p| (p.name, p.loaded)).collect();
    assert_eq!(
        listed,
        vec![
            ("alpha".to_string(), false),
            ("demo".to_string(), true),
            ("zeta".to_string(), false),
        ]
    );
}

#[test]
fn unloading_what_is_not_loaded_fails() {
    let mut l = test_loader();
    assert_eq!(l.unload("demo").err().unwrap(), "插件 `demo` 未加载");
    assert!(l.load("demo", Some("a: 1".to_string()), ()).is_ok());
    assert!(l.unload("demo").unwrap().is_empty());
    assert!(l.unload("demo").is_err());
    assert!(l.load("demo", None, ()).is_ok());
}

#[test]
fn other_plugins_stay_when_one_is_unloaded() {
    let mut l = Loader::new(vec![TestPlugin::Demo, TestPlugin::Named("quiet")]);
    assert!(l.load("quiet", None, ()).is_ok());
    assert!(l.load("demo", None, ()).is_ok());
    let root = l.root().id();
    l.root_mut().on_command(root, "mine");
    l.unload("demo").unwrap();
    assert!(l.is_loaded("quiet"));
    assert!(l.root().run_command("mine").is_some());
    assert!(l.root().has_service::<LlmService>());
}
