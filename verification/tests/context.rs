use localai::cordis::context::{command_output, Taken};
use localai::cordis::{Context, Event, Service};
use std::collections::HashMap;

struct EvA;
impl Event for EvA {
    fn key() -> u64 {
        101
    }
    fn name(&self) -> &'static str {
        "test/a"
    }
}

struct EvB;
impl Event for EvB {
    fn key() -> u64 {
        102
    }
    fn name(&self) -> &'static str {
        "test/b"
    }
}

struct TestSvc;
impl Service for TestSvc {
    fn key() -> u64 {
        201
    }
    fn service_name_static() -> &'static str {
        "test-svc"
    }
}

struct OtherSvc;
impl Service for OtherSvc {
    fn key() -> u64 {
        202
    }
    fn service_name_static() -> &'static str {
        "another"
    }
}

#[test]
fn effects_run_in_reverse_order_on_dispose() {
    let mut ctx = Context::new();
    let root = ctx.id();
    let mut effects: HashMap<u64, i32> = HashMap::new();
    effects.insert(ctx.effect(root), 1);
    effects.insert(ctx.effect(root), 2);
    effects.insert(ctx.effect(root), 3);
    let order: Vec<i32> = ctx.dispose(root).iter().map(|id| effects[id]).collect();
    assert_eq!(order, vec![3, 2, 1]);
}

#[test]
fn emit_calls_all_listeners_in_order() {
    let mut ctx = Context::new();
    let root = ctx.id();
    let mut handlers: HashMap<u64, &str> = HashMap::new();
    handlers.insert(ctx.on::<EvA>(root), "a1");
    handlers.insert(ctx.on::<EvA>(root), "a2");
    handlers.insert(ctx.on::<EvB>(root), "b1");
    let calls: Vec<&str> = ctx.emit::<EvA>(root).unwrap().iter().map(|id| handlers[id]).collect();
    ctx.dispatched::<EvA>(root);
    assert_eq!(calls, vec!["a1", "a2"]);
}

#[test]
fn emit_does_not_consume_listeners() {
    let mut ctx = Context::new();
    let root = ctx.id();
    ctx.on::<EvA>(root);
    let mut count = 0;
    for _ in 0..3 {
        count += ctx.emit::<EvA>(root).unwrap().len();
        ctx.dispatched::<EvA>(root);
    }
    assert_eq!(count, 3, "多次 emit 监听器应常驻");
}

#[test]
fn emit_is_reentrant() {
    let mut ctx = Context::new();
    let root = ctx.id();
    ctx.on::<EvA>(root);
    let mut count = 0;
    let outer = ctx.emit::<EvA>(root).unwrap();
    for _ in &outer {
        count += 1;
        if let Some(inner) = ctx.emit::<EvA>(root) {
            count += inner.len();
        }
    }
    ctx.dispatched::<EvA>(root);
    assert_eq!(count, 1);
}

#[test]
fn nested_emission_through_another_scope_is_skipped() {
    let mut ctx = Context::new();
    let root = ctx.id();
    let child = ctx.fork();
    ctx.on::<EvA>(child);
    let mut n = 0;
    for _ in ctx.emit::<EvA>(root).unwrap() {
        n += 1;
        assert!(ctx.emit::<EvA>(child).is_none());
        ctx.dispatched::<EvA>(child);
        assert!(ctx.emit::<EvA>(child).is_none());
        assert!(ctx.bail::<EvA, u32>(child).is_none());
    }
    ctx.dispatched::<EvA>(root);
    assert_eq!(n, 1);
    assert_eq!(ctx.emit::<EvA>(child).unwrap().len(), 1);
}

#[test]
fn other_events_are_not_held_up() {
    let mut ctx = Context::new();
    let root = ctx.id();
    ctx.on::<EvA>(root);
    ctx.on::<EvB>(root);
    assert_eq!(ctx.emit::<EvA>(root).unwrap().len(), 1);
    assert_eq!(ctx.emit::<EvB>(root).unwrap().len(), 1);
    assert!(ctx.emit::<EvA>(root).is_none());
    ctx.dispatched::<EvB>(root);
    assert!(ctx.emit::<EvA>(root).is_none());
    ctx.dispatched::<EvA>(root);
    assert!(ctx.emit::<EvA>(root).is_some());
}

#[test]
fn dispose_keeps_the_order_of_the_others() {
    let mut ctx = Context::new();
    let root = ctx.id();
    let plugin = ctx.fork();
    let first = ctx.on::<EvA>(root);
    ctx.on::<EvA>(plugin);
    let third = ctx.on::<EvA>(root);
    ctx.on::<EvA>(plugin);
    ctx.dispose(plugin);
    assert_eq!(ctx.emit::<EvA>(root).unwrap(), vec![first, third]);
}

#[test]
fn command_can_run_multiple_times() {
    let mut ctx = Context::new();
    let root = ctx.id();
    let id = ctx.on_command(root, "demo");
    for _ in 0..2 {
        let call = ctx.run_command("demo").expect("命令应常驻");
        assert_eq!(call.handlers, vec![id]);
        let results: Vec<String> = call.handlers.iter().map(|_| "ok".to_string()).collect();
        assert_eq!(command_output(&results), "ok");
    }
}

#[test]
fn command_lines_are_parted() {
    let mut ctx = Context::new();
    let root = ctx.id();
    let first = ctx.on_command(root, "demo");
    let second = ctx.on_command(root, "demo");
    let call = ctx.run_command("//demo   a b  ").unwrap();
    assert_eq!(call.handlers, vec![first, second]);
    assert_eq!(call.args, "a b");
    assert_eq!(command_output(&vec!["x".to_string(), "y".to_string()]), "x\ny");
    assert_eq!(ctx.run_command("demo").unwrap().args, "");
    assert!(ctx.run_command("dem").is_none());
    assert!(ctx.run_command("").is_none());
}

#[test]
fn bail_short_circuits_on_first_some() {
    let mut ctx = Context::new();
    let root = ctx.id();
    let mut answers: HashMap<u64, Option<i32>> = HashMap::new();
    answers.insert(ctx.on_bail::<EvA>(root), None);
    answers.insert(ctx.on_bail::<EvA>(root), Some(42));
    answers.insert(ctx.on_bail::<EvA>(root), Some(99));
    let mut run = ctx.bail::<EvA, i32>(root).unwrap();
    let mut called = 0;
    while let Some(id) = run.next() {
        called += 1;
        run.answer(match answers[&id] {
            Some(v) => Taken::With(v),
            None => Taken::Open,
        });
    }
    ctx.dispatched::<EvA>(root);
    let got: Option<i32> = run.result();
    assert_eq!(got, Some(42));
    assert_eq!(called, 2);
}

#[test]
fn bail_ends_on_a_result_of_another_type() {
    let mut ctx = Context::new();
    let root = ctx.id();
    ctx.on_bail::<EvA>(root);
    ctx.on_bail::<EvA>(root);
    let mut run = ctx.bail::<EvA, i32>(root).unwrap();
    assert!(ctx.bail::<EvA, i32>(root).is_none());
    assert!(run.next().is_some());
    run.answer(Taken::Mismatch);
    assert!(run.next().is_none());
    assert_eq!(run.result(), None);
}

#[test]
fn service_provide_inject_and_remove_on_dispose() {
    let mut ctx = Context::new();
    let root = ctx.id();
    assert!(!ctx.has_service::<TestSvc>());
    let instance = ctx.next_id();
    ctx.provide::<TestSvc>(root, instance);
    assert!(ctx.has_service::<TestSvc>());
    assert!(ctx.inject::<TestSvc>().is_some());
    ctx.dispose(root);
    assert!(!ctx.has_service::<TestSvc>());
}

#[test]
fn dispose_removes_registered_handlers_and_commands() {
    let mut root_ctx = Context::new();
    let root = root_ctx.id();
    let plugin = root_ctx.fork();
    let mut calls = 0;
    root_ctx.on::<EvA>(plugin);
    root_ctx.on_command(plugin, "demo");
    calls += root_ctx.emit::<EvA>(root).unwrap().len();
    root_ctx.dispatched::<EvA>(root);
    assert_eq!(calls, 1);
    assert!(root_ctx.run_command("demo").is_some());
    root_ctx.dispose(plugin);
    calls += root_ctx.emit::<EvA>(root).unwrap().len();
    root_ctx.dispatched::<EvA>(root);
    assert_eq!(calls, 1, "卸载后监听器应已移除");
    assert!(root_ctx.run_command("demo").is_none(), "卸载后命令应已移除");
}

#[test]
fn fork_plugin_provides_service_visible_to_root() {
    let mut root_ctx = Context::new();
    let plugin = root_ctx.fork();
    root_ctx.provide::<TestSvc>(plugin, 77);
    assert!(root_ctx.has_service::<TestSvc>());
    root_ctx.dispose(plugin);
    assert!(!root_ctx.has_service::<TestSvc>());
}

#[test]
fn a_service_that_was_replaced_is_not_taken_back() {
    let mut ctx = Context::new();
    let a = ctx.fork();
    let b = ctx.fork();
    ctx.provide::<TestSvc>(a, 1);
    ctx.provide::<TestSvc>(b, 2);
    assert_eq!(ctx.inject::<TestSvc>(), Some(2));
    ctx.dispose(a);
    assert_eq!(ctx.inject::<TestSvc>(), Some(2));
    ctx.dispose(b);
    assert_eq!(ctx.inject::<TestSvc>(), None);
}

#[test]
fn a_shared_instance_goes_with_the_first_scope() {
    let mut ctx = Context::new();
    let a = ctx.fork();
    let b = ctx.fork();
    ctx.provide::<TestSvc>(a, 5);
    ctx.provide::<TestSvc>(b, 5);
    ctx.dispose(a);
    assert!(!ctx.has_service::<TestSvc>());
}

#[test]
fn names_are_in_order() {
    let mut ctx = Context::new();
    let root = ctx.id();
    let plugin = ctx.fork();
    ctx.provide::<TestSvc>(root, 1);
    ctx.provide::<OtherSvc>(root, 2);
    assert_eq!(ctx.service_names(), vec!["another", "test-svc"]);
    ctx.on_command(root, "zeta");
    ctx.on_command(plugin, "alpha");
    ctx.on_command(plugin, "zeta");
    assert_eq!(ctx.command_names(), vec!["alpha", "zeta"]);
    ctx.dispose(plugin);
    assert_eq!(ctx.command_names(), vec!["zeta"]);
    assert_eq!(OtherSvc.service_name(), "another");
    assert_eq!(EvB.name(), "test/b");
}

#[test]
fn disposing_twice_does_nothing_more() {
    let mut ctx = Context::new();
    let root = ctx.id();
    let plugin = ctx.fork();
    let id = ctx.effect(plugin);
    assert!(!ctx.disposed(plugin));
    assert_eq!(ctx.dispose(plugin), vec![id]);
    assert!(ctx.disposed(plugin));
    assert!(ctx.dispose(plugin).is_empty());
    assert!(!ctx.disposed(root));
}

#[test]
fn a_scope_is_undone_step_by_step() {
    let mut ctx = Context::new();
    let plugin = ctx.fork();
    ctx.on::<EvA>(plugin);
    let effect = ctx.effect(plugin);
    ctx.provide::<TestSvc>(plugin, 9);
    assert!(ctx.begin_dispose(plugin));
    assert!(!ctx.begin_dispose(plugin));
    assert_eq!(ctx.undo_last(plugin).unwrap().id, effect);
    assert!(ctx.undo_last(plugin).is_some());
    assert!(ctx.undo_last(plugin).is_none());
    assert!(ctx.has_service::<TestSvc>());
    ctx.finish_dispose(plugin);
    assert!(!ctx.has_service::<TestSvc>());
}

#[test]
fn scopes_keep_their_own_options() {
    let mut ctx = Context::new();
    let root = ctx.id();
    let plugin = ctx.fork();
    assert!(ctx.knows(plugin) && !ctx.knows(plugin + 1));
    assert!(ctx.ids_left() > 1_000_000);
    ctx.set_options(plugin, Some("model: m".to_string()));
    assert_eq!(ctx.options(plugin).as_deref(), Some("model: m"));
    assert_eq!(ctx.options(root), None);
    ctx.set_options(plugin, None);
    assert_eq!(ctx.options(plugin), None);
}
